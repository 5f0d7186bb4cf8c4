//! Decimal reading and writing of `u32` values over character sequences,
//! with the semantics of Rust's `u32::from_str`: an optional leading `+`,
//! then one or more ASCII digits, rejecting overflow.

use vstd::prelude::*;
use vstd::arithmetic::div_mod::lemma_fundamental_div_mod;

verus! {

pub open spec fn is_dec_digit(c: char) -> bool {
    '0' as u32 <= c as u32 && c as u32 <= '9' as u32
}

pub open spec fn dec_digit_val(c: char) -> nat {
    (c as u32 - '0' as u32) as nat
}

pub open spec fn all_dec_digits(s: Seq<char>) -> bool {
    forall|i: int| 0 <= i < s.len() ==> is_dec_digit(#[trigger] s[i])
}

/// The number denoted by a sequence of decimal digits (most significant first).
pub open spec fn dec_val(s: Seq<char>) -> nat
    decreases s.len(),
{
    if s.len() == 0 {
        0
    } else {
        dec_val(s.drop_last()) * 10 + dec_digit_val(s.last())
    }
}

/// The digit part of a number string: everything after an optional leading `+`.
pub open spec fn u32_str_body(s: Seq<char>) -> Seq<char> {
    if s.len() > 0 && s[0] == '+' {
        s.drop_first()
    } else {
        s
    }
}

/// What `u32::from_str` returns on this character sequence.
pub open spec fn spec_parse_u32(s: Seq<char>) -> Option<u32> {
    if u32_str_body(s).len() == 0 || !all_dec_digits(u32_str_body(s)) || dec_val(u32_str_body(s))
        > u32::MAX {
        None
    } else {
        Some(dec_val(u32_str_body(s)) as u32)
    }
}

/// Extending a digit string on the right never decreases its value.
pub proof fn lemma_dec_val_mono(s: Seq<char>, i: int)
    requires
        0 <= i <= s.len(),
    ensures
        dec_val(s.take(i)) <= dec_val(s),
    decreases s.len() - i,
{
    if i == s.len() {
        assert(s.take(i) =~= s);
    } else {
        let t = s.take(i + 1);
        assert(t.drop_last() =~= s.take(i));
        assert(dec_val(s.take(i + 1)) == dec_val(s.take(i)) * 10 + dec_digit_val(s[i]));
        assert(dec_val(s.take(i)) <= dec_val(s.take(i)) * 10);
        lemma_dec_val_mono(s, i + 1);
    }
}

/// Reads a `u32` from characters, as `u32::from_str` would.
#[verifier::rlimit(50)]
pub fn parse_u32_chars(s: &Vec<char>) -> (r: Option<u32>)
    ensures
        r == spec_parse_u32(s@),
{
    let start: usize = if s.len() > 0 && s[0] == '+' {
        1
    } else {
        0
    };
    let ghost body = u32_str_body(s@);
    proof {
        assert(body =~= s@.subrange(start as int, s@.len() as int));
    }
    if start == s.len() {
        return None;
    }
    let mut acc: u32 = 0;
    let mut i: usize = start;
    while i < s.len()
        invariant
            start <= i <= s@.len(),
            body == u32_str_body(s@),
            body == s@.subrange(start as int, s@.len() as int),
            body.len() == s@.len() - start,
            all_dec_digits(body.take(i - start)),
            acc == dec_val(body.take(i - start)),
        decreases s@.len() - i,
    {
        let c = s[i];
        if (c as u32) < ('0' as u32) || (c as u32) > ('9' as u32) {
            proof {
                assert(body[i - start] == s@[i as int]);
                assert(!is_dec_digit(body[i - start]));
                assert(!all_dec_digits(body));
            }
            return None;
        }
        let d: u32 = c as u32 - '0' as u32;
        proof {
            assert(body[i - start] == s@[i as int]);
            assert(body.take(i + 1 - start).drop_last() =~= body.take(i - start));
            assert(dec_val(body.take(i + 1 - start)) == dec_val(body.take(i - start)) * 10
                + dec_digit_val(body[i - start]));
        }
        let step = match acc.checked_mul(10) {
            Some(m) => m.checked_add(d),
            None => None,
        };
        match step {
            Some(v) => {
                acc = v;
            },
            None => {
                proof {
                    assert(dec_val(body.take(i + 1 - start)) > u32::MAX);
                    lemma_dec_val_mono(body, i + 1 - start);
                }
                return None;
            },
        }
        i = i + 1;
    }
    proof {
        assert(body.take(body.len() as int) =~= body);
    }
    Some(acc)
}

/// The decimal digit character for a value below ten.
pub open spec fn dec_digit_char(n: nat) -> char {
    if n == 0 {
        '0'
    } else if n == 1 {
        '1'
    } else if n == 2 {
        '2'
    } else if n == 3 {
        '3'
    } else if n == 4 {
        '4'
    } else if n == 5 {
        '5'
    } else if n == 6 {
        '6'
    } else if n == 7 {
        '7'
    } else if n == 8 {
        '8'
    } else {
        '9'
    }
}

/// The canonical decimal writing of a number: no sign, no leading zero
/// except for the number zero itself.
pub open spec fn spec_u32_dec(n: nat) -> Seq<char>
    decreases n,
{
    if n < 10 {
        seq![dec_digit_char(n)]
    } else {
        spec_u32_dec(n / 10).push(dec_digit_char(n % 10))
    }
}

/// The canonical decimal writing reads back as the number it was written from.
pub proof fn lemma_u32_dec_val(n: nat)
    ensures
        spec_u32_dec(n).len() >= 1,
        all_dec_digits(spec_u32_dec(n)),
        dec_val(spec_u32_dec(n)) == n,
    decreases n,
{
    if n < 10 {
        let s = seq![dec_digit_char(n)];
        assert(s.drop_last() =~= Seq::<char>::empty());
        assert(dec_val(Seq::<char>::empty()) == 0);
        assert(s.last() == dec_digit_char(n));
        assert(dec_val(s) == dec_val(s.drop_last()) * 10 + dec_digit_val(s.last()));
        assert(dec_val(s) == dec_digit_val(dec_digit_char(n)));
    } else {
        lemma_u32_dec_val(n / 10);
        let s = spec_u32_dec(n);
        assert(s.drop_last() =~= spec_u32_dec(n / 10));
        assert(s.last() == dec_digit_char(n % 10));
        assert(dec_digit_val(dec_digit_char(n % 10)) == n % 10);
        lemma_fundamental_div_mod(n as int, 10);
        assert forall|i: int| 0 <= i < s.len() implies is_dec_digit(#[trigger] s[i]) by {
            if i < s.len() - 1 {
                assert(s[i] == spec_u32_dec(n / 10)[i]);
            }
        }
    }
}

/// Writing a `u32` in decimal and reading it back gives the same number.
pub proof fn lemma_u32_dec_round_trip(n: u32)
    ensures
        spec_parse_u32(spec_u32_dec(n as nat)) == Some(n),
{
    lemma_u32_dec_val(n as nat);
    let s = spec_u32_dec(n as nat);
    assert(is_dec_digit(s[0]));
    assert(s[0] != '+');
}

fn dec_digit_char_exec(n: u32) -> (c: char)
    requires
        n < 10,
    ensures
        c == dec_digit_char(n as nat),
{
    if n == 0 {
        '0'
    } else if n == 1 {
        '1'
    } else if n == 2 {
        '2'
    } else if n == 3 {
        '3'
    } else if n == 4 {
        '4'
    } else if n == 5 {
        '5'
    } else if n == 6 {
        '6'
    } else if n == 7 {
        '7'
    } else if n == 8 {
        '8'
    } else {
        '9'
    }
}

/// Writes a `u32` as its canonical decimal characters.
pub fn u32_to_chars(n: u32) -> (r: Vec<char>)
    ensures
        r@ == spec_u32_dec(n as nat),
    decreases n,
{
    if n < 10 {
        let mut v: Vec<char> = Vec::new();
        v.push(dec_digit_char_exec(n));
        proof {
            assert(v@ =~= seq![dec_digit_char(n as nat)]);
        }
        v
    } else {
        let mut v = u32_to_chars(n / 10);
        v.push(dec_digit_char_exec(n % 10));
        v
    }
}

} // verus!
