//! The template mini-language: a `Piece` is either a reference to one of the
//! input sequences or a reference to a declared special token, each carrying a
//! type id.  A piece is written `<id>(:<type_id>)?`; an id starting with `$`
//! denotes a sequence.

use vstd::prelude::*;
use vstd::string::StringExecFns;

use crate::chars::{chars_of_str, string_from_chars, subvec};
use crate::decimal::{
    all_dec_digits, dec_val, is_dec_digit, lemma_u32_dec_round_trip, lemma_u32_dec_val,
    parse_u32_chars, spec_parse_u32, spec_u32_dec, u32_to_chars,
};

verus! {

/// One of the two input sequences a template can refer to.
#[derive(Debug, Clone, Copy, PartialEq, Eq, Structural)]
pub enum Sequence {
    /// The first sequence, always present.
    A,
    /// The pair sequence, optional.
    B,
}

/// One element of a template: an input sequence or a special token, with the
/// type id stamped on the tokens it contributes.
#[derive(Debug, PartialEq, Eq)]
#[allow(inconsistent_fields)]
pub enum Piece {
    Sequence { id: Sequence, type_id: u32 },
    SpecialToken { id: String, type_id: u32 },
}

/// The mathematical value of a `Piece`.
#[verifier::ext_equal]
#[allow(inconsistent_fields)]
pub enum PieceView {
    Sequence { id: Sequence, type_id: u32 },
    SpecialToken { id: Seq<char>, type_id: u32 },
}

impl View for Piece {
    type V = PieceView;

    open spec fn view(&self) -> PieceView {
        match self {
            Piece::Sequence { id, type_id } => PieceView::Sequence { id: *id, type_id: *type_id },
            Piece::SpecialToken { id, type_id } => PieceView::SpecialToken {
                id: id@,
                type_id: *type_id,
            },
        }
    }
}

impl Clone for Piece {
    fn clone(&self) -> (r: Self)
        ensures
            r@ == self@,
    {
        match self {
            Piece::Sequence { id, type_id } => Piece::Sequence { id: *id, type_id: *type_id },
            Piece::SpecialToken { id, type_id } => Piece::SpecialToken {
                id: id.clone(),
                type_id: *type_id,
            },
        }
    }
}

/// How many occurrences of the character `c` the string holds.
pub open spec fn char_count(s: Seq<char>, c: char) -> nat
    decreases s.len(),
{
    if s.len() == 0 {
        0
    } else {
        char_count(s.drop_last(), c) + if s.last() == c {
            1nat
        } else {
            0nat
        }
    }
}

/// The position of the first occurrence of `c` in the string.
pub open spec fn spec_first_at(s: Seq<char>, c: char) -> int {
    choose|i: int|
        0 <= i < s.len() && s[i] == c && (forall|j: int| 0 <= j < i ==> s[j] != c)
}

/// A string counts no occurrences of `c` exactly when it holds none.
pub proof fn lemma_char_count_zero(s: Seq<char>, c: char)
    ensures
        char_count(s, c) == 0 <==> (forall|j: int| 0 <= j < s.len() ==> s[j] != c),
    decreases s.len(),
{
    if s.len() > 0 {
        lemma_char_count_zero(s.drop_last(), c);
        if char_count(s, c) == 0 {
            assert forall|j: int| 0 <= j < s.len() implies s[j] != c by {
                if j < s.len() - 1 {
                    assert(s.drop_last()[j] == s[j]);
                }
            }
        } else {
            if forall|j: int| 0 <= j < s.len() ==> s[j] != c {
                assert(s.last() != c);
                assert forall|j: int| 0 <= j < s.drop_last().len() implies s.drop_last()[j] != c
                    by {
                    assert(s.drop_last()[j] == s[j]);
                }
                assert(char_count(s.drop_last(), c) == 0);
            }
        }
    }
}

/// Counting occurrences distributes over concatenation.
pub proof fn lemma_char_count_add(a: Seq<char>, b: Seq<char>, c: char)
    ensures
        char_count(a + b, c) == char_count(a, c) + char_count(b, c),
    decreases b.len(),
{
    if b.len() == 0 {
        assert(a + b =~= a);
    } else {
        lemma_char_count_add(a, b.drop_last(), c);
        assert((a + b).drop_last() =~= a + b.drop_last());
        assert((a + b).last() == b.last());
    }
}

/// A string with at least one occurrence of `c` has a first one.
pub proof fn lemma_first_at_exists(s: Seq<char>, c: char)
    requires
        char_count(s, c) >= 1,
    ensures
        0 <= spec_first_at(s, c) < s.len(),
        s[spec_first_at(s, c)] == c,
        forall|j: int| 0 <= j < spec_first_at(s, c) ==> s[j] != c,
    decreases s.len(),
{
    if char_count(s.drop_last(), c) >= 1 {
        lemma_first_at_exists(s.drop_last(), c);
        let i = spec_first_at(s.drop_last(), c);
        assert(s[i] == s.drop_last()[i]);
        assert forall|j: int| 0 <= j < i implies s[j] != c by {
            assert(s[j] == s.drop_last()[j]);
        }
        assert(0 <= i < s.len() && s[i] == c && (forall|j: int| 0 <= j < i ==> s[j] != c));
    } else {
        assert(s.last() == c);
        let i = s.len() - 1;
        lemma_char_count_zero(s.drop_last(), c);
        assert forall|j: int| 0 <= j < i implies s[j] != c by {
            assert(s[j] == s.drop_last()[j]);
        }
        assert(0 <= i < s.len() && s[i] == c && (forall|j: int| 0 <= j < i ==> s[j] != c));
    }
}

/// The first-occurrence position is determined: any index holding `c` with
/// none before it is that position.
pub proof fn lemma_first_at_unique(s: Seq<char>, c: char, i: int)
    requires
        0 <= i < s.len(),
        s[i] == c,
        forall|j: int| 0 <= j < i ==> s[j] != c,
    ensures
        spec_first_at(s, c) == i,
{
    assert(0 <= i < s.len() && s[i] == c && (forall|j: int| 0 <= j < i ==> s[j] != c));
    let k = spec_first_at(s, c);
    assert(0 <= k < s.len() && s[k] == c && (forall|j: int| 0 <= j < k ==> s[j] != c));
    if k < i {
        assert(s[k] != c);
    }
    if i < k {
        assert(s[i] != c);
    }
}

/// What a bare id (no colon handling) denotes: `$`-forms name a sequence,
/// anything else names a special token, always with type id zero.
pub open spec fn spec_extract_id(s: Seq<char>) -> Option<PieceView> {
    if s.len() > 0 && s[0] == '$' {
        let rest = s.drop_first();
        if rest.len() == 0 || (rest.len() == 1 && (rest[0] == 'A' || rest[0] == 'a')) {
            Some(PieceView::Sequence { id: Sequence::A, type_id: 0 })
        } else if rest.len() == 1 && (rest[0] == 'B' || rest[0] == 'b') {
            Some(PieceView::Sequence { id: Sequence::B, type_id: 0 })
        } else {
            match spec_parse_u32(rest) {
                Some(t) => Some(PieceView::Sequence { id: Sequence::A, type_id: t }),
                None => None,
            }
        }
    } else {
        Some(PieceView::SpecialToken { id: s, type_id: 0 })
    }
}

/// The same piece with its type id replaced.
pub open spec fn spec_with_type_id(p: PieceView, type_id: u32) -> PieceView {
    match p {
        PieceView::Sequence { id, .. } => PieceView::Sequence { id, type_id },
        PieceView::SpecialToken { id, .. } => PieceView::SpecialToken { id, type_id },
    }
}

/// What parsing a full piece string `<id>(:<type_id>)?` yields.
pub open spec fn spec_parse_piece(s: Seq<char>) -> Option<PieceView> {
    if char_count(s, ':') == 0 {
        spec_extract_id(s)
    } else if char_count(s, ':') == 1 {
        let i = spec_first_at(s, ':');
        match spec_parse_u32(s.skip(i + 1)) {
            Some(t) => match spec_extract_id(s.take(i)) {
                Some(p) => Some(spec_with_type_id(p, t)),
                None => None,
            },
            None => None,
        }
    } else {
        None
    }
}

/// The canonical writing of a piece, which parses back to the same piece.
pub open spec fn spec_piece_str(p: PieceView) -> Seq<char> {
    match p {
        PieceView::Sequence { id: Sequence::A, type_id } => seq!['$', 'A', ':']
            + spec_u32_dec(type_id as nat),
        PieceView::Sequence { id: Sequence::B, type_id } => seq!['$', 'B', ':']
            + spec_u32_dec(type_id as nat),
        PieceView::SpecialToken { id, type_id } => id + seq![':'] + spec_u32_dec(type_id as nat),
    }
}

/// The parse error text for a piece string.
pub open spec fn spec_piece_err(s: Seq<char>) -> Seq<char> {
    "Cannot build Piece from string \""@ + s + "\""@
}

/// Every piece that parsing can produce: a special-token id taken from a
/// parse holds no colon and does not start with `$`.
pub open spec fn parsed_piece(p: PieceView) -> bool {
    match p {
        PieceView::Sequence { .. } => true,
        PieceView::SpecialToken { id, .. } => char_count(id, ':') == 0 && (id.len() == 0 || id[0]
            != '$'),
    }
}

impl Piece {
    /// Reads a bare id: `$`-forms name a sequence, anything else a special
    /// token, with type id zero.
    pub fn extract_id(s: &str) -> (r: Option<Piece>)
        ensures
            r is Some <==> spec_extract_id(s@) is Some,
            r is Some ==> r->Some_0@ == spec_extract_id(s@)->Some_0,
    {
        let v = chars_of_str(s);
        if v.len() > 0 && v[0] == '$' {
            let rest = subvec(&v, 1, v.len());
            proof {
                assert(rest@ =~= s@.drop_first());
            }
            if rest.len() == 0 || (rest.len() == 1 && (rest[0] == 'A' || rest[0] == 'a')) {
                Some(Piece::Sequence { id: Sequence::A, type_id: 0 })
            } else if rest.len() == 1 && (rest[0] == 'B' || rest[0] == 'b') {
                Some(Piece::Sequence { id: Sequence::B, type_id: 0 })
            } else {
                match parse_u32_chars(&rest) {
                    Some(t) => Some(Piece::Sequence { id: Sequence::A, type_id: t }),
                    None => None,
                }
            }
        } else {
            Some(Piece::SpecialToken { id: s.to_owned(), type_id: 0 })
        }
    }

    /// The same piece with its type id replaced.
    pub fn with_type_id(self, type_id: u32) -> (r: Self)
        ensures
            r@ == spec_with_type_id(self@, type_id),
    {
        match self {
            Piece::Sequence { id, .. } => Piece::Sequence { id, type_id },
            Piece::SpecialToken { id, .. } => Piece::SpecialToken { id, type_id },
        }
    }

    /// Parses a full piece string `<id>(:<type_id>)?`.  Exactly the strings
    /// that denote no piece are rejected, with a message naming the input.
    pub fn parse(s: &str) -> (r: Result<Piece, String>)
        ensures
            r is Ok <==> spec_parse_piece(s@) is Some,
            r is Ok ==> r->Ok_0@ == spec_parse_piece(s@)->Some_0,
            r is Err ==> r->Err_0@ == spec_piece_err(s@),
    {
        let v = chars_of_str(s);
        let mut colons: usize = 0;
        let mut first: usize = 0;
        let mut i: usize = 0;
        while i < v.len()
            invariant
                i <= v@.len(),
                v@ == s@,
                colons == char_count(s@.take(i as int), ':'),
                colons <= i,
                colons > 0 ==> (0 <= first < i && s@[first as int] == ':' && (forall|j: int|
                    0 <= j < first ==> s@[j] != ':')),
                colons == 0 ==> (forall|j: int| 0 <= j < i ==> s@[j] != ':'),
            decreases v@.len() - i,
        {
            proof {
                assert(s@.take(i + 1).drop_last() =~= s@.take(i as int));
                assert(s@.take(i + 1).last() == s@[i as int]);
            }
            if v[i] == ':' {
                if colons == 0 {
                    first = i;
                }
                colons = colons + 1;
            }
            i = i + 1;
        }
        proof {
            assert(s@.take(s@.len() as int) =~= s@);
        }
        if colons == 0 {
            match Piece::extract_id(s) {
                Some(p) => Ok(p),
                None => Err(Self::parse_err(s)),
            }
        } else if colons == 1 {
            proof {
                lemma_first_at_unique(s@, ':', first as int);
            }
            let type_part = subvec(&v, first + 1, v.len());
            proof {
                assert(type_part@ =~= s@.skip(first + 1));
            }
            match parse_u32_chars(&type_part) {
                Some(t) => {
                    let id_part = subvec(&v, 0, first);
                    proof {
                        assert(id_part@ =~= s@.take(first as int));
                    }
                    let id_str = string_from_chars(&id_part);
                    match Piece::extract_id(id_str.as_str()) {
                        Some(p) => Ok(p.with_type_id(t)),
                        None => Err(Self::parse_err(s)),
                    }
                },
                None => Err(Self::parse_err(s)),
            }
        } else {
            Err(Self::parse_err(s))
        }
    }

    /// The parse error text for a piece string.
    fn parse_err(s: &str) -> (r: String)
        ensures
            r@ == spec_piece_err(s@),
    {
        let mut m = ("Cannot build Piece from string \"").to_owned();
        m.append(s);
        m.append("\"");
        m
    }

    /// Writes the piece in its canonical form, `$A:<n>`, `$B:<n>` or
    /// `<id>:<n>`.
    pub fn to_piece_string(&self) -> (r: String)
        ensures
            r@ == spec_piece_str(self@),
    {
        match self {
            Piece::Sequence { id, type_id } => {
                let mut m = match id {
                    Sequence::A => ("$A:").to_owned(),
                    Sequence::B => ("$B:").to_owned(),
                };
                let digits = u32_to_chars(*type_id);
                let ds = string_from_chars(&digits);
                m.append(ds.as_str());
                proof {
                    reveal_strlit("$A:");
                    reveal_strlit("$B:");
                    assert(m@ =~= spec_piece_str(self@));
                }
                m
            },
            Piece::SpecialToken { id, type_id } => {
                let mut m = id.clone();
                m.append(":");
                let digits = u32_to_chars(*type_id);
                let ds = string_from_chars(&digits);
                m.append(ds.as_str());
                proof {
                    reveal_strlit(":");
                    assert(m@ =~= spec_piece_str(self@));
                }
                m
            },
        }
    }
}

/// Parsing only ever yields pieces whose canonical writing is unambiguous.
pub proof fn lemma_parse_gives_parsed_piece(s: Seq<char>)
    requires
        spec_parse_piece(s) is Some,
    ensures
        parsed_piece(spec_parse_piece(s)->Some_0),
{
    if char_count(s, ':') == 0 {
        lemma_char_count_zero(s, ':');
    } else if char_count(s, ':') == 1 {
        let i = spec_first_at(s, ':');
        lemma_first_at_exists(s, ':');
        lemma_char_count_zero(s.take(i), ':');
        assert(forall|j: int| 0 <= j < i ==> s.take(i)[j] == s[j]);
    }
}

/// The canonical writing of any parseable piece parses back to that piece.
#[verifier::rlimit(100)]
#[verifier::spinoff_prover]
pub proof fn lemma_piece_str_round_trip(p: PieceView)
    requires
        parsed_piece(p),
    ensures
        spec_parse_piece(spec_piece_str(p)) == Some(p),
{
    match p {
        PieceView::Sequence { id, type_id } => {
            let head = if id == Sequence::A {
                seq!['$', 'A', ':']
            } else {
                seq!['$', 'B', ':']
            };
            let d = spec_u32_dec(type_id as nat);
            let s = head + d;
            assert(s == spec_piece_str(p));
            lemma_u32_dec_val(type_id as nat);
            lemma_u32_dec_round_trip(type_id);
            assert forall|j: int| 0 <= j < d.len() implies d[j] != ':' by {
                assert(is_dec_digit(d[j]));
            }
            lemma_char_count_zero(d, ':');
            lemma_char_count_add(head, d, ':');
            assert(char_count(head.drop_last(), ':') == 0) by {
                lemma_char_count_zero(head.drop_last(), ':');
            }
            assert(char_count(head, ':') == 1);
            assert(char_count(s, ':') == 1);
            assert(s[2] == ':');
            lemma_first_at_unique(s, ':', 2);
            assert(s.skip(3) =~= d);
            assert(s.take(2) =~= head.take(2));
            let idp = s.take(2);
            assert(idp[0] == '$');
            assert(idp.drop_first() =~= if id == Sequence::A {
                seq!['A']
            } else {
                seq!['B']
            });
            assert(spec_extract_id(idp) == Some(
                PieceView::Sequence { id, type_id: 0u32 },
            ));
            assert(spec_parse_piece(s) == Some(p));
        },
        PieceView::SpecialToken { id, type_id } => {
            let d = spec_u32_dec(type_id as nat);
            let s = id + seq![':'] + d;
            assert(s == spec_piece_str(p));
            lemma_u32_dec_val(type_id as nat);
            lemma_u32_dec_round_trip(type_id);
            assert forall|j: int| 0 <= j < d.len() implies d[j] != ':' by {
                assert(is_dec_digit(d[j]));
            }
            lemma_char_count_zero(d, ':');
            lemma_char_count_add(id + seq![':'], d, ':');
            lemma_char_count_add(id, seq![':'], ':');
            assert(char_count(seq![':'], ':') == 1) by {
                assert(seq![':'].drop_last() =~= Seq::<char>::empty());
                assert(char_count(Seq::<char>::empty(), ':') == 0);
                assert(seq![':'].last() == ':');
            }
            assert(char_count(s, ':') == 1);
            let i = id.len() as int;
            assert(s[i] == ':');
            assert forall|j: int| 0 <= j < i implies s[j] != ':' by {
                assert(s[j] == id[j]);
                lemma_char_count_zero(id, ':');
            }
            lemma_first_at_unique(s, ':', i);
            assert(s.skip(i + 1) =~= d);
            assert(s.take(i) =~= id);
            assert(spec_extract_id(id) == Some(PieceView::SpecialToken { id, type_id: 0u32 }));
            assert(spec_parse_piece(s) == Some(p));
        },
    }
}

/// Parsing, writing back, and parsing again is the same as parsing once:
/// the canonical form of any piece string denotes the same piece.
pub proof fn lemma_piece_round_trip(s: Seq<char>)
    requires
        spec_parse_piece(s) is Some,
    ensures
        spec_parse_piece(spec_piece_str(spec_parse_piece(s)->Some_0)) == spec_parse_piece(s),
{
    lemma_parse_gives_parsed_piece(s);
    lemma_piece_str_round_trip(spec_parse_piece(s)->Some_0);
}

} // verus!
