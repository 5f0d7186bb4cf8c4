//! The canonical on-disk text formats: the newline-delimited ordered token
//! list of a greedy-longest-match vocabulary, and the merge file listing one
//! `left right` pair per line, whose order defines merge priority.  Comment
//! lines starting with `#` and empty lines carry no entries.

use vstd::prelude::*;

use crate::chars::chars_of_str;
use crate::template::{spec_split, split_char};

verus! {

/// A line with any trailing carriage return removed.
pub open spec fn strip_cr(l: Seq<char>) -> Seq<char> {
    if l.len() > 0 && l.last() == '\r' {
        l.drop_last()
    } else {
        l
    }
}

/// Whether a line carries an entry: neither empty nor a `#` comment.
pub open spec fn line_carries(l: Seq<char>) -> bool {
    strip_cr(l).len() > 0 && strip_cr(l)[0] != '#'
}

/// The lines of a text, split at every newline.
pub open spec fn spec_lines(s: Seq<char>) -> Seq<Seq<char>> {
    spec_split(s, '\n')
}

/// What one merge line denotes: exactly two space-separated non-empty
/// parts, or nothing.
pub open spec fn spec_merge_line(l: Seq<char>) -> Option<(Seq<char>, Seq<char>)> {
    let parts = spec_split(strip_cr(l), ' ');
    if parts.len() == 2 && parts[0].len() > 0 && parts[1].len() > 0 {
        Some((parts[0], parts[1]))
    } else {
        None
    }
}

/// The merge pairs of a text's first lines: every carrying line must be a
/// well-formed merge line.
pub open spec fn spec_parse_merges(lines: Seq<Seq<char>>) -> Option<Seq<(Seq<char>, Seq<char>)>>
    decreases lines.len(),
{
    if lines.len() == 0 {
        Some(Seq::empty())
    } else {
        match spec_parse_merges(lines.drop_last()) {
            None => None,
            Some(front) => {
                if !line_carries(lines.last()) {
                    Some(front)
                } else {
                    match spec_merge_line(lines.last()) {
                        None => None,
                        Some(p) => Some(front.push(p)),
                    }
                }
            },
        }
    }
}

/// The token list of a newline-delimited vocabulary: each carrying line is
/// one token, in file order.
pub open spec fn spec_parse_token_lines(lines: Seq<Seq<char>>) -> Seq<Seq<char>>
    decreases lines.len(),
{
    if lines.len() == 0 {
        Seq::empty()
    } else {
        let front = spec_parse_token_lines(lines.drop_last());
        if line_carries(lines.last()) {
            front.push(strip_cr(lines.last()))
        } else {
            front
        }
    }
}

/// Removes a trailing carriage return.
fn strip_cr_exec(l: &str) -> (r: String)
    ensures
        r@ == strip_cr(l@),
{
    let v = chars_of_str(l);
    if v.len() > 0 && v[v.len() - 1] == '\r' {
        let w = crate::chars::subvec(&v, 0, v.len() - 1);
        proof {
            assert(w@ =~= l@.drop_last());
        }
        crate::chars::string_from_chars(&w)
    } else {
        l.to_owned()
    }
}

/// Reads the merge file format: one `left right` pair per carrying line, in
/// order.  A carrying line that is not exactly two non-empty parts fails.
pub fn parse_merges(text: &str) -> (r: Result<Vec<(String, String)>, String>)
    ensures
        r is Ok <==> spec_parse_merges(spec_lines(text@)) is Some,
        r is Ok ==> r->Ok_0.deep_view() == spec_parse_merges(spec_lines(text@))->Some_0,
        r is Err ==> r->Err_0@ == "invalid merge entry in merges text"@,
{
    let chars = chars_of_str(text);
    let lines = split_char(&chars, '\n');
    let ghost lv = spec_lines(text@);
    let mut out: Vec<(String, String)> = Vec::new();
    let mut i: usize = 0;
    proof {
        assert(lv.take(0) =~= Seq::<Seq<char>>::empty());
        assert(out.deep_view() =~= Seq::<(Seq<char>, Seq<char>)>::empty());
    }
    while i < lines.len()
        invariant
            i <= lines@.len(),
            lv == spec_lines(text@),
            lines.deep_view() == lv,
            lv.len() == lines@.len(),
            spec_parse_merges(lv.take(i as int)) is Some,
            out.deep_view() == spec_parse_merges(lv.take(i as int))->Some_0,
        decreases lines@.len() - i,
    {
        let stripped = strip_cr_exec(lines[i].as_str());
        proof {
            assert(lines@[i as int]@ == lv[i as int]);
            assert(lv.take(i + 1).drop_last() =~= lv.take(i as int));
            assert(lv.take(i + 1).last() == lv[i as int]);
        }
        let sv = chars_of_str(stripped.as_str());
        if sv.len() > 0 && sv[0] != '#' {
            let parts = split_char(&sv, ' ');
            let ghost ps = spec_split(strip_cr(lv[i as int]), ' ');
            proof {
                assert(line_carries(lv[i as int]));
                assert(parts.deep_view() == ps);
            }
            if parts.len() == 2 && !parts[0].as_str().is_empty() && !parts[1].as_str().is_empty() {
                let ghost pre = out.deep_view();
                let a = parts[0].clone();
                let b = parts[1].clone();
                proof {
                    assert(parts.deep_view()[0] == parts@[0]@);
                    assert(parts.deep_view()[1] == parts@[1]@);
                    assert(spec_merge_line(lv[i as int]) == Some((ps[0], ps[1])));
                }
                out.push((a, b));
                proof {
                    assert(out.deep_view() =~~= pre.push((ps[0], ps[1])));
                }
            } else {
                proof {
                    if parts@.len() == 2 {
                        assert(parts@[0]@ == ps[0]);
                        assert(parts@[1]@ == ps[1]);
                    }
                    assert(spec_merge_line(lv[i as int]) is None);
                    assert(spec_parse_merges(lv.take(i + 1)) is None);
                    lemma_merges_none_prefix(lv, i + 1);
                    assert(spec_parse_merges(lv) is None);
                }
                return Err(("invalid merge entry in merges text").to_owned());
            }
        } else {
            proof {
                assert(!line_carries(lv[i as int]));
            }
        }
        i = i + 1;
    }
    proof {
        assert(lv.take(lv.len() as int) =~= lv);
    }
    Ok(out)
}

/// A failing prefix fails the whole text.
pub proof fn lemma_merges_none_prefix(lines: Seq<Seq<char>>, i: int)
    requires
        0 <= i <= lines.len(),
        spec_parse_merges(lines.take(i)) is None,
    ensures
        spec_parse_merges(lines) is None,
    decreases lines.len() - i,
{
    if i < lines.len() {
        assert(lines.take(i + 1).drop_last() =~= lines.take(i));
        lemma_merges_none_prefix(lines, i + 1);
    } else {
        assert(lines.take(i) =~= lines);
    }
}

/// Reads the newline-delimited vocabulary format: each carrying line is one
/// token, its id the count of carrying lines before it.  A file with more
/// tokens than ids fit fails.
pub fn parse_token_lines(text: &str) -> (r: Result<Vec<(String, u32)>, String>)
    ensures
        r is Ok <==> spec_parse_token_lines(spec_lines(text@)).len() <= u32::MAX as nat + 1,
        r is Ok ==> r->Ok_0.deep_view() == Seq::new(
            spec_parse_token_lines(spec_lines(text@)).len(),
            |k: int| (spec_parse_token_lines(spec_lines(text@))[k], k as u32),
        ),
        r is Err ==> r->Err_0@ == "too many tokens in vocabulary text"@,
{
    let chars = chars_of_str(text);
    let lines = split_char(&chars, '\n');
    let ghost lv = spec_lines(text@);
    let ghost toks = spec_parse_token_lines(lv);
    let mut out: Vec<(String, u32)> = Vec::new();
    let mut i: usize = 0;
    proof {
        assert(lv.take(0) =~= Seq::<Seq<char>>::empty());
    }
    while i < lines.len()
        invariant
            i <= lines@.len(),
            lv == spec_lines(text@),
            lines.deep_view() == lv,
            lv.len() == lines@.len(),
            toks == spec_parse_token_lines(lv),
            out@.len() == spec_parse_token_lines(lv.take(i as int)).len(),
            out@.len() <= 0x1_0000_0000int,
            forall|k: int| 0 <= k < out@.len() ==> (#[trigger] out@[k]).0@
                == spec_parse_token_lines(lv.take(i as int))[k] && out@[k].1 == k as u32,
        decreases lines@.len() - i,
    {
        let stripped = strip_cr_exec(lines[i].as_str());
        proof {
            assert(lines@[i as int]@ == lv[i as int]);
            assert(lv.take(i + 1).drop_last() =~= lv.take(i as int));
            assert(lv.take(i + 1).last() == lv[i as int]);
        }
        let sv = chars_of_str(stripped.as_str());
        if sv.len() > 0 && sv[0] != '#' {
            proof {
                assert(line_carries(lv[i as int]));
            }
            if out.len() as u64 > 0xFFFF_FFFFu64 {
                proof {
                    lemma_token_lines_mono(lv, i + 1);
                }
                return Err(("too many tokens in vocabulary text").to_owned());
            }
            let id = out.len() as u32;
            let ghost pre = out@;
            out.push((stripped, id));
            proof {
                assert(spec_parse_token_lines(lv.take(i + 1)) =~= spec_parse_token_lines(
                    lv.take(i as int),
                ).push(strip_cr(lv[i as int])));
                assert forall|k: int| 0 <= k < out@.len() implies (#[trigger] out@[k]).0@
                    == spec_parse_token_lines(lv.take(i + 1))[k] && out@[k].1 == k as u32 by {
                    if k < out@.len() - 1 {
                        assert(out@[k] == pre[k]);
                    }
                }
            }
        } else {
            proof {
                assert(!line_carries(lv[i as int]));
            }
        }
        i = i + 1;
    }
    proof {
        assert(lv.take(lv.len() as int) =~= lv);
    }
    Ok(out)
}

/// Later prefixes never carry fewer tokens.
pub proof fn lemma_token_lines_mono(lines: Seq<Seq<char>>, i: int)
    requires
        0 <= i <= lines.len(),
    ensures
        spec_parse_token_lines(lines.take(i)).len() <= spec_parse_token_lines(lines).len(),
    decreases lines.len() - i,
{
    if i < lines.len() {
        assert(lines.take(i + 1).drop_last() =~= lines.take(i));
        lemma_token_lines_mono(lines, i + 1);
    } else {
        assert(lines.take(i) =~= lines);
    }
}

} // verus!
