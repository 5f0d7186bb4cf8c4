//! A `Template` is an ordered list of pieces.  One parses from a
//! whitespace-split string, or from an explicit list of piece strings.

use vstd::prelude::*;

use crate::chars::{chars_of_str, string_from_chars, subvec};
use crate::pieces::{
    char_count, lemma_char_count_zero, lemma_first_at_exists, lemma_first_at_unique, spec_first_at,
    spec_parse_piece, spec_piece_err, spec_piece_str, Piece, PieceView,
};

verus! {

/// The pieces of a string split at every occurrence of `c`; adjacent
/// occurrences yield empty parts, as `str::split` does.
pub open spec fn spec_split(s: Seq<char>, c: char) -> Seq<Seq<char>>
    decreases s.len(),
    via spec_split_dec
{
    if char_count(s, c) == 0 {
        seq![s]
    } else {
        let i = spec_first_at(s, c);
        seq![s.take(i)] + spec_split(s.skip(i + 1), c)
    }
}

#[via_fn]
proof fn spec_split_dec(s: Seq<char>, c: char) {
    if char_count(s, c) != 0 {
        lemma_first_at_exists(s, c);
    }
}

/// What parsing a list of piece strings yields: the pieces in order, or the
/// error of the first part that fails.
pub open spec fn spec_parse_pieces(parts: Seq<Seq<char>>) -> Result<Seq<PieceView>, Seq<char>>
    decreases parts.len(),
{
    if parts.len() == 0 {
        Ok(Seq::empty())
    } else {
        match spec_parse_piece(parts.first()) {
            None => Err(spec_piece_err(parts.first())),
            Some(p) => match spec_parse_pieces(parts.drop_first()) {
                Err(e) => Err(e),
                Ok(rest) => Ok(seq![p] + rest),
            },
        }
    }
}

/// What parsing a whole template string yields.
pub open spec fn spec_parse_template(s: Seq<char>) -> Result<Seq<PieceView>, Seq<char>> {
    spec_parse_pieces(spec_split(s, ' '))
}

/// The piece views of a prefix of parts, each of which must parse.
pub open spec fn parsed_prefix(parts: Seq<Seq<char>>, i: int) -> Seq<PieceView> {
    parts.take(i).map_values(|q: Seq<char>| spec_parse_piece(q)->Some_0)
}

/// Parsing a part list works part by part: once a prefix is known good, the
/// whole result is the prefix followed by whatever the rest yields.
pub proof fn lemma_parse_pieces_prefix(parts: Seq<Seq<char>>, i: int)
    requires
        0 <= i <= parts.len(),
        forall|k: int| 0 <= k < i ==> spec_parse_piece(#[trigger] parts[k]) is Some,
    ensures
        spec_parse_pieces(parts.skip(i)) is Ok ==> spec_parse_pieces(parts) == Ok::<
            Seq<PieceView>,
            Seq<char>,
        >(parsed_prefix(parts, i) + spec_parse_pieces(parts.skip(i))->Ok_0),
        spec_parse_pieces(parts.skip(i)) is Err ==> spec_parse_pieces(parts) == spec_parse_pieces(
            parts.skip(i),
        ),
    decreases i,
{
    if i == 0 {
        assert(parts.skip(0) =~= parts);
        if spec_parse_pieces(parts) is Ok {
            assert(parsed_prefix(parts, 0) + spec_parse_pieces(parts)->Ok_0 =~= spec_parse_pieces(
                parts,
            )->Ok_0);
        }
    } else {
        lemma_parse_pieces_prefix(parts, i - 1);
        let rest = parts.skip(i - 1);
        assert(rest.first() == parts[i - 1]);
        assert(rest.drop_first() =~= parts.skip(i));
        if spec_parse_pieces(parts.skip(i)) is Ok {
            assert(spec_parse_pieces(rest) == Ok::<Seq<PieceView>, Seq<char>>(
                seq![spec_parse_piece(parts[i - 1])->Some_0] + spec_parse_pieces(
                    parts.skip(i),
                )->Ok_0,
            ));
            assert(parsed_prefix(parts, i - 1) + spec_parse_pieces(rest)->Ok_0 =~= parsed_prefix(
                parts,
                i,
            ) + spec_parse_pieces(parts.skip(i))->Ok_0);
        } else {
            assert(spec_parse_pieces(rest) == spec_parse_pieces(parts.skip(i)));
        }
    }
}


/// Splits characters at every occurrence of the separator, keeping empty
/// parts, as `str::split` does.
#[verifier::rlimit(100)]
pub(crate) fn split_char(v: &Vec<char>, sep: char) -> (parts: Vec<String>)
    ensures
        parts.deep_view() == spec_split(v@, sep),
{
    let mut parts: Vec<String> = Vec::new();
    let mut pos: usize = 0;
    let mut scan: usize = 0;
    proof {
        assert(v@.skip(0) =~= v@);
        assert(parts@.map_values(|q: String| q@) =~= Seq::<Seq<char>>::empty());
        assert(Seq::<Seq<char>>::empty() + spec_split(v@, sep) =~= spec_split(v@, sep));
    }
    // Walk the characters, cutting a part at each separator.
    while scan <= v.len()
        invariant_except_break
            pos <= scan <= v@.len(),
            spec_split(v@, sep) == parts@.map_values(|q: String| q@) + spec_split(
                v@.skip(pos as int),
                sep,
            ),
            forall|j: int| pos <= j < scan ==> v@[j] != sep,
        ensures
            spec_split(v@, sep) == parts@.map_values(|q: String| q@),
        decreases v@.len() + 1 - scan,
    {
        if scan == v.len() {
            let part = subvec(&v, pos, v.len());
            proof {
                assert(part@ =~= v@.skip(pos as int));
                assert forall|j: int| 0 <= j < v@.skip(pos as int).len() implies v@.skip(
                    pos as int,
                )[j] != sep by {
                    assert(v@.skip(pos as int)[j] == v@[pos + j]);
                }
                lemma_char_count_zero(v@.skip(pos as int), sep);
                assert(spec_split(v@.skip(pos as int), sep) == seq![v@.skip(pos as int)]);
            }
            let ghost old_parts = parts@;
            parts.push(string_from_chars(&part));
            proof {
                assert(parts@.map_values(|q: String| q@) =~= old_parts.map_values(
                    |q: String| q@,
                ).push(v@.skip(pos as int)));
                assert(spec_split(v@, sep) =~= parts@.map_values(|q: String| q@));
            }
            break ;
        }
        if v[scan] == sep {
            let part = subvec(&v, pos, scan);
            proof {
                let tail = v@.skip(pos as int);
                let k = scan - pos;
                assert(tail[k] == sep);
                assert forall|j: int| 0 <= j < k implies tail[j] != sep by {
                    assert(tail[j] == v@[pos + j]);
                }
                assert(char_count(tail, sep) >= 1) by {
                    lemma_char_count_zero(tail, sep);
                }
                lemma_first_at_unique(tail, sep, k);
                assert(tail.take(k) =~= v@.subrange(pos as int, scan as int));
                assert(tail.skip(k + 1) =~= v@.skip(scan + 1));
                assert(spec_split(tail, sep) == seq![v@.subrange(pos as int, scan as int)]
                    + spec_split(v@.skip(scan + 1), sep));
                assert(part@ =~= v@.subrange(pos as int, scan as int));
            }
            let ghost old_parts = parts@;
            let ghost old_pos = pos as int;
            parts.push(string_from_chars(&part));
            pos = scan + 1;
            proof {
                assert(parts@.map_values(|q: String| q@) =~= old_parts.map_values(
                    |q: String| q@,
                ).push(v@.subrange(old_pos, scan as int)));
                assert(spec_split(v@, sep) =~= parts@.map_values(|q: String| q@) + spec_split(
                    v@.skip(pos as int),
                    sep,
                ));
            }
        }
        scan = scan + 1;
    }
    proof {
        assert(parts.deep_view() =~~= parts@.map_values(|q: String| q@));
    }
    parts
}

/// An ordered list of pieces, applied in order by the post-processor.
#[derive(Debug, PartialEq, Eq)]
pub struct Template(pub(crate) Vec<Piece>);

impl View for Template {
    type V = Seq<PieceView>;

    closed spec fn view(&self) -> Seq<PieceView> {
        self.0@.map_values(|p: Piece| p@)
    }
}

impl Clone for Template {
    fn clone(&self) -> (r: Self)
        ensures
            r@ == self@,
    {
        let mut v: Vec<Piece> = Vec::new();
        let mut i: usize = 0;
        while i < self.0.len()
            invariant
                i <= self.0@.len(),
                v@.len() == i,
                forall|k: int| 0 <= k < i ==> #[trigger] v@[k]@ == self.0@[k]@,
            decreases self.0@.len() - i,
        {
            v.push(self.0[i].clone());
            i = i + 1;
        }
        let r = Template(v);
        proof {
            assert(r@ =~= self@);
        }
        r
    }
}

impl Template {
    /// Wraps an explicit piece list.
    pub fn from_pieces(v: Vec<Piece>) -> (r: Template)
        ensures
            r@ == v@.map_values(|p: Piece| p@),
    {
        Template(v)
    }

    /// How many pieces the template holds.
    pub fn len(&self) -> (r: usize)
        ensures
            r == self@.len(),
    {
        self.0.len()
    }

    /// The piece at a position.
    pub fn piece(&self, i: usize) -> (r: &Piece)
        requires
            i < self@.len(),
        ensures
            r@ == self@[i as int],
    {
        &self.0[i]
    }

    /// Splits a string at every space and parses each part as a piece.  The
    /// error of the first unparseable part is returned.
    #[verifier::rlimit(100)]
    pub fn parse(s: &str) -> (r: Result<Template, String>)
        ensures
            r is Ok <==> spec_parse_template(s@) is Ok,
            r is Ok ==> r->Ok_0@ == spec_parse_template(s@)->Ok_0,
            r is Err ==> r->Err_0@ == spec_parse_template(s@)->Err_0,
    {
        let v = chars_of_str(s);
        let parts: Vec<String> = split_char(&v, ' ');
        proof {
            assert(parts@.map_values(|q: String| q@) == spec_split(s@, ' '));
        }
        // Parse each part in order.
        let ghost part_views = parts@.map_values(|q: String| q@);
        let mut out: Vec<Piece> = Vec::new();
        let mut i: usize = 0;
        while i < parts.len()
            invariant
                i <= parts@.len(),
                part_views == parts@.map_values(|q: String| q@),
                part_views == spec_split(s@, ' '),
                part_views.len() == parts@.len(),
                out@.len() == i,
                forall|k: int| 0 <= k < i ==> spec_parse_piece(#[trigger] part_views[k]) is Some,
                forall|k: int| 0 <= k < i ==> #[trigger] out@[k]@ == spec_parse_piece(
                    part_views[k],
                )->Some_0,
            decreases parts@.len() - i,
        {
            match Piece::parse(parts[i].as_str()) {
                Ok(p) => {
                    out.push(p);
                },
                Err(e) => {
                    proof {
                        lemma_parse_pieces_prefix(part_views, i as int);
                        assert(part_views.skip(i as int).first() == part_views[i as int]);
                        assert(spec_parse_pieces(part_views.skip(i as int)) is Err);
                    }
                    return Err(e);
                },
            }
            i = i + 1;
        }
        proof {
            lemma_parse_pieces_prefix(part_views, parts@.len() as int);
            assert(part_views.skip(part_views.len() as int) =~= Seq::<Seq<char>>::empty());
            assert(spec_parse_pieces(part_views) == Ok::<Seq<PieceView>, Seq<char>>(parsed_prefix(
                part_views,
                part_views.len() as int,
            )));
            assert(part_views.take(part_views.len() as int) =~= part_views);
        }
        let r = Template(out);
        proof {
            assert(r@ =~= parsed_prefix(part_views, part_views.len() as int));
        }
        Ok(r)
    }

    /// Parses an explicit list of piece strings, in order.  The error of the
    /// first unparseable part is returned.
    pub fn parse_list(parts: &Vec<String>) -> (r: Result<Template, String>)
        ensures
            r is Ok <==> spec_parse_pieces(parts.deep_view()) is Ok,
            r is Ok ==> r->Ok_0@ == spec_parse_pieces(parts.deep_view())->Ok_0,
            r is Err ==> r->Err_0@ == spec_parse_pieces(parts.deep_view())->Err_0,
    {
        let ghost part_views = parts.deep_view();
        let mut out: Vec<Piece> = Vec::new();
        let mut i: usize = 0;
        while i < parts.len()
            invariant
                i <= parts@.len(),
                part_views == parts.deep_view(),
                part_views.len() == parts@.len(),
                out@.len() == i,
                forall|k: int| 0 <= k < i ==> spec_parse_piece(#[trigger] part_views[k]) is Some,
                forall|k: int| 0 <= k < i ==> #[trigger] out@[k]@ == spec_parse_piece(
                    part_views[k],
                )->Some_0,
            decreases parts@.len() - i,
        {
            proof {
                assert(part_views[i as int] == parts@[i as int]@);
            }
            match Piece::parse(parts[i].as_str()) {
                Ok(p) => {
                    out.push(p);
                },
                Err(e) => {
                    proof {
                        lemma_parse_pieces_prefix(part_views, i as int);
                        assert(part_views.skip(i as int).first() == part_views[i as int]);
                        assert(spec_parse_pieces(part_views.skip(i as int)) is Err);
                    }
                    return Err(e);
                },
            }
            i = i + 1;
        }
        proof {
            lemma_parse_pieces_prefix(part_views, parts@.len() as int);
            assert(part_views.skip(part_views.len() as int) =~= Seq::<Seq<char>>::empty());
            assert(part_views.take(part_views.len() as int) =~= part_views);
        }
        let r = Template(out);
        proof {
            assert(r@ =~= parsed_prefix(part_views, part_views.len() as int));
        }
        Ok(r)
    }

    /// Writes the template as its pieces' canonical forms joined by spaces.
    pub fn to_template_string(&self) -> (r: String)
        ensures
            r@ == spec_template_str(self@),
    {
        let mut out = String::new();
        let mut i: usize = 0;
        while i < self.0.len()
            invariant
                i <= self.0@.len(),
                self@.len() == self.0@.len(),
                out@ == spec_template_str(self@.take(i as int)),
            decreases self.0@.len() - i,
        {
            if i > 0 {
                out.append(" ");
            }
            let ps = self.0[i].to_piece_string();
            out.append(ps.as_str());
            proof {
                assert(self@.take(i + 1).drop_last() =~= self@.take(i as int));
                assert(self@.take(i + 1).last() == self@[i as int]);
                assert(self.0@[i as int]@ == self@[i as int]);
                reveal_strlit(" ");
                if i == 0 {
                    assert(out@ =~= spec_template_str(self@.take(i + 1)));
                } else {
                    assert(out@ =~= spec_template_str(self@.take(i + 1)));
                }
            }
            i = i + 1;
        }
        proof {
            assert(self@.take(self@.len() as int) =~= self@);
        }
        out
    }
}

/// The canonical writing of a template: piece forms joined by single spaces.
pub open spec fn spec_template_str(t: Seq<PieceView>) -> Seq<char>
    decreases t.len(),
{
    if t.len() == 0 {
        Seq::empty()
    } else if t.len() == 1 {
        spec_piece_str(t[0])
    } else {
        spec_template_str(t.drop_last()) + seq![' '] + spec_piece_str(t.last())
    }
}

} // verus!
