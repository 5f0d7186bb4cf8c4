//! Applying a template to one or two input encodings: each piece emits a
//! fragment — a re-typed copy of an input sequence, or a synthesized
//! special-token fragment — and the fragments are concatenated in template
//! order.  Overflow carried by the inputs is expanded combinatorially: every
//! pairing of a primary or overflow of sequence A with a primary or overflow
//! of sequence B, except the primary-primary pairing (the main result), is
//! templated and attached as overflow of the main result.

use vstd::prelude::*;

use crate::encoding::{
    append_fragment, enc_depth, enc_wf, enc_wf_rec, lemma_depth_elem, seq_fragment,
    spec_concat_enc, spec_empty_encoding, spec_seq_fragment, spec_special_fragment,
    special_fragment, Encoding, EncodingView,
};
use crate::pieces::{Piece, PieceView, Sequence};
use crate::processing::{has_seq, TemplateProcessing};
use crate::special::{SpecialTokenView};
use crate::template::Template;

verus! {

/// The fragment one piece emits, given the two input encodings (the second
/// meaningful only when present) and the declared special tokens.  A
/// special-token piece emits nothing when special tokens are not being
/// added.  The absent-input and undeclared-token arms keep the function
/// total; the public entry points exclude both by precondition, a lone
/// encoding never meeting a pair-sequence reference and every reference
/// being declared.
pub open spec fn spec_fragment(
    p: PieceView,
    a: EncodingView,
    stamp_a: bool,
    b: EncodingView,
    stamp_b: bool,
    has_b: bool,
    add: bool,
    st: Map<Seq<char>, SpecialTokenView>,
) -> EncodingView {
    match p {
        PieceView::Sequence { id, type_id } => if id == Sequence::A {
            spec_seq_fragment(a, type_id, 0, stamp_a)
        } else if has_b {
            spec_seq_fragment(b, type_id, 1, stamp_b)
        } else {
            spec_seq_fragment(spec_empty_encoding(), type_id, 1, true)
        },
        PieceView::SpecialToken { id, type_id } => if add && st.contains_key(id) {
            spec_special_fragment(st[id], type_id)
        } else {
            spec_empty_encoding()
        },
    }
}

/// The main templated encoding: the fragments of the template's pieces, in
/// order, concatenated.  Overflow of the inputs is not consulted here.
pub open spec fn spec_apply_once(
    t: Seq<PieceView>,
    a: EncodingView,
    stamp_a: bool,
    b: EncodingView,
    stamp_b: bool,
    has_b: bool,
    add: bool,
    st: Map<Seq<char>, SpecialTokenView>,
) -> EncodingView
    decreases t.len(),
{
    if t.len() == 0 {
        spec_empty_encoding()
    } else {
        spec_concat_enc(
            spec_apply_once(t.drop_last(), a, stamp_a, b, stamp_b, has_b, add, st),
            spec_fragment(t.last(), a, stamp_a, b, stamp_b, has_b, add, st),
        )
    }
}

/// The cross of one overflow entry of sequence A with every overflow entry
/// of sequence B, each pairing fully templated.
pub open spec fn expand_inner(
    t: Seq<PieceView>,
    ao: EncodingView,
    b: EncodingView,
    has_b: bool,
    add: bool,
    st: Map<Seq<char>, SpecialTokenView>,
) -> Seq<EncodingView>
    decreases ao, b, 0int,
{
    if has_b {
        Seq::new(
            b.overflowing.len(),
            |j: int|
                if 0 <= j < b.overflowing.len() {
                    spec_expand(t, ao, false, b.overflowing[j], false, true, add, st)
                } else {
                    arbitrary()
                },
        )
    } else {
        Seq::empty()
    }
}

/// For each overflow entry of sequence A: its pairing with sequence B's
/// primary, followed by its cross with each of B's overflow entries.
pub open spec fn expand_groups(
    t: Seq<PieceView>,
    a: EncodingView,
    b: EncodingView,
    stamp_b: bool,
    has_b: bool,
    add: bool,
    st: Map<Seq<char>, SpecialTokenView>,
) -> Seq<Seq<EncodingView>>
    decreases a, b, 0int,
{
    Seq::new(
        a.overflowing.len(),
        |i: int|
            if 0 <= i < a.overflowing.len() {
                seq![spec_expand(t, a.overflowing[i], false, b, stamp_b, has_b, add, st)]
                    + expand_inner(t, a.overflowing[i], b, has_b, add, st)
            } else {
                arbitrary()
            },
    )
}

/// The pairings of sequence A's primary with each overflow entry of
/// sequence B, fully templated.
pub open spec fn expand_b_tail(
    t: Seq<PieceView>,
    a: EncodingView,
    stamp_a: bool,
    b: EncodingView,
    has_b: bool,
    add: bool,
    st: Map<Seq<char>, SpecialTokenView>,
) -> Seq<EncodingView>
    decreases a, b, 0int,
{
    if has_b {
        Seq::new(
            b.overflowing.len(),
            |j: int|
                if 0 <= j < b.overflowing.len() {
                    spec_expand(t, a, stamp_a, b.overflowing[j], false, true, add, st)
                } else {
                    arbitrary()
                },
        )
    } else {
        Seq::empty()
    }
}

/// The fully templated result: the main encoding of the primaries, carrying
/// as overflow every other primary-or-overflow pairing — for each A overflow
/// entry its pairing with B's primary and then with each B overflow entry,
/// followed by A's primary paired with each B overflow entry — each pairing
/// itself templated the same way.
pub open spec fn spec_expand(
    t: Seq<PieceView>,
    a: EncodingView,
    stamp_a: bool,
    b: EncodingView,
    stamp_b: bool,
    has_b: bool,
    add: bool,
    st: Map<Seq<char>, SpecialTokenView>,
) -> EncodingView
    decreases a, b, 1int,
{
    let main = spec_apply_once(t, a, stamp_a, b, stamp_b, has_b, add, st);
    EncodingView {
        overflowing: expand_groups(t, a, b, stamp_b, has_b, add, st).flatten() + expand_b_tail(
            t,
            a,
            stamp_a,
            b,
            has_b,
            add,
            st,
        ),
        ..main
    }
}

/// The encoding a maybe-absent input denotes: the empty encoding when absent.
pub open spec fn opt_enc_view(b: Option<&Encoding>) -> EncodingView {
    match b {
        Some(e) => e@,
        None => spec_empty_encoding(),
    }
}

impl TemplateProcessing {
    /// Applies a template to the primary arrays of one or two encodings:
    /// each piece's fragment, concatenated in template order.  Overflow of
    /// the inputs plays no part here.
    pub(crate) fn apply_once(
        &self,
        template: &Template,
        a: &Encoding,
        stamp_a: bool,
        b: Option<&Encoding>,
        stamp_b: bool,
        add_special_tokens: bool,
    ) -> (r: Encoding)
        requires
            self.wf(),
            enc_wf(a@),
            b is Some ==> enc_wf(b->Some_0@),
        ensures
            r@ == spec_apply_once(
                template@,
                a@,
                stamp_a,
                opt_enc_view(b),
                stamp_b,
                b is Some,
                add_special_tokens,
                self.tokens_map(),
            ),
            enc_wf(r@),
            r@.overflowing == Seq::<EncodingView>::empty(),
    {
        let ghost bview = opt_enc_view(b);
        let ghost st = self.tokens_map();
        let empty_b = Encoding::empty();
        let mut acc = Encoding::empty();
        let mut i: usize = 0;
        let n = template.len();
        proof {
            assert(template@.take(0) =~= Seq::<PieceView>::empty());
        }
        while i < n
            invariant
                i <= n,
                n == template@.len(),
                self.wf(),
                enc_wf(a@),
                b is Some ==> enc_wf(b->Some_0@),
                bview == opt_enc_view(b),
                st == self.tokens_map(),
                empty_b@ == spec_empty_encoding(),
                enc_wf(acc@),
                acc@.overflowing == Seq::<EncodingView>::empty(),
                acc@ == spec_apply_once(
                    template@.take(i as int),
                    a@,
                    stamp_a,
                    bview,
                    stamp_b,
                    b is Some,
                    add_special_tokens,
                    st,
                ),
            decreases n - i,
        {
            let frag: Encoding = match template.piece(i) {
                Piece::Sequence { id, type_id } => {
                    match id {
                        Sequence::A => seq_fragment(a, *type_id, 0, stamp_a),
                        Sequence::B => {
                            match b {
                                Some(bv) => seq_fragment(bv, *type_id, 1, stamp_b),
                                None => seq_fragment(&empty_b, *type_id, 1, true),
                            }
                        },
                    }
                },
                Piece::SpecialToken { id, type_id } => {
                    if add_special_tokens {
                        match self.get_special_tokens().get(id.as_str()) {
                            Some(tok) => special_fragment(tok, *type_id),
                            None => Encoding::empty(),
                        }
                    } else {
                        Encoding::empty()
                    }
                },
            };
            proof {
                assert(frag@ == spec_fragment(
                    template@[i as int],
                    a@,
                    stamp_a,
                    bview,
                    stamp_b,
                    b is Some,
                    add_special_tokens,
                    st,
                ));
                assert(enc_wf(frag@));
            }
            append_fragment(&mut acc, frag);
            i = i + 1;
            proof {
                assert(template@.take(i as int).drop_last() =~= template@.take(i - 1));
                assert(template@.take(i as int).last() == template@[i - 1]);
            }
        }
        proof {
            assert(template@.take(n as int) =~= template@);
        }
        acc
    }

    /// Applies a template to one or two encodings, expanding the overflow
    /// they carry: the result is the templated primaries, with every other
    /// primary-or-overflow pairing templated and attached as its overflow.
    pub(crate) fn expand(
        &self,
        template: &Template,
        a: &Encoding,
        stamp_a: bool,
        b: Option<&Encoding>,
        stamp_b: bool,
        add_special_tokens: bool,
    ) -> (r: Encoding)
        requires
            self.wf(),
            enc_wf_rec(a@),
            b is Some ==> enc_wf_rec(b->Some_0@),
        ensures
            r@ == spec_expand(
                template@,
                a@,
                stamp_a,
                opt_enc_view(b),
                stamp_b,
                b is Some,
                add_special_tokens,
                self.tokens_map(),
            ),
            enc_wf(r@),
        decreases enc_depth(a@) + enc_depth(opt_enc_view(b)),
    {
        let ghost bview = opt_enc_view(b);
        let ghost st = self.tokens_map();
        let ghost tv = template@;
        let ghost groups = expand_groups(tv, a@, bview, stamp_b, b is Some, add_special_tokens, st);
        let ghost b_tail = expand_b_tail(tv, a@, stamp_a, bview, b is Some, add_special_tokens, st);
        let mut main = self.apply_once(template, a, stamp_a, b, stamp_b, add_special_tokens);
        let mut over: Vec<Encoding> = Vec::new();
        let n_a = a.get_overflowing().len();
        let mut i: usize = 0;
        proof {
            assert(groups.take(0).flatten() =~= Seq::<EncodingView>::empty());
            assert(over.deep_view() =~= Seq::<EncodingView>::empty());
            assert(groups.len() == n_a);
        }
        while i < n_a
            invariant
                i <= n_a,
                self.wf(),
                enc_wf_rec(a@),
                b is Some ==> enc_wf_rec(b->Some_0@),
                n_a == a@.overflowing.len(),
                bview == opt_enc_view(b),
                st == self.tokens_map(),
                tv == template@,
                groups == expand_groups(tv, a@, bview, stamp_b, b is Some, add_special_tokens, st),
                groups.len() == n_a,
                over.deep_view() == groups.take(i as int).flatten(),
            decreases n_a - i,
        {
            let ghost pre_group = over.deep_view();
            let ao: &Encoding = &a.get_overflowing()[i];
            proof {
                assert(ao@ == a@.overflowing[i as int]);
                assert(enc_wf_rec(a@.overflowing[i as int]));
                lemma_depth_elem(a@, i as int);
            }
            let e1 = self.expand(template, ao, false, b, stamp_b, add_special_tokens);
            over.push(e1);
            let ghost inner = expand_inner(
                tv,
                a@.overflowing[i as int],
                bview,
                b is Some,
                add_special_tokens,
                st,
            );
            proof {
                assert(over.deep_view() =~= pre_group + seq![
                    spec_expand(
                        tv,
                        a@.overflowing[i as int],
                        false,
                        bview,
                        stamp_b,
                        b is Some,
                        add_special_tokens,
                        st,
                    ),
                ] + inner.take(0));
            }
            match b {
                Some(bv) => {
                    let n_b = bv.get_overflowing().len();
                    let mut j: usize = 0;
                    proof {
                        assert(inner.len() == n_b);
                    }
                    while j < n_b
                        invariant
                            j <= n_b,
                            self.wf(),
                            enc_wf_rec(a@),
                            enc_wf_rec(bv@),
                            i < n_a,
                            n_a == a@.overflowing.len(),
                            n_b == bv@.overflowing.len(),
                            bview == bv@,
                            opt_enc_view(b) == bv@,
                            st == self.tokens_map(),
                            tv == template@,
                            inner == expand_inner(
                                tv,
                                a@.overflowing[i as int],
                                bview,
                                true,
                                add_special_tokens,
                                st,
                            ),
                            inner.len() == n_b,
                            over.deep_view() == pre_group + seq![
                                spec_expand(
                                    tv,
                                    a@.overflowing[i as int],
                                    false,
                                    bview,
                                    stamp_b,
                                    true,
                                    add_special_tokens,
                                    st,
                                ),
                            ] + inner.take(j as int),
                        decreases n_b - j,
                    {
                        let ghost pre_inner = over.deep_view();
                        let ao2: &Encoding = &a.get_overflowing()[i];
                        let bo: &Encoding = &bv.get_overflowing()[j];
                        proof {
                            assert(ao2@ == a@.overflowing[i as int]);
                            assert(bo@ == bv@.overflowing[j as int]);
                            assert(enc_wf_rec(a@.overflowing[i as int]));
                            assert(enc_wf_rec(bv@.overflowing[j as int]));
                            lemma_depth_elem(a@, i as int);
                            lemma_depth_elem(bv@, j as int);
                        }
                        let e2 = self.expand(template, ao2, false, Some(bo), false, add_special_tokens);
                        over.push(e2);
                        j = j + 1;
                        proof {
                            assert(inner.take(j as int).drop_last() =~= inner.take(j - 1));
                            assert(inner[j - 1] == spec_expand(
                                tv,
                                a@.overflowing[i as int],
                                false,
                                bview.overflowing[j - 1],
                                false,
                                true,
                                add_special_tokens,
                                st,
                            ));
                            assert(over.deep_view() =~= pre_inner.push(inner[j - 1]));
                            assert(pre_inner.push(inner[j - 1]) =~= pre_group + seq![
                                spec_expand(
                                    tv,
                                    a@.overflowing[i as int],
                                    false,
                                    bview,
                                    stamp_b,
                                    true,
                                    add_special_tokens,
                                    st,
                                ),
                            ] + inner.take(j as int));
                        }
                    }
                },
                None => {},
            }
            i = i + 1;
            proof {
                if b is Some {
                    assert(inner.take(inner.len() as int) =~= inner);
                } else {
                    assert(inner =~= Seq::<EncodingView>::empty());
                    assert(inner.take(0) =~= inner);
                }
                assert(groups[i - 1] == seq![
                    spec_expand(
                        tv,
                        a@.overflowing[i - 1],
                        false,
                        bview,
                        stamp_b,
                        b is Some,
                        add_special_tokens,
                        st,
                    ),
                ] + inner);
                assert(over.deep_view() =~= pre_group + groups[i - 1]);
                assert(groups.take(i as int) =~= groups.take(i - 1).push(groups[i - 1]));
                groups.take(i - 1).lemma_flatten_push(groups[i - 1]);
                assert(over.deep_view() =~= groups.take(i as int).flatten());
            }
        }
        proof {
            assert(groups.take(n_a as int) =~= groups);
        }
        match b {
            Some(bv) => {
                let n_b = bv.get_overflowing().len();
                let mut j: usize = 0;
                proof {
                    assert(b_tail.len() == n_b);
                }
                while j < n_b
                    invariant
                        j <= n_b,
                        self.wf(),
                        enc_wf_rec(a@),
                        enc_wf_rec(bv@),
                        n_b == bv@.overflowing.len(),
                        bview == bv@,
                        opt_enc_view(b) == bv@,
                        st == self.tokens_map(),
                        tv == template@,
                        groups == expand_groups(tv, a@, bview, stamp_b, true, add_special_tokens, st),
                        b_tail == expand_b_tail(tv, a@, stamp_a, bview, true, add_special_tokens, st),
                        b_tail.len() == n_b,
                        over.deep_view() == groups.flatten() + b_tail.take(j as int),
                    decreases n_b - j,
                {
                    let ghost pre_tail = over.deep_view();
                    let bo: &Encoding = &bv.get_overflowing()[j];
                    proof {
                        assert(bo@ == bv@.overflowing[j as int]);
                        assert(enc_wf_rec(bv@.overflowing[j as int]));
                        lemma_depth_elem(bv@, j as int);
                    }
                    let e3 = self.expand(template, a, stamp_a, Some(bo), false, add_special_tokens);
                    over.push(e3);
                    j = j + 1;
                    proof {
                        assert(b_tail[j - 1] == spec_expand(
                            tv,
                            a@,
                            stamp_a,
                            bview.overflowing[j - 1],
                            false,
                            true,
                            add_special_tokens,
                            st,
                        ));
                        assert(over.deep_view() =~= pre_tail.push(b_tail[j - 1]));
                        assert(pre_tail.push(b_tail[j - 1]) =~= groups.flatten() + b_tail.take(
                            j as int,
                        ));
                    }
                }
                proof {
                    assert(b_tail.take(n_b as int) =~= b_tail);
                }
            },
            None => {
                proof {
                    assert(b_tail =~= Seq::<EncodingView>::empty());
                }
            },
        }
        proof {
            assert(over.deep_view() =~= groups.flatten() + b_tail);
        }
        let ghost main_view = main@;
        main.set_overflowing(over);
        proof {
            assert(main@ =~~= spec_expand(
                tv,
                a@,
                stamp_a,
                bview,
                stamp_b,
                b is Some,
                add_special_tokens,
                st,
            ));
        }
        main
    }

    /// Post-processes one or two encodings: the matching template — `single`
    /// for one, `pair` for two — is applied with full overflow expansion,
    /// and the one final encoding is returned as a single-element list.  A
    /// lone encoding may only meet a single template that never names the
    /// pair sequence: with no second input such a reference has nothing to
    /// select.
    pub fn process_encodings(&self, encodings: Vec<Encoding>, add_special_tokens: bool) -> (r:
        Vec<Encoding>)
        requires
            self.wf(),
            1 <= encodings@.len() <= 2,
            encodings@.len() == 1 ==> !has_seq(self.single_view(), Sequence::B),
            forall|k: int| 0 <= k < encodings@.len() ==> enc_wf_rec(#[trigger] encodings@[k]@),
        ensures
            r@.len() == 1,
            encodings@.len() == 1 ==> r@[0]@ == spec_expand(
                self.single_view(),
                encodings@[0]@,
                true,
                spec_empty_encoding(),
                true,
                false,
                add_special_tokens,
                self.tokens_map(),
            ),
            encodings@.len() == 2 ==> r@[0]@ == spec_expand(
                self.pair_view(),
                encodings@[0]@,
                true,
                encodings@[1]@,
                true,
                true,
                add_special_tokens,
                self.tokens_map(),
            ),
    {
        proof {
            assert(enc_wf_rec(encodings@[0]@));
        }
        let out: Encoding = if encodings.len() == 2 {
            proof {
                assert(enc_wf_rec(encodings@[1]@));
            }
            let pair_template = self.get_pair();
            self.expand(pair_template, &encodings[0], true, Some(&encodings[1]), true, add_special_tokens)
        } else {
            let e = self.expand_single(&encodings[0], add_special_tokens);
            e
        };
        let mut r: Vec<Encoding> = Vec::new();
        r.push(out);
        r
    }

    /// Applies the single-sequence template with overflow expansion.
    fn expand_single(&self, a: &Encoding, add_special_tokens: bool) -> (r: Encoding)
        requires
            self.wf(),
            enc_wf_rec(a@),
            !has_seq(self.single_view(), Sequence::B),
        ensures
            r@ == spec_expand(
                self.single_view(),
                a@,
                true,
                spec_empty_encoding(),
                true,
                false,
                add_special_tokens,
                self.tokens_map(),
            ),
    {
        let single = self.get_single_template();
        self.expand(single, a, true, None, true, add_special_tokens)
    }


    /// Post-processes an encoding, with an optional pair encoding: applies
    /// the matching template with full overflow expansion and returns the
    /// final encoding.  Without a pair encoding, the single template must
    /// never name the pair sequence: such a reference has nothing to select.
    pub fn process(
        &self,
        encoding: Encoding,
        pair_encoding: Option<Encoding>,
        add_special_tokens: bool,
    ) -> (r: Encoding)
        requires
            self.wf(),
            enc_wf_rec(encoding@),
            pair_encoding is None ==> !has_seq(self.single_view(), Sequence::B),
            pair_encoding is Some ==> enc_wf_rec(pair_encoding->Some_0@),
        ensures
            pair_encoding is None ==> r@ == spec_expand(
                self.single_view(),
                encoding@,
                true,
                spec_empty_encoding(),
                true,
                false,
                add_special_tokens,
                self.tokens_map(),
            ),
            pair_encoding is Some ==> r@ == spec_expand(
                self.pair_view(),
                encoding@,
                true,
                pair_encoding->Some_0@,
                true,
                true,
                add_special_tokens,
                self.tokens_map(),
            ),
    {
        match pair_encoding {
            Some(pair) => {
                let pair_template = self.get_pair();
                self.expand(pair_template, &encoding, true, Some(&pair), true, add_special_tokens)
            },
            None => self.expand_single(&encoding, add_special_tokens),
        }
    }
}

} // verus!
