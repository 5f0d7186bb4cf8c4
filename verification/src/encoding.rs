//! The output value of post-processing: parallel arrays of ids, type ids,
//! surface tokens, word indices, offsets and masks, a record of which token
//! range each input sequence occupies, and a list of nested overflow
//! encodings carrying truncated continuations.

use vstd::prelude::*;

use crate::special::{clone_strings, clone_u32s, special_token_wf, SpecialToken, SpecialTokenView};
use crate::Token;

verus! {

/// The final annotated output of tokenization and post-processing.
#[derive(Debug, PartialEq, Eq)]
pub struct Encoding {
    pub(crate) ids: Vec<u32>,
    pub(crate) type_ids: Vec<u32>,
    pub(crate) tokens: Vec<String>,
    pub(crate) words: Vec<Option<u32>>,
    pub(crate) offsets: Vec<(usize, usize)>,
    pub(crate) special_tokens_mask: Vec<u32>,
    pub(crate) attention_mask: Vec<u32>,
    pub(crate) overflowing: Vec<Encoding>,
    pub(crate) range_a: Option<(usize, usize)>,
    pub(crate) range_b: Option<(usize, usize)>,
}

/// The mathematical value of an `Encoding`.
#[verifier::ext_equal]
pub struct EncodingView {
    pub ids: Seq<u32>,
    pub type_ids: Seq<u32>,
    pub tokens: Seq<Seq<char>>,
    pub words: Seq<Option<u32>>,
    pub offsets: Seq<(usize, usize)>,
    pub special_tokens_mask: Seq<u32>,
    pub attention_mask: Seq<u32>,
    pub overflowing: Seq<EncodingView>,
    pub range_a: Option<(usize, usize)>,
    pub range_b: Option<(usize, usize)>,
}

/// The value an `Encoding` denotes, nested overflow included.
pub closed spec fn enc_view(e: Encoding) -> EncodingView
    decreases e,
{
    EncodingView {
        ids: e.ids@,
        type_ids: e.type_ids@,
        tokens: e.tokens.deep_view(),
        words: e.words@,
        offsets: e.offsets@,
        special_tokens_mask: e.special_tokens_mask@,
        attention_mask: e.attention_mask@,
        overflowing: Seq::new(
            e.overflowing@.len(),
            |i: int|
                if 0 <= i < e.overflowing@.len() {
                    enc_view(e.overflowing@[i])
                } else {
                    arbitrary()
                },
        ),
        range_a: e.range_a,
        range_b: e.range_b,
    }
}

impl View for Encoding {
    type V = EncodingView;

    open spec fn view(&self) -> EncodingView {
        enc_view(*self)
    }
}

impl DeepView for Encoding {
    type V = EncodingView;

    open spec fn deep_view(&self) -> EncodingView {
        enc_view(*self)
    }
}

/// The parallel arrays are of one length, and the recorded sequence ranges
/// lie inside it.
pub open spec fn enc_wf(e: EncodingView) -> bool {
    &&& e.type_ids.len() == e.ids.len()
    &&& e.tokens.len() == e.ids.len()
    &&& e.words.len() == e.ids.len()
    &&& e.offsets.len() == e.ids.len()
    &&& e.special_tokens_mask.len() == e.ids.len()
    &&& e.attention_mask.len() == e.ids.len()
    &&& match e.range_a {
        Some(r) => r.0 <= r.1 <= e.ids.len(),
        None => true,
    }
    &&& match e.range_b {
        Some(r) => r.0 <= r.1 <= e.ids.len(),
        None => true,
    }
}

/// Well-formedness of an encoding and of every nested overflow encoding.
pub open spec fn enc_wf_rec(e: EncodingView) -> bool
    decreases e,
{
    enc_wf(e) && (forall|i: int|
        0 <= i < e.overflowing.len() ==> enc_wf_rec(#[trigger] e.overflowing[i]))
}

/// The nesting depth of overflow encodings: one for the encoding itself,
/// plus the deepest of its overflow entries.
pub open spec fn enc_depth(e: EncodingView) -> nat
    decreases e,
{
    1 + enc_depth_list(e.overflowing)
}

/// The deepest depth among a list of encodings, zero for an empty list.
pub open spec fn enc_depth_list(s: Seq<EncodingView>) -> nat
    decreases s,
{
    if s.len() == 0 {
        0
    } else {
        let head = enc_depth(s[0]);
        let rest = enc_depth_list(s.drop_first());
        if head > rest {
            head
        } else {
            rest
        }
    }
}

/// The ids of a token list, in order.
pub open spec fn token_ids_of(ts: Seq<Token>) -> Seq<u32> {
    Seq::new(ts.len(), |i: int| ts[i].id)
}

/// The surface strings of a token list, in order.
pub open spec fn token_strs_of(ts: Seq<Token>) -> Seq<Seq<char>> {
    Seq::new(ts.len(), |i: int| ts[i].value@)
}

/// The byte offsets of a token list, in order.
pub open spec fn token_offs_of(ts: Seq<Token>) -> Seq<(usize, usize)> {
    Seq::new(ts.len(), |i: int| ts[i].offsets)
}

/// A sequence of one repeated number.
pub open spec fn const_u32s(n: nat, x: u32) -> Seq<u32> {
    Seq::new(n, |i: int| x)
}

/// A sequence of absent word indices.
pub open spec fn const_no_words(n: nat) -> Seq<Option<u32>> {
    Seq::new(n, |i: int| None::<u32>)
}

/// An overflow entry sits strictly below the encoding that carries it.
pub proof fn lemma_depth_list_elem(s: Seq<EncodingView>, i: int)
    requires
        0 <= i < s.len(),
    ensures
        enc_depth(s[i]) <= enc_depth_list(s),
    decreases s.len(),
{
    if i == 0 {
    } else {
        lemma_depth_list_elem(s.drop_first(), i - 1);
        assert(s.drop_first()[i - 1] == s[i]);
    }
}

/// The depth of an overflow entry is strictly below its carrier's.
pub proof fn lemma_depth_elem(e: EncodingView, i: int)
    requires
        0 <= i < e.overflowing.len(),
    ensures
        enc_depth(e.overflowing[i]) < enc_depth(e),
{
    lemma_depth_list_elem(e.overflowing, i);
}

/// Copies a vector of optional word indices element by element.
pub(crate) fn clone_words(v: &Vec<Option<u32>>) -> (r: Vec<Option<u32>>)
    ensures
        r@ == v@,
{
    let mut r: Vec<Option<u32>> = Vec::new();
    let mut i: usize = 0;
    while i < v.len()
        invariant
            i <= v@.len(),
            r@ == v@.take(i as int),
        decreases v@.len() - i,
    {
        r.push(v[i]);
        i = i + 1;
        proof {
            assert(r@ =~= v@.take(i as int));
        }
    }
    proof {
        assert(r@ =~= v@);
    }
    r
}

/// Copies a vector of offset pairs element by element.
pub(crate) fn clone_offsets(v: &Vec<(usize, usize)>) -> (r: Vec<(usize, usize)>)
    ensures
        r@ == v@,
{
    let mut r: Vec<(usize, usize)> = Vec::new();
    let mut i: usize = 0;
    while i < v.len()
        invariant
            i <= v@.len(),
            r@ == v@.take(i as int),
        decreases v@.len() - i,
    {
        r.push((v[i].0, v[i].1));
        i = i + 1;
        proof {
            assert(r@ =~= v@.take(i as int));
        }
    }
    proof {
        assert(r@ =~= v@);
    }
    r
}

impl Clone for Encoding {
    fn clone(&self) -> (r: Self)
        ensures
            r@ == self@,
        decreases *self,
    {
        let mut overflowing: Vec<Encoding> = Vec::new();
        let mut i: usize = 0;
        while i < self.overflowing.len()
            invariant
                i <= self.overflowing@.len(),
                overflowing@.len() == i,
                forall|k: int| 0 <= k < i ==> #[trigger] overflowing@[k]@
                    == self@.overflowing[k],
            decreases self.overflowing@.len() - i,
        {
            let c = self.overflowing[i].clone();
            proof {
                assert(self.overflowing@[i as int]@ == self@.overflowing[i as int]);
            }
            overflowing.push(c);
            i = i + 1;
        }
        let r = Encoding {
            ids: clone_u32s(&self.ids),
            type_ids: clone_u32s(&self.type_ids),
            tokens: clone_strings(&self.tokens),
            words: clone_words(&self.words),
            offsets: clone_offsets(&self.offsets),
            special_tokens_mask: clone_u32s(&self.special_tokens_mask),
            attention_mask: clone_u32s(&self.attention_mask),
            overflowing,
            range_a: self.range_a,
            range_b: self.range_b,
        };
        proof {
            assert(r@.overflowing.len() == self@.overflowing.len());
            assert forall|k: int| 0 <= k < r@.overflowing.len() implies r@.overflowing[k]
                == self@.overflowing[k] by {
                assert(r.overflowing == overflowing);
                assert(overflowing@[k]@ == self@.overflowing[k]);
                assert(r@.overflowing[k] == enc_view(r.overflowing@[k]));
                assert(enc_view(overflowing@[k]) == overflowing@[k]@);
            }
            assert(r@.overflowing =~= self@.overflowing);
        }
        r
    }
}

impl Encoding {
    /// Builds an encoding from its parts.  The arrays must be parallel and
    /// the declared sequence ranges must lie inside them.
    pub fn new(
        ids: Vec<u32>,
        type_ids: Vec<u32>,
        tokens: Vec<String>,
        words: Vec<Option<u32>>,
        offsets: Vec<(usize, usize)>,
        special_tokens_mask: Vec<u32>,
        attention_mask: Vec<u32>,
        overflowing: Vec<Encoding>,
        range_a: Option<(usize, usize)>,
        range_b: Option<(usize, usize)>,
    ) -> (r: Encoding)
        requires
            type_ids@.len() == ids@.len(),
            tokens@.len() == ids@.len(),
            words@.len() == ids@.len(),
            offsets@.len() == ids@.len(),
            special_tokens_mask@.len() == ids@.len(),
            attention_mask@.len() == ids@.len(),
            match range_a {
                Some(r) => r.0 <= r.1 <= ids@.len(),
                None => true,
            },
            match range_b {
                Some(r) => r.0 <= r.1 <= ids@.len(),
                None => true,
            },
        ensures
            r@.ids == ids@,
            r@.type_ids == type_ids@,
            r@.tokens == tokens.deep_view(),
            r@.words == words@,
            r@.offsets == offsets@,
            r@.special_tokens_mask == special_tokens_mask@,
            r@.attention_mask == attention_mask@,
            r@.overflowing == overflowing.deep_view(),
            r@.range_a == range_a,
            r@.range_b == range_b,
            enc_wf(r@),
    {
        let r = Encoding {
            ids,
            type_ids,
            tokens,
            words,
            offsets,
            special_tokens_mask,
            attention_mask,
            overflowing,
            range_a,
            range_b,
        };
        proof {
            assert(r@.overflowing =~= r.overflowing.deep_view());
        }
        r
    }

    /// An encoding of no tokens at all.
    pub fn empty() -> (r: Encoding)
        ensures
            r@ == spec_empty_encoding(),
    {
        let r = Encoding {
            ids: Vec::new(),
            type_ids: Vec::new(),
            tokens: Vec::new(),
            words: Vec::new(),
            offsets: Vec::new(),
            special_tokens_mask: Vec::new(),
            attention_mask: Vec::new(),
            overflowing: Vec::new(),
            range_a: None,
            range_b: None,
        };
        proof {
            assert(r@.ids =~= spec_empty_encoding().ids);
            assert(r@.type_ids =~= spec_empty_encoding().type_ids);
            assert(r@.tokens =~= spec_empty_encoding().tokens);
            assert(r@.words =~= spec_empty_encoding().words);
            assert(r@.offsets =~= spec_empty_encoding().offsets);
            assert(r@.special_tokens_mask =~= spec_empty_encoding().special_tokens_mask);
            assert(r@.attention_mask =~= spec_empty_encoding().attention_mask);
            assert(r@.overflowing =~= spec_empty_encoding().overflowing);
        }
        r
    }

    /// Builds the encoding of one tokenized sequence: ids, surfaces and
    /// offsets from the tokens, every type id as given, no word indices, no
    /// special tokens, full attention.
    pub fn from_tokens(tokens: Vec<Token>, type_id: u32) -> (r: Encoding)
        ensures
            r@.ids == token_ids_of(tokens@),
            r@.type_ids == const_u32s(tokens@.len(), type_id),
            r@.tokens == token_strs_of(tokens@),
            r@.words == const_no_words(tokens@.len()),
            r@.offsets == token_offs_of(tokens@),
            r@.special_tokens_mask == const_u32s(tokens@.len(), 0u32),
            r@.attention_mask == const_u32s(tokens@.len(), 1u32),
            r@.overflowing == Seq::<EncodingView>::empty(),
            r@.range_a == None::<(usize, usize)>,
            r@.range_b == None::<(usize, usize)>,
            enc_wf(r@),
            enc_wf_rec(r@),
    {
        let n = tokens.len();
        let mut ids: Vec<u32> = Vec::new();
        let mut tok_strs: Vec<String> = Vec::new();
        let mut type_ids: Vec<u32> = Vec::new();
        let mut words: Vec<Option<u32>> = Vec::new();
        let mut offsets: Vec<(usize, usize)> = Vec::new();
        let mut special_tokens_mask: Vec<u32> = Vec::new();
        let mut attention_mask: Vec<u32> = Vec::new();
        let mut i: usize = 0;
        while i < n
            invariant
                i <= n,
                n == tokens@.len(),
                ids@ == token_ids_of(tokens@).take(i as int),
                tok_strs.deep_view() == token_strs_of(tokens@).take(i as int),
                type_ids@ == const_u32s(n as nat, type_id).take(i as int),
                words@ == const_no_words(n as nat).take(i as int),
                offsets@ == token_offs_of(tokens@).take(i as int),
                special_tokens_mask@ == const_u32s(n as nat, 0u32).take(i as int),
                attention_mask@ == const_u32s(n as nat, 1u32).take(i as int),
            decreases n - i,
        {
            let t = &tokens[i];
            let ghost old_raw: Seq<String> = tok_strs@;
            let ghost old_deep: Seq<Seq<char>> = tok_strs.deep_view();
            let c = t.value.clone();
            proof {
                assert(c@ == t.value@);
            }
            ids.push(t.id);
            tok_strs.push(c);
            proof {
                assert(tok_strs@ == old_raw.push(c));
                assert(old_deep == Seq::new(old_raw.len(), |j: int| old_raw[j].deep_view()));
                assert(old_deep.len() == i);
                assert(old_raw.len() == i);
                assert forall|k: int| 0 <= k < tok_strs@.len() implies tok_strs.deep_view()[k]
                    == token_strs_of(tokens@)[k] by {
                    if k < i {
                        assert(old_deep[k] == token_strs_of(tokens@).take(i as int)[k]);
                        assert(old_deep[k] == old_raw[k].deep_view());
                        assert(tok_strs@[k] == old_raw[k]);
                    } else {
                        assert(tok_strs@[k] == c);
                    }
                }
            }
            type_ids.push(type_id);
            words.push(None);
            offsets.push((t.offsets.0, t.offsets.1));
            special_tokens_mask.push(0);
            attention_mask.push(1);
            i = i + 1;
            proof {
                assert(ids@ =~= token_ids_of(tokens@).take(i as int));
                assert(tok_strs.deep_view() =~~= token_strs_of(tokens@).take(i as int));
                assert(type_ids@ =~= const_u32s(n as nat, type_id).take(i as int));
                assert(words@ =~= const_no_words(n as nat).take(i as int));
                assert(offsets@ =~= token_offs_of(tokens@).take(i as int));
                assert(special_tokens_mask@ =~= const_u32s(n as nat, 0u32).take(i as int));
                assert(attention_mask@ =~= const_u32s(n as nat, 1u32).take(i as int));
            }
        }
        let r = Encoding {
            ids,
            type_ids,
            tokens: tok_strs,
            words,
            offsets,
            special_tokens_mask,
            attention_mask,
            overflowing: Vec::new(),
            range_a: None,
            range_b: None,
        };
        proof {
            assert(r@.ids =~= token_ids_of(tokens@));
            assert(r@.tokens =~~= token_strs_of(tokens@));
            assert(r@.type_ids =~= const_u32s(tokens@.len(), type_id));
            assert(r@.words =~= const_no_words(tokens@.len()));
            assert(r@.offsets =~= token_offs_of(tokens@));
            assert(r@.special_tokens_mask =~= const_u32s(tokens@.len(), 0u32));
            assert(r@.attention_mask =~= const_u32s(tokens@.len(), 1u32));
            assert(r@.overflowing =~= Seq::<EncodingView>::empty());
        }
        r
    }

    /// How many tokens the encoding holds.
    pub fn len(&self) -> (r: usize)
        ensures
            r == self@.ids.len(),
    {
        self.ids.len()
    }

    /// The token ids.
    pub fn get_ids(&self) -> (r: &Vec<u32>)
        ensures
            r@ == self@.ids,
    {
        &self.ids
    }

    /// The type ids.
    pub fn get_type_ids(&self) -> (r: &Vec<u32>)
        ensures
            r@ == self@.type_ids,
    {
        &self.type_ids
    }

    /// The surface tokens.
    pub fn get_tokens(&self) -> (r: &Vec<String>)
        ensures
            r.deep_view() == self@.tokens,
    {
        &self.tokens
    }

    /// The word index of each token, if any.
    pub fn get_word_ids(&self) -> (r: &Vec<Option<u32>>)
        ensures
            r@ == self@.words,
    {
        &self.words
    }

    /// The byte offsets of each token.
    pub fn get_offsets(&self) -> (r: &Vec<(usize, usize)>)
        ensures
            r@ == self@.offsets,
    {
        &self.offsets
    }

    /// The special-tokens mask: one for injected tokens, zero otherwise.
    pub fn get_special_tokens_mask(&self) -> (r: &Vec<u32>)
        ensures
            r@ == self@.special_tokens_mask,
    {
        &self.special_tokens_mask
    }

    /// The attention mask.
    pub fn get_attention_mask(&self) -> (r: &Vec<u32>)
        ensures
            r@ == self@.attention_mask,
    {
        &self.attention_mask
    }

    /// The nested overflow encodings.
    pub fn get_overflowing(&self) -> (r: &Vec<Encoding>)
        ensures
            r.deep_view() == self@.overflowing,
    {
        proof {
            assert(self.overflowing.deep_view() =~= self@.overflowing);
        }
        &self.overflowing
    }

    /// The token range occupied by an input sequence, if recorded.
    pub fn sequence_range(&self, seq_index: usize) -> (r: Option<(usize, usize)>)
        ensures
            r == spec_sequence_range(self@, seq_index as int),
    {
        if seq_index == 0 {
            self.range_a
        } else if seq_index == 1 {
            self.range_b
        } else {
            None
        }
    }

    /// Which input sequence the token at this index came from, if any.
    pub fn token_to_sequence(&self, token_index: usize) -> (r: Option<usize>)
        ensures
            r == spec_token_to_sequence(self@, token_index as int),
    {
        match self.range_a {
            Some(r0) => {
                if r0.0 <= token_index && token_index < r0.1 {
                    return Some(0);
                }
            },
            None => {},
        }
        match self.range_b {
            Some(r1) => {
                if r1.0 <= token_index && token_index < r1.1 {
                    return Some(1);
                }
            },
            None => {},
        }
        None
    }

    /// Replaces every type id with the given values.
    pub fn set_type_ids(&mut self, type_ids: Vec<u32>)
        ensures
            final(self)@ == (EncodingView { type_ids: type_ids@, ..old(self)@ }),
    {
        self.type_ids = type_ids;
        proof {
            lemma_view_parts(*self, *old(self));
        }
    }

    /// Records that this whole encoding is the given input sequence: its
    /// range becomes the full token span.
    pub fn set_sequence_id(&mut self, seq_index: usize)
        ensures
            seq_index == 0 ==> final(self)@ == (EncodingView {
                range_a: Some((0usize, old(self)@.ids.len() as usize)),
                ..old(self)@
            }),
            seq_index == 1 ==> final(self)@ == (EncodingView {
                range_b: Some((0usize, old(self)@.ids.len() as usize)),
                ..old(self)@
            }),
            seq_index > 1 ==> final(self)@ == old(self)@,
    {
        let n = self.ids.len();
        if seq_index == 0 {
            self.range_a = Some((0, n));
        } else if seq_index == 1 {
            self.range_b = Some((0, n));
        }
        proof {
            lemma_view_parts(*self, *old(self));
        }
    }

    /// Attaches a list of overflow encodings, replacing any earlier one.
    pub fn set_overflowing(&mut self, overflowing: Vec<Encoding>)
        ensures
            final(self)@ == (EncodingView { overflowing: overflowing.deep_view(), ..old(self)@ }),
    {
        self.overflowing = overflowing;
        proof {
            assert(final(self)@.overflowing =~= self.overflowing.deep_view());
        }
    }

    /// Detaches and returns the overflow encodings, leaving none behind.
    pub fn take_overflowing(&mut self) -> (r: Vec<Encoding>)
        ensures
            r.deep_view() == old(self)@.overflowing,
            final(self)@ == (EncodingView {
                overflowing: Seq::<EncodingView>::empty(),
                ..old(self)@
            }),
    {
        let mut taken: Vec<Encoding> = Vec::new();
        core::mem::swap(&mut taken, &mut self.overflowing);
        proof {
            assert(final(self)@.overflowing =~= Seq::<EncodingView>::empty());
            assert(taken.deep_view() =~= old(self)@.overflowing);
        }
        taken
    }
}

/// The token range recorded for an input sequence index.
pub open spec fn spec_sequence_range(e: EncodingView, seq_index: int) -> Option<(usize, usize)> {
    if seq_index == 0 {
        e.range_a
    } else if seq_index == 1 {
        e.range_b
    } else {
        None
    }
}

/// Which input sequence a token index belongs to: the first recorded range
/// that contains it.
pub open spec fn spec_token_to_sequence(e: EncodingView, token_index: int) -> Option<usize> {
    if e.range_a is Some && e.range_a->Some_0.0 <= token_index < e.range_a->Some_0.1 {
        Some(0usize)
    } else if e.range_b is Some && e.range_b->Some_0.0 <= token_index < e.range_b->Some_0.1 {
        Some(1usize)
    } else {
        None
    }
}

/// The encoding of no tokens.
pub open spec fn spec_empty_encoding() -> EncodingView {
    EncodingView {
        ids: Seq::empty(),
        type_ids: Seq::empty(),
        tokens: Seq::empty(),
        words: Seq::empty(),
        offsets: Seq::empty(),
        special_tokens_mask: Seq::empty(),
        attention_mask: Seq::empty(),
        overflowing: Seq::empty(),
        range_a: None,
        range_b: None,
    }
}

/// Two encodings sharing all parts have one view; used to push a single
/// field update through the view.
proof fn lemma_view_parts(a: Encoding, b: Encoding)
    requires
        a.overflowing == b.overflowing,
    ensures
        a@.overflowing == b@.overflowing,
{
    assert(a@.overflowing =~= b@.overflowing);
}

/// A sequence of zero-length offsets.
pub open spec fn const_zero_offsets(n: nat) -> Seq<(usize, usize)> {
    Seq::new(n, |i: int| (0usize, 0usize))
}

/// The fragment an input sequence contributes: the encoding's arrays — with
/// every type id overwritten when the sequence is being stamped, kept as
/// they are otherwise — its sequence range covering the whole span, and no
/// overflow of its own.  Primary inputs are stamped with the template's type
/// id; overflow entries taking part in a combination keep their own.
pub open spec fn spec_seq_fragment(e: EncodingView, type_id: u32, idx: int, stamp: bool) -> EncodingView {
    EncodingView {
        ids: e.ids,
        type_ids: if stamp {
            const_u32s(e.ids.len(), type_id)
        } else {
            e.type_ids
        },
        tokens: e.tokens,
        words: e.words,
        offsets: e.offsets,
        special_tokens_mask: e.special_tokens_mask,
        attention_mask: e.attention_mask,
        overflowing: Seq::empty(),
        range_a: if idx == 0 {
            Some((0usize, e.ids.len() as usize))
        } else {
            e.range_a
        },
        range_b: if idx == 1 {
            Some((0usize, e.ids.len() as usize))
        } else {
            e.range_b
        },
    }
}

/// The fragment a special token contributes: its ids and surfaces, the
/// piece's type id throughout, no word indices, zero offsets, marked special,
/// fully attended, no ranges and no overflow.
pub open spec fn spec_special_fragment(t: SpecialTokenView, type_id: u32) -> EncodingView {
    EncodingView {
        ids: t.ids,
        type_ids: const_u32s(t.ids.len(), type_id),
        tokens: t.tokens,
        words: const_no_words(t.ids.len()),
        offsets: const_zero_offsets(t.ids.len()),
        special_tokens_mask: const_u32s(t.ids.len(), 1u32),
        attention_mask: const_u32s(t.ids.len(), 1u32),
        overflowing: Seq::empty(),
        range_a: None,
        range_b: None,
    }
}

/// Two fragments joined: arrays concatenated, the right fragment's sequence
/// ranges shifted past the left one, a right range replacing a left one for
/// the same sequence.
pub open spec fn spec_concat_enc(x: EncodingView, y: EncodingView) -> EncodingView {
    EncodingView {
        ids: x.ids + y.ids,
        type_ids: x.type_ids + y.type_ids,
        tokens: x.tokens + y.tokens,
        words: x.words + y.words,
        offsets: x.offsets + y.offsets,
        special_tokens_mask: x.special_tokens_mask + y.special_tokens_mask,
        attention_mask: x.attention_mask + y.attention_mask,
        overflowing: Seq::empty(),
        range_a: match y.range_a {
            Some(p) => Some(
                (((p.0 + x.ids.len()) as usize), ((p.1 + x.ids.len()) as usize)),
            ),
            None => x.range_a,
        },
        range_b: match y.range_b {
            Some(p) => Some(
                (((p.0 + x.ids.len()) as usize), ((p.1 + x.ids.len()) as usize)),
            ),
            None => x.range_b,
        },
    }
}


/// Builds a vector of one repeated number.
fn const_u32_vec(n: usize, x: u32) -> (r: Vec<u32>)
    ensures
        r@ == const_u32s(n as nat, x),
{
    let mut r: Vec<u32> = Vec::new();
    let mut i: usize = 0;
    while i < n
        invariant
            i <= n,
            r@ == const_u32s(i as nat, x),
        decreases n - i,
    {
        r.push(x);
        i = i + 1;
        proof {
            assert(r@ =~= const_u32s(i as nat, x));
        }
    }
    proof {
        assert(r@ =~= const_u32s(n as nat, x));
    }
    r
}

/// Builds a vector of absent word indices.
fn const_words_vec(n: usize) -> (r: Vec<Option<u32>>)
    ensures
        r@ == const_no_words(n as nat),
{
    let mut r: Vec<Option<u32>> = Vec::new();
    let mut i: usize = 0;
    while i < n
        invariant
            i <= n,
            r@ == const_no_words(i as nat),
        decreases n - i,
    {
        r.push(None);
        i = i + 1;
        proof {
            assert(r@ =~= const_no_words(i as nat));
        }
    }
    proof {
        assert(r@ =~= const_no_words(n as nat));
    }
    r
}

/// Builds a vector of zero-length offsets.
fn const_offsets_vec(n: usize) -> (r: Vec<(usize, usize)>)
    ensures
        r@ == const_zero_offsets(n as nat),
{
    let mut r: Vec<(usize, usize)> = Vec::new();
    let mut i: usize = 0;
    while i < n
        invariant
            i <= n,
            r@ == const_zero_offsets(i as nat),
        decreases n - i,
    {
        r.push((0, 0));
        i = i + 1;
        proof {
            assert(r@ =~= const_zero_offsets(i as nat));
        }
    }
    proof {
        assert(r@ =~= const_zero_offsets(n as nat));
    }
    r
}

/// Builds the fragment an input sequence contributes.
pub(crate) fn seq_fragment(e: &Encoding, type_id: u32, idx: usize, stamp: bool) -> (r: Encoding)
    requires
        enc_wf(e@),
        idx <= 1,
    ensures
        r@ == spec_seq_fragment(e@, type_id, idx as int, stamp),
        enc_wf(r@),
{
    let n = e.len();
    let type_ids = if stamp {
        const_u32_vec(n, type_id)
    } else {
        clone_u32s(e.get_type_ids())
    };
    let range_a: Option<(usize, usize)> = if idx == 0 {
        Some((0, n))
    } else {
        e.sequence_range(0)
    };
    let range_b: Option<(usize, usize)> = if idx == 1 {
        Some((0, n))
    } else {
        e.sequence_range(1)
    };
    let r = Encoding::new(
        clone_u32s(e.get_ids()),
        type_ids,
        clone_strings(e.get_tokens()),
        clone_words(e.get_word_ids()),
        clone_offsets(e.get_offsets()),
        clone_u32s(e.get_special_tokens_mask()),
        clone_u32s(e.get_attention_mask()),
        Vec::new(),
        range_a,
        range_b,
    );
    proof {
        let s = spec_seq_fragment(e@, type_id, idx as int, stamp);
        assert(r@.ids =~= s.ids);
        assert(r@.type_ids =~= s.type_ids);
        assert(r@.tokens =~~= s.tokens);
        assert(r@.words =~= s.words);
        assert(r@.offsets =~= s.offsets);
        assert(r@.special_tokens_mask =~= s.special_tokens_mask);
        assert(r@.attention_mask =~= s.attention_mask);
        assert(r@.overflowing =~= s.overflowing);
        assert(r@.range_a == s.range_a);
        assert(r@.range_b == s.range_b);
        assert(r@ =~~= s);
    }
    r
}

/// Builds the fragment a special token contributes.
pub(crate) fn special_fragment(tok: &SpecialToken, type_id: u32) -> (r: Encoding)
    requires
        special_token_wf(tok@),
    ensures
        r@ == spec_special_fragment(tok@, type_id),
        enc_wf(r@),
{
    let n = tok.ids().len();
    let r = Encoding::new(
        clone_u32s(tok.ids()),
        const_u32_vec(n, type_id),
        clone_strings(tok.tokens()),
        const_words_vec(n),
        const_offsets_vec(n),
        const_u32_vec(n, 1),
        const_u32_vec(n, 1),
        Vec::new(),
        None,
        None,
    );
    proof {
        let s = spec_special_fragment(tok@, type_id);
        assert(r@.ids =~= s.ids);
        assert(r@.type_ids =~= s.type_ids);
        assert(r@.tokens =~~= s.tokens);
        assert(r@.words =~= s.words);
        assert(r@.offsets =~= s.offsets);
        assert(r@.special_tokens_mask =~= s.special_tokens_mask);
        assert(r@.attention_mask =~= s.attention_mask);
        assert(r@.overflowing =~= s.overflowing);
        assert(r@.range_a == s.range_a);
        assert(r@.range_b == s.range_b);
        assert(r@ =~~= s);
    }
    r
}

/// Appends a fragment to the accumulated encoding: arrays are concatenated
/// and the fragment's sequence ranges land shifted past the accumulated
/// tokens.
pub(crate) fn append_fragment(acc: &mut Encoding, frag: Encoding)
    requires
        enc_wf(old(acc)@),
        enc_wf(frag@),
        old(acc)@.overflowing == Seq::<EncodingView>::empty(),
    ensures
        final(acc)@ == spec_concat_enc(old(acc)@, frag@),
        enc_wf(final(acc)@),
        final(acc)@.overflowing == Seq::<EncodingView>::empty(),
{
    let off = acc.len();
    let ghost fv = frag@;
    let Encoding {
        ids: mut f_ids,
        type_ids: mut f_type_ids,
        tokens: mut f_tokens,
        words: mut f_words,
        offsets: mut f_offsets,
        special_tokens_mask: mut f_stm,
        attention_mask: mut f_am,
        overflowing: _f_overflowing,
        range_a: f_range_a,
        range_b: f_range_b,
    } = frag;
    proof {
        assert(f_ids@ == fv.ids);
        assert(f_type_ids@ == fv.type_ids);
        assert(f_tokens.deep_view() =~~= fv.tokens);
        assert(f_words@ == fv.words);
        assert(f_offsets@ == fv.offsets);
        assert(f_stm@ == fv.special_tokens_mask);
        assert(f_am@ == fv.attention_mask);
        assert(f_range_a == fv.range_a);
        assert(f_range_b == fv.range_b);
    }
    let ghost f_tokens_pre = f_tokens.deep_view();
    acc.ids.append(&mut f_ids);
    acc.type_ids.append(&mut f_type_ids);
    acc.tokens.append(&mut f_tokens);
    acc.words.append(&mut f_words);
    acc.offsets.append(&mut f_offsets);
    acc.special_tokens_mask.append(&mut f_stm);
    acc.attention_mask.append(&mut f_am);
    let new_len = acc.ids.len();
    proof {
        assert(new_len == off + fv.ids.len());
    }
    match f_range_a {
        Some(p) => {
            proof {
                assert(f_range_a == fv.range_a);
                assert(p.0 <= p.1 <= fv.ids.len());
            }
            acc.range_a = Some((p.0 + off, p.1 + off));
        },
        None => {},
    }
    match f_range_b {
        Some(p) => {
            proof {
                assert(f_range_b == fv.range_b);
                assert(p.0 <= p.1 <= fv.ids.len());
            }
            acc.range_b = Some((p.0 + off, p.1 + off));
        },
        None => {},
    }
    proof {
        let s = spec_concat_enc(old(acc)@, fv);
        assert(final(acc)@.ids =~= s.ids);
        assert(final(acc)@.type_ids =~= s.type_ids);
        assert(final(acc)@.tokens =~~= s.tokens);
        assert(final(acc)@.words =~= s.words);
        assert(final(acc)@.offsets =~= s.offsets);
        assert(final(acc)@.special_tokens_mask =~= s.special_tokens_mask);
        assert(final(acc)@.attention_mask =~= s.attention_mask);
        assert(final(acc)@.overflowing =~= s.overflowing);
        assert(final(acc)@.range_a == s.range_a);
        assert(final(acc)@.range_b == s.range_b);
        assert(final(acc)@ =~~= s);
    }
}


} // verus!
