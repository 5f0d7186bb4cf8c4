//! The template post-processor: a template for a single input sequence, one
//! for a pair of sequences, the declared special tokens, and the derived
//! counts of tokens each template adds.  Construction validates that the pair
//! template uses both sequences and that every referenced special token is
//! declared.

use vstd::prelude::*;
use vstd::string::StringExecFns;

use crate::pieces::{Piece, PieceView, Sequence};
use crate::special::{special_token_wf, SpecialToken, SpecialTokenView, Tokens};
use crate::template::Template;

verus! {

/// Whether a piece refers to the given input sequence.
pub open spec fn piece_is_seq(p: PieceView, sid: Sequence) -> bool {
    match p {
        PieceView::Sequence { id, .. } => id == sid,
        PieceView::SpecialToken { .. } => false,
    }
}

/// Whether a template refers to the given input sequence at least once.
pub open spec fn has_seq(t: Seq<PieceView>, sid: Sequence) -> bool {
    exists|i: int| 0 <= i < t.len() && piece_is_seq(#[trigger] t[i], sid)
}

/// Whether a piece is a special-token reference that the declared table
/// does not know.
pub open spec fn piece_missing(p: PieceView, st: Map<Seq<char>, SpecialTokenView>) -> bool {
    match p {
        PieceView::Sequence { .. } => false,
        PieceView::SpecialToken { id, .. } => !st.contains_key(id),
    }
}

/// Every special-token reference of the template is declared.
pub open spec fn refs_declared(t: Seq<PieceView>, st: Map<Seq<char>, SpecialTokenView>) -> bool {
    forall|i: int| 0 <= i < t.len() ==> !piece_missing(#[trigger] t[i], st)
}

/// The undeclared special-token ids of a piece list, appended to an
/// accumulator in first-occurrence order, without repetition.
pub open spec fn missing_after(
    t: Seq<PieceView>,
    st: Map<Seq<char>, SpecialTokenView>,
    acc: Seq<Seq<char>>,
) -> Seq<Seq<char>>
    decreases t.len(),
{
    if t.len() == 0 {
        acc
    } else {
        let acc2 = match t.first() {
            PieceView::SpecialToken { id, .. } => if !st.contains_key(id) && !acc.contains(id) {
                acc.push(id)
            } else {
                acc
            },
            PieceView::Sequence { .. } => acc,
        };
        missing_after(t.drop_first(), st, acc2)
    }
}

/// Collecting missing ids never drops what was already collected.
pub proof fn lemma_missing_after_len(
    t: Seq<PieceView>,
    st: Map<Seq<char>, SpecialTokenView>,
    acc: Seq<Seq<char>>,
)
    ensures
        missing_after(t, st, acc).len() >= acc.len(),
    decreases t.len(),
{
    if t.len() > 0 {
        match t.first() {
            PieceView::SpecialToken { id, .. } => {
                if !st.contains_key(id) && !acc.contains(id) {
                    lemma_missing_after_len(t.drop_first(), st, acc.push(id));
                } else {
                    lemma_missing_after_len(t.drop_first(), st, acc);
                }
            },
            PieceView::Sequence { .. } => {
                lemma_missing_after_len(t.drop_first(), st, acc);
            },
        }
    }
}

/// No id is missing exactly when every reference is declared or already
/// collected.
pub proof fn lemma_missing_after_empty(
    t: Seq<PieceView>,
    st: Map<Seq<char>, SpecialTokenView>,
    acc: Seq<Seq<char>>,
)
    ensures
        missing_after(t, st, acc).len() == acc.len() <==> (forall|i: int|
            0 <= i < t.len() ==> (!piece_missing(#[trigger] t[i], st) || acc.contains(
                t[i]->SpecialToken_id,
            ))),
    decreases t.len(),
{
    if t.len() > 0 {
        let rest = t.drop_first();
        match t.first() {
            PieceView::SpecialToken { id, .. } => {
                if !st.contains_key(id) && !acc.contains(id) {
                    lemma_missing_after_len(rest, st, acc.push(id));
                    assert(missing_after(t, st, acc).len() > acc.len());
                    assert(piece_missing(t[0], st) && !acc.contains(t[0]->SpecialToken_id));
                } else {
                    lemma_missing_after_empty(rest, st, acc);
                    assert forall|i: int| 0 <= i < rest.len() implies rest[i] == t[i + 1] by {}
                    if missing_after(t, st, acc).len() == acc.len() {
                        assert forall|i: int|
                            0 <= i < t.len() implies (!piece_missing(#[trigger] t[i], st)
                            || acc.contains(t[i]->SpecialToken_id)) by {
                            if i > 0 {
                                assert(rest[i - 1] == t[i]);
                            }
                        }
                    } else {
                        assert(exists|i: int|
                            0 <= i < rest.len() && piece_missing(#[trigger] rest[i], st)
                                && !acc.contains(rest[i]->SpecialToken_id));
                        let i = choose|i: int|
                            0 <= i < rest.len() && piece_missing(#[trigger] rest[i], st)
                                && !acc.contains(rest[i]->SpecialToken_id);
                        assert(t[i + 1] == rest[i]);
                    }
                }
            },
            PieceView::Sequence { .. } => {
                lemma_missing_after_empty(rest, st, acc);
                if missing_after(t, st, acc).len() == acc.len() {
                    assert forall|i: int|
                        0 <= i < t.len() implies (!piece_missing(#[trigger] t[i], st)
                        || acc.contains(t[i]->SpecialToken_id)) by {
                        if i > 0 {
                            assert(rest[i - 1] == t[i]);
                        }
                    }
                } else {
                    assert(exists|i: int|
                        0 <= i < rest.len() && piece_missing(#[trigger] rest[i], st)
                            && !acc.contains(rest[i]->SpecialToken_id));
                    let i = choose|i: int|
                        0 <= i < rest.len() && piece_missing(#[trigger] rest[i], st)
                            && !acc.contains(rest[i]->SpecialToken_id);
                    assert(t[i + 1] == rest[i]);
                }
            },
        }
    }
}

/// Collecting missing ids is exact: an id stands in the collected list
/// precisely when it was already accumulated or some piece references it
/// undeclared, and — the accumulator being free of repeats — no id stands
/// twice.
pub proof fn lemma_missing_after_exact(
    t: Seq<PieceView>,
    st: Map<Seq<char>, SpecialTokenView>,
    acc: Seq<Seq<char>>,
)
    requires
        forall|k1: int, k2: int| 0 <= k1 < k2 < acc.len() ==> acc[k1] != acc[k2],
    ensures
        forall|id: Seq<char>|
            #[trigger] missing_after(t, st, acc).contains(id) <==> (acc.contains(id) || (
            exists|i: int|
                0 <= i < t.len() && piece_missing(#[trigger] t[i], st)
                    && t[i]->SpecialToken_id == id)),
        forall|k1: int, k2: int|
            0 <= k1 < k2 < missing_after(t, st, acc).len() ==> missing_after(t, st, acc)[k1]
                != missing_after(t, st, acc)[k2],
    decreases t.len(),
{
    if t.len() == 0 {
        assert(missing_after(t, st, acc) == acc);
    } else {
        let rest = t.drop_first();
        let pushed = match t.first() {
            PieceView::SpecialToken { id, .. } => !st.contains_key(id) && !acc.contains(id),
            PieceView::Sequence { .. } => false,
        };
        if pushed {
            let id0 = t[0]->SpecialToken_id;
            let acc2 = acc.push(id0);
            assert forall|k1: int, k2: int|
                0 <= k1 < k2 < acc2.len() implies acc2[k1] != acc2[k2] by {
                if k2 == acc.len() {
                    if acc[k1] == id0 {
                        assert(acc.contains(id0));
                    }
                }
            }
            lemma_missing_after_exact(rest, st, acc2);
            assert(missing_after(t, st, acc) == missing_after(rest, st, acc2));
            assert forall|id: Seq<char>|
                #[trigger] missing_after(t, st, acc).contains(id) <==> (acc.contains(id) || (
            exists|i: int|
                0 <= i < t.len() && piece_missing(#[trigger] t[i], st) && t[i]->SpecialToken_id
                    == id)) by {
                assert(missing_after(t, st, acc) == missing_after(rest, st, acc2));
                if acc2.contains(id) {
                    let k = choose|k: int| 0 <= k < acc2.len() && acc2[k] == id;
                    if k < acc.len() {
                        assert(acc[k] == id);
                    } else {
                        assert(id == id0 && piece_missing(t[0], st));
                    }
                }
                if acc.contains(id) {
                    let k = choose|k: int| 0 <= k < acc.len() && acc[k] == id;
                    assert(acc2[k] == id);
                }
                if id == id0 {
                    assert(acc2[acc.len() as int] == id);
                }
                if exists|i: int|
                    0 <= i < t.len() && piece_missing(#[trigger] t[i], st)
                        && t[i]->SpecialToken_id == id {
                    let i = choose|i: int|
                        0 <= i < t.len() && piece_missing(#[trigger] t[i], st)
                            && t[i]->SpecialToken_id == id;
                    if i > 0 {
                        assert(rest[i - 1] == t[i]);
                    }
                }
                if exists|i: int|
                    0 <= i < rest.len() && piece_missing(#[trigger] rest[i], st)
                        && rest[i]->SpecialToken_id == id {
                    let i = choose|i: int|
                        0 <= i < rest.len() && piece_missing(#[trigger] rest[i], st)
                            && rest[i]->SpecialToken_id == id;
                    assert(t[i + 1] == rest[i]);
                }
            }
        } else {
            lemma_missing_after_exact(rest, st, acc);
            assert(missing_after(t, st, acc) == missing_after(rest, st, acc));
            assert forall|id: Seq<char>|
                #[trigger] missing_after(t, st, acc).contains(id) <==> (acc.contains(id) || (
            exists|i: int|
                0 <= i < t.len() && piece_missing(#[trigger] t[i], st) && t[i]->SpecialToken_id
                    == id)) by {
                assert(missing_after(t, st, acc) == missing_after(rest, st, acc));
                if exists|i: int|
                    0 <= i < t.len() && piece_missing(#[trigger] t[i], st)
                        && t[i]->SpecialToken_id == id {
                    let i = choose|i: int|
                        0 <= i < t.len() && piece_missing(#[trigger] t[i], st)
                            && t[i]->SpecialToken_id == id;
                    if i > 0 {
                        assert(rest[i - 1] == t[i]);
                    } else {
                        assert(acc.contains(id));
                    }
                }
                if exists|i: int|
                    0 <= i < rest.len() && piece_missing(#[trigger] rest[i], st)
                        && rest[i]->SpecialToken_id == id {
                    let i = choose|i: int|
                        0 <= i < rest.len() && piece_missing(#[trigger] rest[i], st)
                            && rest[i]->SpecialToken_id == id;
                    assert(t[i + 1] == rest[i]);
                }
            }
        }
    }
}

/// The construction failure for undeclared special tokens names exactly the
/// ids that the single or the pair template references and the declared
/// table lacks — every such id, no other, and each only once.
pub proof fn lemma_missing_ids_exact(
    single: Seq<PieceView>,
    pair: Seq<PieceView>,
    st: Map<Seq<char>, SpecialTokenView>,
)
    ensures
        forall|id: Seq<char>|
            #[trigger] missing_after(single + pair, st, Seq::empty()).contains(id) <==> ((exists|
                i: int,
            |
                0 <= i < single.len() && piece_missing(#[trigger] single[i], st)
                    && single[i]->SpecialToken_id == id) || (exists|j: int|
                0 <= j < pair.len() && piece_missing(#[trigger] pair[j], st)
                    && pair[j]->SpecialToken_id == id)),
        forall|k1: int, k2: int|
            0 <= k1 < k2 < missing_after(single + pair, st, Seq::empty()).len()
                ==> missing_after(single + pair, st, Seq::empty())[k1] != missing_after(
                single + pair,
                st,
                Seq::empty(),
            )[k2],
{
    let t = single + pair;
    lemma_missing_after_exact(t, st, Seq::empty());
    assert forall|id: Seq<char>|
        #[trigger] missing_after(t, st, Seq::empty()).contains(id) <==> ((exists|i: int|
        0 <= i < single.len() && piece_missing(#[trigger] single[i], st)
            && single[i]->SpecialToken_id == id) || (exists|j: int|
        0 <= j < pair.len() && piece_missing(#[trigger] pair[j], st) && pair[j]->SpecialToken_id
            == id)) by {
        if exists|i: int|
            0 <= i < t.len() && piece_missing(#[trigger] t[i], st) && t[i]->SpecialToken_id
                == id {
            let i = choose|i: int|
                0 <= i < t.len() && piece_missing(#[trigger] t[i], st) && t[i]->SpecialToken_id
                    == id;
            if i < single.len() {
                assert(single[i] == t[i]);
            } else {
                assert(pair[i - single.len()] == t[i]);
            }
        }
        if exists|i: int|
            0 <= i < single.len() && piece_missing(#[trigger] single[i], st)
                && single[i]->SpecialToken_id == id {
            let i = choose|i: int|
                0 <= i < single.len() && piece_missing(#[trigger] single[i], st)
                    && single[i]->SpecialToken_id == id;
            assert(t[i] == single[i]);
        }
        if exists|j: int|
            0 <= j < pair.len() && piece_missing(#[trigger] pair[j], st)
                && pair[j]->SpecialToken_id == id {
            let j = choose|j: int|
                0 <= j < pair.len() && piece_missing(#[trigger] pair[j], st)
                    && pair[j]->SpecialToken_id == id;
            assert(t[j + single.len()] == pair[j]);
        }
    }
}

/// How many tokens a template adds when applied: the sum over its
/// special-token references of the declared token count, sequences adding
/// none and undeclared references counting as zero.
pub open spec fn spec_count_added(
    t: Seq<PieceView>,
    st: Map<Seq<char>, SpecialTokenView>,
) -> nat
    decreases t.len(),
{
    if t.len() == 0 {
        0
    } else {
        spec_count_added(t.drop_last(), st) + match t.last() {
            PieceView::Sequence { .. } => 0nat,
            PieceView::SpecialToken { id, .. } => if st.contains_key(id) {
                st[id].ids.len()
            } else {
                0nat
            },
        }
    }
}

/// The given sum capped at what a machine word holds.
pub open spec fn capped(n: nat) -> nat {
    if n > usize::MAX {
        usize::MAX as nat
    } else {
        n
    }
}

/// A list of strings joined by a separator.
pub open spec fn spec_join(l: Seq<Seq<char>>, sep: Seq<char>) -> Seq<char>
    decreases l.len(),
{
    if l.len() == 0 {
        Seq::empty()
    } else if l.len() == 1 {
        l[0]
    } else {
        spec_join(l.drop_last(), sep) + sep + l.last()
    }
}

/// The construction error when the pair template lacks a sequence.
pub open spec fn pair_err_msg() -> Seq<char> {
    "Template for `pair` must use both sequences"@
}

/// The construction error naming every undeclared special token.
pub open spec fn missing_err_msg(missing: Seq<Seq<char>>) -> Seq<char> {
    "Missing SpecialToken(s) with id(s) `"@ + spec_join(missing, ", "@) + "`"@
}

/// A post-processor that applies the matching template to one or two input
/// encodings, injecting the declared special tokens.
pub struct TemplateProcessing {
    pub(crate) single: Template,
    pub(crate) pair: Template,
    pub(crate) added_single: usize,
    pub(crate) added_pair: usize,
    pub(crate) special_tokens: Tokens,
}

impl TemplateProcessing {
    /// The pieces of the template used for one input sequence.
    pub closed spec fn single_view(&self) -> Seq<PieceView> {
        self.single@
    }

    /// The pieces of the template used for two input sequences.
    pub closed spec fn pair_view(&self) -> Seq<PieceView> {
        self.pair@
    }

    /// The declared special tokens, keyed by id.
    pub closed spec fn tokens_map(&self) -> Map<Seq<char>, SpecialTokenView> {
        self.special_tokens.view_map()
    }

    /// The stored count of tokens the single template adds.
    pub closed spec fn added_single_spec(&self) -> nat {
        self.added_single as nat
    }

    /// The stored count of tokens the pair template adds.
    pub closed spec fn added_pair_spec(&self) -> nat {
        self.added_pair as nat
    }

    /// Whatever templates are set refer only to declared special tokens,
    /// which the table keeps well formed.
    pub closed spec fn wf(&self) -> bool {
        &&& self.special_tokens.wf()
        &&& refs_declared(self.single@, self.special_tokens.view_map())
        &&& refs_declared(self.pair@, self.special_tokens.view_map())
    }

    /// A fresh builder with nothing set.
    pub fn builder() -> (r: TemplateProcessingBuilder)
        ensures
            r.single_set() == None::<Seq<PieceView>>,
            r.pair_set() == None::<Seq<PieceView>>,
            r.tokens_set() == None::<Map<Seq<char>, SpecialTokenView>>,
            r.tokens_wf(),
    {
        TemplateProcessingBuilder { single: None, pair: None, special_tokens: None }
    }

    /// Rebuilds a processor from its stored parts, deriving the added-token
    /// counters afresh; nothing is validated.
    pub fn from_parts(single: Template, pair: Template, special_tokens: Tokens) -> (r:
        TemplateProcessing)
        requires
            special_tokens.wf(),
        ensures
            r.single_view() == single@,
            r.pair_view() == pair@,
            r.tokens_map() == special_tokens.view_map(),
            r.added_single_spec() == capped(spec_count_added(single@, special_tokens.view_map())),
            r.added_pair_spec() == capped(spec_count_added(pair@, special_tokens.view_map())),
    {
        let added_single = count_added(&single, &special_tokens);
        let added_pair = count_added(&pair, &special_tokens);
        TemplateProcessing { single, pair, added_single, added_pair, special_tokens }
    }

    /// The single-sequence template, written canonically.
    pub fn get_single(&self) -> (r: String)
        ensures
            r@ == crate::template::spec_template_str(self.single_view()),
    {
        self.single.to_template_string()
    }

    /// Replaces the single-sequence template; nothing is revalidated.
    pub fn set_single(&mut self, single: Template)
        ensures
            final(self).single_view() == single@,
            final(self).pair_view() == old(self).pair_view(),
            final(self).tokens_map() == old(self).tokens_map(),
            final(self).added_single_spec() == old(self).added_single_spec(),
            final(self).added_pair_spec() == old(self).added_pair_spec(),
    {
        self.single = single;
    }

    /// The single-sequence template itself.
    pub fn get_single_template(&self) -> (r: &Template)
        ensures
            r@ == self.single_view(),
    {
        &self.single
    }

    /// The pair template.
    pub fn get_pair(&self) -> (r: &Template)
        ensures
            r@ == self.pair_view(),
    {
        &self.pair
    }

    /// Replaces the pair template; nothing is revalidated.
    pub fn set_pair(&mut self, pair: Template)
        ensures
            final(self).pair_view() == pair@,
            final(self).single_view() == old(self).single_view(),
            final(self).tokens_map() == old(self).tokens_map(),
            final(self).added_single_spec() == old(self).added_single_spec(),
            final(self).added_pair_spec() == old(self).added_pair_spec(),
    {
        self.pair = pair;
    }

    /// The stored count of tokens the single template adds.
    pub fn get_added_single(&self) -> (r: usize)
        ensures
            r == self.added_single_spec(),
    {
        self.added_single
    }

    /// Overrides the stored single-template counter.
    pub fn set_added_single(&mut self, added_single: usize)
        ensures
            final(self).added_single_spec() == added_single as nat,
            final(self).single_view() == old(self).single_view(),
            final(self).pair_view() == old(self).pair_view(),
            final(self).tokens_map() == old(self).tokens_map(),
            final(self).added_pair_spec() == old(self).added_pair_spec(),
    {
        self.added_single = added_single;
    }

    /// The stored count of tokens the pair template adds.
    pub fn get_added_pair(&self) -> (r: usize)
        ensures
            r == self.added_pair_spec(),
    {
        self.added_pair
    }

    /// Overrides the stored pair-template counter.
    pub fn set_added_pair(&mut self, added_pair: usize)
        ensures
            final(self).added_pair_spec() == added_pair as nat,
            final(self).single_view() == old(self).single_view(),
            final(self).pair_view() == old(self).pair_view(),
            final(self).tokens_map() == old(self).tokens_map(),
            final(self).added_single_spec() == old(self).added_single_spec(),
    {
        self.added_pair = added_pair;
    }

    /// The declared special tokens.
    pub fn get_special_tokens(&self) -> (r: &Tokens)
        ensures
            r.view_map() == self.tokens_map(),
            self.wf() ==> r.wf(),
    {
        &self.special_tokens
    }

    /// Replaces the declared special tokens; nothing is revalidated.
    pub fn set_special_tokens(&mut self, special_tokens: Tokens)
        ensures
            final(self).tokens_map() == special_tokens.view_map(),
            final(self).single_view() == old(self).single_view(),
            final(self).pair_view() == old(self).pair_view(),
            final(self).added_single_spec() == old(self).added_single_spec(),
            final(self).added_pair_spec() == old(self).added_pair_spec(),
    {
        self.special_tokens = special_tokens;
    }

    /// How many tokens post-processing will add: the derived counter of the
    /// pair template if a pair is given, of the single template otherwise.
    pub fn added_tokens(&self, is_pair: bool) -> (r: usize)
        ensures
            is_pair ==> r == self.added_pair_spec(),
            !is_pair ==> r == self.added_single_spec(),
    {
        if is_pair {
            self.added_pair
        } else {
            self.added_single
        }
    }
}

impl Default for TemplateProcessing {
    /// The templates `$0` and `$1`, no special tokens, zero counters.
    fn default() -> (r: Self)
        ensures
            r.single_view() == seq![
                PieceView::Sequence { id: Sequence::A, type_id: 0u32 },
            ],
            r.pair_view() == seq![PieceView::Sequence { id: Sequence::A, type_id: 1u32 }],
            r.tokens_map() == Map::<Seq<char>, SpecialTokenView>::empty(),
            r.added_single_spec() == 0,
            r.added_pair_spec() == 0,
            r.wf(),
    {
        let mut sv: Vec<Piece> = Vec::new();
        sv.push(Piece::Sequence { id: Sequence::A, type_id: 0 });
        let mut pv: Vec<Piece> = Vec::new();
        pv.push(Piece::Sequence { id: Sequence::A, type_id: 1 });
        let single = Template::from_pieces(sv);
        let pair = Template::from_pieces(pv);
        proof {
            assert(single@ =~= seq![PieceView::Sequence { id: Sequence::A, type_id: 0u32 }]);
            assert(pair@ =~= seq![PieceView::Sequence { id: Sequence::A, type_id: 1u32 }]);
        }
        TemplateProcessing {
            single,
            pair,
            added_single: 0,
            added_pair: 0,
            special_tokens: Tokens::new(),
        }
    }
}

/// Sums the token counts that a template's declared special-token
/// references contribute, capping at what a machine word holds.
pub(crate) fn count_added(template: &Template, special_tokens: &Tokens) -> (r: usize)
    requires
        special_tokens.wf(),
    ensures
        r as nat == capped(spec_count_added(template@, special_tokens.view_map())),
{
    let ghost st = special_tokens.view_map();
    let mut total: usize = 0;
    let mut i: usize = 0;
    let n = template.len();
    proof {
        assert(template@.take(0) =~= Seq::<PieceView>::empty());
    }
    while i < n
        invariant
            i <= n,
            n == template@.len(),
            st == special_tokens.view_map(),
            special_tokens.wf(),
            total as nat == capped(spec_count_added(template@.take(i as int), st)),
        decreases n - i,
    {
        let piece = template.piece(i);
        let add: usize = match piece {
            Piece::Sequence { .. } => 0,
            Piece::SpecialToken { id, .. } => {
                match special_tokens.get(id.as_str()) {
                    Some(tok) => tok.ids().len(),
                    None => 0,
                }
            },
        };
        total = total.saturating_add(add);
        i = i + 1;
        proof {
            assert(template@.take(i as int).drop_last() =~= template@.take(i - 1));
            assert(template@.take(i as int).last() == template@[i - 1]);
        }
    }
    proof {
        assert(template@.take(n as int) =~= template@);
    }
    total
}

/// Builds a `TemplateProcessing` step by step; unset parts get defaults at
/// build time (`$0` for single, `$A:0 $B:1` for pair, no special tokens).
pub struct TemplateProcessingBuilder {
    pub(crate) single: Option<Template>,
    pub(crate) pair: Option<Template>,
    pub(crate) special_tokens: Option<Tokens>,
}

impl TemplateProcessingBuilder {
    /// The single template set so far, as pieces.
    pub closed spec fn single_set(&self) -> Option<Seq<PieceView>> {
        match self.single {
            Some(t) => Some(t@),
            None => None,
        }
    }

    /// The pair template set so far, as pieces.
    pub closed spec fn pair_set(&self) -> Option<Seq<PieceView>> {
        match self.pair {
            Some(t) => Some(t@),
            None => None,
        }
    }

    /// The special tokens set so far, as a map.
    pub closed spec fn tokens_set(&self) -> Option<Map<Seq<char>, SpecialTokenView>> {
        match self.special_tokens {
            Some(t) => Some(t.view_map()),
            None => None,
        }
    }

    /// Whether the declared special tokens are well formed (vacuously true
    /// while unset).
    pub closed spec fn tokens_wf(&self) -> bool {
        match self.special_tokens {
            Some(t) => t.wf(),
            None => true,
        }
    }

    /// The template the built processor will use for one sequence.
    pub open spec fn effective_single(&self) -> Seq<PieceView> {
        match self.single_set() {
            Some(t) => t,
            None => seq![PieceView::Sequence { id: Sequence::A, type_id: 0u32 }],
        }
    }

    /// The template the built processor will use for two sequences.
    pub open spec fn effective_pair(&self) -> Seq<PieceView> {
        match self.pair_set() {
            Some(t) => t,
            None => seq![
                PieceView::Sequence { id: Sequence::A, type_id: 0u32 },
                PieceView::Sequence { id: Sequence::B, type_id: 1u32 },
            ],
        }
    }

    /// The special tokens the built processor will declare.
    pub open spec fn effective_tokens(&self) -> Map<Seq<char>, SpecialTokenView> {
        match self.tokens_set() {
            Some(m) => m,
            None => Map::empty(),
        }
    }

    /// Parses and sets the single-sequence template from a string.
    pub fn try_single(self, s: &str) -> (r: Result<Self, String>)
        ensures
            r is Ok <==> crate::template::spec_parse_template(s@) is Ok,
            r is Ok ==> r->Ok_0.single_set() == Some(
                crate::template::spec_parse_template(s@)->Ok_0,
            ) && r->Ok_0.pair_set() == self.pair_set() && r->Ok_0.tokens_set()
                == self.tokens_set() && r->Ok_0.tokens_wf() == self.tokens_wf(),
            r is Err ==> r->Err_0@ == crate::template::spec_parse_template(s@)->Err_0,
    {
        match Template::parse(s) {
            Ok(t) => Ok(Self { single: Some(t), ..self }),
            Err(e) => Err(e),
        }
    }

    /// Parses and sets the single-sequence template from a piece list.
    pub fn try_single_list(self, parts: &Vec<String>) -> (r: Result<Self, String>)
        ensures
            r is Ok <==> crate::template::spec_parse_pieces(parts.deep_view()) is Ok,
            r is Ok ==> r->Ok_0.single_set() == Some(
                crate::template::spec_parse_pieces(parts.deep_view())->Ok_0,
            ) && r->Ok_0.pair_set() == self.pair_set() && r->Ok_0.tokens_set()
                == self.tokens_set() && r->Ok_0.tokens_wf() == self.tokens_wf(),
            r is Err ==> r->Err_0@ == crate::template::spec_parse_pieces(
                parts.deep_view(),
            )->Err_0,
    {
        match Template::parse_list(parts) {
            Ok(t) => Ok(Self { single: Some(t), ..self }),
            Err(e) => Err(e),
        }
    }

    /// Parses and sets the pair template from a string.
    pub fn try_pair(self, s: &str) -> (r: Result<Self, String>)
        ensures
            r is Ok <==> crate::template::spec_parse_template(s@) is Ok,
            r is Ok ==> r->Ok_0.pair_set() == Some(
                crate::template::spec_parse_template(s@)->Ok_0,
            ) && r->Ok_0.single_set() == self.single_set() && r->Ok_0.tokens_set()
                == self.tokens_set() && r->Ok_0.tokens_wf() == self.tokens_wf(),
            r is Err ==> r->Err_0@ == crate::template::spec_parse_template(s@)->Err_0,
    {
        match Template::parse(s) {
            Ok(t) => Ok(Self { pair: Some(t), ..self }),
            Err(e) => Err(e),
        }
    }

    /// Parses and sets the pair template from a piece list.
    pub fn try_pair_list(self, parts: &Vec<String>) -> (r: Result<Self, String>)
        ensures
            r is Ok <==> crate::template::spec_parse_pieces(parts.deep_view()) is Ok,
            r is Ok ==> r->Ok_0.pair_set() == Some(
                crate::template::spec_parse_pieces(parts.deep_view())->Ok_0,
            ) && r->Ok_0.single_set() == self.single_set() && r->Ok_0.tokens_set()
                == self.tokens_set() && r->Ok_0.tokens_wf() == self.tokens_wf(),
            r is Err ==> r->Err_0@ == crate::template::spec_parse_pieces(
                parts.deep_view(),
            )->Err_0,
    {
        match Template::parse_list(parts) {
            Ok(t) => Ok(Self { pair: Some(t), ..self }),
            Err(e) => Err(e),
        }
    }

    /// Declares the special tokens from a list; a repeated id keeps the
    /// later token.
    pub fn special_tokens(self, list: Vec<SpecialToken>) -> (r: Self)
        requires
            forall|k: int| 0 <= k < list@.len() ==> special_token_wf(#[trigger] list@[k]@),
        ensures
            r.tokens_set() == Some(crate::special::spec_tokens_map(list.deep_view())),
            r.tokens_wf(),
            r.single_set() == self.single_set(),
            r.pair_set() == self.pair_set(),
    {
        let toks = Tokens::from_list(list);
        Self { special_tokens: Some(toks), ..self }
    }

    /// Declares the special tokens from an already-built collection.
    pub fn special_tokens_map(self, tokens: Tokens) -> (r: Self)
        requires
            tokens.wf(),
        ensures
            r.tokens_set() == Some(tokens.view_map()),
            r.tokens_wf(),
            r.single_set() == self.single_set(),
            r.pair_set() == self.pair_set(),
    {
        Self { special_tokens: Some(tokens), ..self }
    }

    /// How many tokens the single (`true`) or pair (`false`) template would
    /// add, given what is set so far; an unset template adds none.
    pub fn default_added(&self, is_single: bool) -> (r: usize)
        requires
            self.tokens_wf(),
        ensures
            is_single && self.single_set() is Some ==> r as nat == capped(
                spec_count_added(self.single_set()->Some_0, self.effective_tokens()),
            ),
            !is_single && self.pair_set() is Some ==> r as nat == capped(
                spec_count_added(self.pair_set()->Some_0, self.effective_tokens()),
            ),
            is_single && self.single_set() is None ==> r == 0,
            !is_single && self.pair_set() is None ==> r == 0,
    {
        let container = if is_single {
            &self.single
        } else {
            &self.pair
        };
        match container {
            None => 0,
            Some(template) => {
                match &self.special_tokens {
                    Some(toks) => count_added(template, toks),
                    None => {
                        let empty_tokens = Tokens::new();
                        let r = count_added(template, &empty_tokens);
                        r
                    },
                }
            },
        }
    }

    /// Builds the processor.  This fails if the pair template does not use
    /// both sequences, naming that requirement, or if a template refers to
    /// an undeclared special token, naming every missing id; otherwise the
    /// added-token counters are derived and the processor is returned.
    pub fn build(self) -> (r: Result<TemplateProcessing, String>)
        requires
            self.tokens_wf(),
        ensures
            r is Ok <==> (has_seq(self.effective_pair(), Sequence::A) && has_seq(
                self.effective_pair(),
                Sequence::B,
            ) && refs_declared(self.effective_single(), self.effective_tokens())
                && refs_declared(self.effective_pair(), self.effective_tokens())),
            !(has_seq(self.effective_pair(), Sequence::A) && has_seq(
                self.effective_pair(),
                Sequence::B,
            )) ==> r is Err && r->Err_0@ == pair_err_msg(),
            (has_seq(self.effective_pair(), Sequence::A) && has_seq(
                self.effective_pair(),
                Sequence::B,
            ) && r is Err) ==> r->Err_0@ == missing_err_msg(
                missing_after(
                    self.effective_single() + self.effective_pair(),
                    self.effective_tokens(),
                    Seq::empty(),
                ),
            ),
            r is Ok ==> {
                &&& r->Ok_0.wf()
                &&& r->Ok_0.single_view() == self.effective_single()
                &&& r->Ok_0.pair_view() == self.effective_pair()
                &&& r->Ok_0.tokens_map() == self.effective_tokens()
                &&& r->Ok_0.added_single_spec() == capped(
                    spec_count_added(self.effective_single(), self.effective_tokens()),
                )
                &&& r->Ok_0.added_pair_spec() == capped(
                    spec_count_added(self.effective_pair(), self.effective_tokens()),
                )
            },
    {
        let single = match self.single {
            Some(t) => t,
            None => {
                let mut sv: Vec<Piece> = Vec::new();
                sv.push(Piece::Sequence { id: Sequence::A, type_id: 0 });
                let t = Template::from_pieces(sv);
                proof {
                    assert(t@ =~= seq![PieceView::Sequence { id: Sequence::A, type_id: 0u32 }]);
                }
                t
            },
        };
        let pair = match self.pair {
            Some(t) => t,
            None => {
                let mut pv: Vec<Piece> = Vec::new();
                pv.push(Piece::Sequence { id: Sequence::A, type_id: 0 });
                pv.push(Piece::Sequence { id: Sequence::B, type_id: 1 });
                let t = Template::from_pieces(pv);
                proof {
                    assert(t@ =~= seq![
                        PieceView::Sequence { id: Sequence::A, type_id: 0u32 },
                        PieceView::Sequence { id: Sequence::B, type_id: 1u32 },
                    ]);
                }
                t
            },
        };
        let special_tokens = match self.special_tokens {
            Some(t) => t,
            None => Tokens::new(),
        };
        let ghost st = special_tokens.view_map();

        // The pair template must use both sequences.
        let mut has_a = false;
        let mut has_b = false;
        let mut i: usize = 0;
        while i < pair.len()
            invariant
                i <= pair@.len(),
                has_a <==> (exists|k: int| 0 <= k < i && piece_is_seq(#[trigger] pair@[k], Sequence::A)),
                has_b <==> (exists|k: int| 0 <= k < i && piece_is_seq(#[trigger] pair@[k], Sequence::B)),
            decreases pair@.len() - i,
        {
            match pair.piece(i) {
                Piece::Sequence { id: Sequence::A, .. } => {
                    proof {
                        assert(piece_is_seq(pair@[i as int], Sequence::A));
                    }
                    has_a = true;
                },
                Piece::Sequence { id: Sequence::B, .. } => {
                    proof {
                        assert(piece_is_seq(pair@[i as int], Sequence::B));
                    }
                    has_b = true;
                },
                Piece::SpecialToken { .. } => {},
            }
            i = i + 1;
        }
        if !(has_a && has_b) {
            return Err(("Template for `pair` must use both sequences").to_owned());
        }

        // Every referenced special token must be declared.
        let all = concat_pieces(&single, &pair);
        let ghost all_views = single@ + pair@;
        let mut missing: Vec<String> = Vec::new();
        let mut j: usize = 0;
        proof {
            assert(all_views.skip(0) =~= all_views);
            assert(missing.deep_view() =~= Seq::<Seq<char>>::empty());
        }
        while j < all.len()
            invariant
                j <= all@.len(),
                all@.len() == all_views.len(),
                forall|k: int| 0 <= k < all@.len() ==> #[trigger] all@[k]@ == all_views[k],
                st == special_tokens.view_map(),
                special_tokens.wf(),
                missing_after(all_views, st, Seq::empty()) == missing_after(
                    all_views.skip(j as int),
                    st,
                    missing.deep_view(),
                ),
            decreases all@.len() - j,
        {
            let ghost pre = missing.deep_view();
            match &all[j] {
                Piece::Sequence { .. } => {},
                Piece::SpecialToken { id, .. } => {
                    if !special_tokens.contains(id.as_str()) && !contains_string(
                        &missing,
                        id,
                    ) {
                        missing.push(id.clone());
                        proof {
                            assert(missing.deep_view() =~= pre.push(id@));
                        }
                    }
                },
            }
            j = j + 1;
            proof {
                let tail = all_views.skip(j - 1);
                assert(tail.first() == all_views[j - 1]);
                assert(tail.drop_first() =~= all_views.skip(j as int));
                assert(all@[j - 1]@ == all_views[j - 1]);
            }
        }
        proof {
            assert(all_views.skip(all_views.len() as int) =~= Seq::<PieceView>::empty());
            lemma_missing_after_empty(all_views, st, Seq::empty());
        }
        if missing.len() > 0 {
            let mut msg = ("Missing SpecialToken(s) with id(s) `").to_owned();
            let joined = join_strings(&missing, ", ");
            msg.append(joined.as_str());
            msg.append("`");
            proof {
                assert(msg@ =~= missing_err_msg(missing.deep_view()));
                assert(missing_after(all_views, st, Seq::empty()).len() > 0);
                let k = choose|k: int|
                    0 <= k < all_views.len() && piece_missing(#[trigger] all_views[k], st)
                        && !Seq::<Seq<char>>::empty().contains(all_views[k]->SpecialToken_id);
                if k < single@.len() {
                    assert(all_views[k] == single@[k]);
                    assert(!refs_declared(single@, st));
                } else {
                    assert(all_views[k] == pair@[k - single@.len()]);
                    assert(!refs_declared(pair@, st));
                }
            }
            return Err(msg);
        }
        proof {
            assert forall|k: int| 0 <= k < single@.len() implies !piece_missing(
                #[trigger] single@[k],
                st,
            ) by {
                assert(all_views[k] == single@[k]);
                assert(!(piece_missing(all_views[k], st) && !Seq::<Seq<char>>::empty().contains(
                    all_views[k]->SpecialToken_id,
                )));
            }
            assert forall|k: int| 0 <= k < pair@.len() implies !piece_missing(
                #[trigger] pair@[k],
                st,
            ) by {
                assert(all_views[k + single@.len()] == pair@[k]);
            }
        }
        let added_single = count_added(&single, &special_tokens);
        let added_pair = count_added(&pair, &special_tokens);
        Ok(TemplateProcessing { single, pair, added_single, added_pair, special_tokens })
    }
}

/// The pieces of both templates, one list: the single template's pieces,
/// then the pair template's.
fn concat_pieces(a: &Template, b: &Template) -> (r: Vec<Piece>)
    ensures
        r@.len() == a@.len() + b@.len(),
        forall|k: int| 0 <= k < r@.len() ==> #[trigger] r@[k]@ == (a@ + b@)[k],
{
    let mut r: Vec<Piece> = Vec::new();
    let mut i: usize = 0;
    while i < a.len()
        invariant
            i <= a@.len(),
            r@.len() == i,
            forall|k: int| 0 <= k < i ==> #[trigger] r@[k]@ == a@[k],
        decreases a@.len() - i,
    {
        r.push(a.piece(i).clone());
        i = i + 1;
    }
    let mut j: usize = 0;
    while j < b.len()
        invariant
            j <= b@.len(),
            r@.len() == a@.len() + j,
            forall|k: int| 0 <= k < a@.len() ==> #[trigger] r@[k]@ == a@[k],
            forall|k: int| a@.len() <= k < a@.len() + j ==> #[trigger] r@[k]@ == b@[k - a@.len()],
        decreases b@.len() - j,
    {
        r.push(b.piece(j).clone());
        j = j + 1;
    }
    r
}

/// Whether the list holds a string with these characters.
fn contains_string(v: &Vec<String>, s: &String) -> (r: bool)
    ensures
        r == v.deep_view().contains(s@),
{
    let mut i: usize = 0;
    while i < v.len()
        invariant
            i <= v@.len(),
            forall|k: int| 0 <= k < i ==> v.deep_view()[k] != s@,
        decreases v@.len() - i,
    {
        if v[i] == *s {
            proof {
                assert(v.deep_view()[i as int] == s@);
            }
            return true;
        }
        proof {
            assert(v.deep_view()[i as int] == v@[i as int]@);
        }
        i = i + 1;
    }
    proof {
        if v.deep_view().contains(s@) {
            let k = choose|k: int| 0 <= k < v.deep_view().len() && v.deep_view()[k] == s@;
            assert(v.deep_view()[k] != s@);
        }
    }
    false
}

/// Joins strings with a separator.
fn join_strings(v: &Vec<String>, sep: &str) -> (r: String)
    ensures
        r@ == spec_join(v.deep_view(), sep@),
{
    let mut out = String::new();
    let mut i: usize = 0;
    while i < v.len()
        invariant
            i <= v@.len(),
            v.deep_view().len() == v@.len(),
            out@ == spec_join(v.deep_view().take(i as int), sep@),
        decreases v@.len() - i,
    {
        if i > 0 {
            out.append(sep);
        }
        out.append(v[i].as_str());
        i = i + 1;
        proof {
            let d = v.deep_view();
            assert(d.take(i as int).drop_last() =~= d.take(i - 1));
            assert(d.take(i as int).last() == d[i - 1]);
            assert(d[i - 1] == v@[i - 1]@);
            if i == 1 {
                assert(out@ =~= spec_join(d.take(i as int), sep@));
            } else {
                assert(out@ =~= spec_join(d.take(i as int), sep@));
            }
        }
    }
    proof {
        assert(v.deep_view().take(v@.len() as int) =~= v.deep_view());
    }
    out
}

} // verus!
