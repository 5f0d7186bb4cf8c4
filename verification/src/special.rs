//! Special tokens: tokens injected by the post-processor rather than produced
//! by tokenizing input text, and the keyed collection a template processor
//! declares them in.

use vstd::prelude::*;
use vstd::hash_map::StringHashMap;

verus! {

/// A named bunch of token ids and surface strings, injected as one unit by a
/// template.  The ids and the surface strings are parallel: there are exactly
/// as many of one as of the other.
#[derive(Debug, PartialEq, Eq)]
pub struct SpecialToken {
    /// The unique key identifying this special token inside a template.
    pub(crate) id: String,
    /// The token ids contributed when the template is applied.
    pub(crate) ids: Vec<u32>,
    /// The surface strings contributed, parallel to `ids`.
    pub(crate) tokens: Vec<String>,
}

/// The mathematical value of a `SpecialToken`.
#[verifier::ext_equal]
pub struct SpecialTokenView {
    pub id: Seq<char>,
    pub ids: Seq<u32>,
    pub tokens: Seq<Seq<char>>,
}

impl View for SpecialToken {
    type V = SpecialTokenView;

    closed spec fn view(&self) -> SpecialTokenView {
        SpecialTokenView { id: self.id@, ids: self.ids@, tokens: self.tokens.deep_view() }
    }
}

impl DeepView for SpecialToken {
    type V = SpecialTokenView;

    open spec fn deep_view(&self) -> SpecialTokenView {
        self.view()
    }
}

/// A special token is well formed when its ids and surface strings are
/// parallel arrays.
pub open spec fn special_token_wf(t: SpecialTokenView) -> bool {
    t.ids.len() == t.tokens.len()
}

/// Copies a vector of numbers element by element.
pub(crate) fn clone_u32s(v: &Vec<u32>) -> (r: Vec<u32>)
    ensures
        r@ == v@,
{
    let mut r: Vec<u32> = Vec::new();
    let mut i: usize = 0;
    while i < v.len()
        invariant
            i <= v@.len(),
            r@ == v@.take(i as int),
        decreases v@.len() - i,
    {
        r.push(v[i]);
        i = i + 1;
        proof {
            assert(r@ =~= v@.take(i as int));
        }
    }
    proof {
        assert(r@ =~= v@);
    }
    r
}

/// Copies a vector of strings element by element.
pub(crate) fn clone_strings(v: &Vec<String>) -> (r: Vec<String>)
    ensures
        r.deep_view() == v.deep_view(),
        r@.len() == v@.len(),
{
    let mut r: Vec<String> = Vec::new();
    let mut i: usize = 0;
    while i < v.len()
        invariant
            i <= v@.len(),
            r@.len() == i,
            r.deep_view() == v.deep_view().take(i as int),
        decreases v@.len() - i,
    {
        r.push(v[i].clone());
        i = i + 1;
        proof {
            assert(r.deep_view() =~= v.deep_view().take(i as int));
        }
    }
    proof {
        assert(r.deep_view() =~= v.deep_view());
    }
    r
}

impl Clone for SpecialToken {
    fn clone(&self) -> (r: Self)
        ensures
            r@ == self@,
    {
        SpecialToken {
            id: self.id.clone(),
            ids: clone_u32s(&self.ids),
            tokens: clone_strings(&self.tokens),
        }
    }
}

impl SpecialToken {
    /// Builds a special token from its key, ids and surface strings.  This
    /// fails exactly when the ids and the strings are not of the same length.
    pub fn new(id: String, ids: Vec<u32>, tokens: Vec<String>) -> (r: Result<Self, String>)
        ensures
            r is Ok <==> ids@.len() == tokens@.len(),
            r is Ok ==> special_token_wf(r->Ok_0@),
            r is Ok ==> r->Ok_0@ == (SpecialTokenView {
                id: id@,
                ids: ids@,
                tokens: tokens.deep_view(),
            }),
            r is Err ==> r->Err_0@ == "SpecialToken: ids and tokens must be of the same length"@,
    {
        if ids.len() != tokens.len() {
            Err(("SpecialToken: ids and tokens must be of the same length").to_owned())
        } else {
            Ok(Self { id, ids, tokens })
        }
    }

    /// Builds the usual one-entry special token from a key and a single id:
    /// the key doubles as the surface string.
    pub fn from_pair(id: &str, token_id: u32) -> (r: Self)
        ensures
            r@.id == id@,
            r@.ids == seq![token_id],
            r@.tokens == seq![id@],
            special_token_wf(r@),
    {
        let mut ids: Vec<u32> = Vec::new();
        ids.push(token_id);
        let mut tokens: Vec<String> = Vec::new();
        tokens.push(id.to_owned());
        let r = SpecialToken { id: id.to_owned(), ids, tokens };
        proof {
            assert(r@.ids =~= seq![token_id]);
            assert(r@.tokens =~= seq![id@]);
        }
        r
    }

    /// The key identifying this special token.
    pub fn id(&self) -> (r: &String)
        ensures
            r@ == self@.id,
    {
        &self.id
    }

    /// The token ids this special token contributes.
    pub fn ids(&self) -> (r: &Vec<u32>)
        ensures
            r@ == self@.ids,
    {
        &self.ids
    }

    /// The surface strings this special token contributes.
    pub fn tokens(&self) -> (r: &Vec<String>)
        ensures
            r.deep_view() == self@.tokens,
    {
        &self.tokens
    }
}

/// A collection of special tokens keyed by their `id`.  Insertion order of
/// distinct keys is kept for introspection; a repeated key replaces the
/// earlier entry.
pub struct Tokens {
    pub(crate) entries: Vec<SpecialToken>,
    pub(crate) index: StringHashMap<usize>,
}

impl Tokens {
    /// The key-to-token map this collection denotes.
    pub closed spec fn view_map(&self) -> Map<Seq<char>, SpecialTokenView> {
        Map::new(
            |id: Seq<char>| self.index@.contains_key(id),
            |id: Seq<char>| self.entries@[self.index@[id] as int]@,
        )
    }

    /// How many distinct keys are declared.
    pub closed spec fn spec_len(&self) -> nat {
        self.entries@.len()
    }

    /// The declared tokens in insertion order, as mathematical values.
    pub closed spec fn entry_views(&self) -> Seq<SpecialTokenView> {
        self.entries.deep_view()
    }

    /// The index is exactly a position table for the entry list: every entry
    /// is indexed under its key, and every indexed key points back at its
    /// entry.
    pub closed spec fn wf(&self) -> bool {
        &&& forall|k: int|
            0 <= k < self.entries@.len() ==> special_token_wf(#[trigger] self.entries@[k]@)
        &&& forall|k: int|
            0 <= k < self.entries@.len() ==> self.index@.contains_key(
                #[trigger] self.entries@[k]@.id,
            ) && self.index@[self.entries@[k]@.id] == k
        &&& forall|id: Seq<char>|
            #[trigger] self.index@.contains_key(id) ==> self.index@[id] < self.entries@.len()
                && self.entries@[self.index@[id] as int]@.id == id
    }

    /// An empty collection.
    pub fn new() -> (r: Tokens)
        ensures
            r.wf(),
            r.view_map() == Map::<Seq<char>, SpecialTokenView>::empty(),
            r.spec_len() == 0,
    {
        let r = Tokens { entries: Vec::new(), index: StringHashMap::new() };
        proof {
            assert(r.view_map() =~= Map::<Seq<char>, SpecialTokenView>::empty());
        }
        r
    }

    /// Inserts a token under its key, replacing any earlier token with the
    /// same key.
    pub fn insert(&mut self, tok: SpecialToken)
        requires
            old(self).wf(),
            special_token_wf(tok@),
        ensures
            final(self).wf(),
            final(self).view_map() == old(self).view_map().insert(tok@.id, tok@),
    {
        let id = tok.id.clone();
        match self.index.get(id.as_str()) {
            Some(k_ref) => {
                let k = *k_ref;
                self.entries.set(k, tok);
                proof {
                    assert(final(self).view_map() =~= old(self).view_map().insert(tok@.id, tok@));
                }
            },
            None => {
                let k = self.entries.len();
                self.entries.push(tok);
                self.index.insert(id, k);
                proof {
                    assert forall|j: int| 0 <= j < self.entries@.len() implies self.index@
                        .contains_key(#[trigger] self.entries@[j]@.id) && self.index@[self.entries@[j]@.id]
                        == j by {
                        if j < self.entries@.len() - 1 {
                            assert(self.entries@[j] == old(self).entries@[j]);
                        }
                    }
                    assert(final(self).view_map() =~= old(self).view_map().insert(tok@.id, tok@));
                }
            },
        }
    }

    /// Builds a collection from a list of tokens; a later token with an
    /// already-seen key replaces the earlier one.
    pub fn from_list(list: Vec<SpecialToken>) -> (r: Tokens)
        requires
            forall|k: int| 0 <= k < list@.len() ==> special_token_wf(#[trigger] list@[k]@),
        ensures
            r.wf(),
            r.view_map() == spec_tokens_map(list.deep_view()),
    {
        let mut r = Tokens::new();
        let mut i: usize = 0;
        proof {
            assert(list.deep_view().take(0) =~= Seq::<SpecialTokenView>::empty());
        }
        while i < list.len()
            invariant
                i <= list@.len(),
                list.deep_view().len() == list@.len(),
                forall|k: int| 0 <= k < list@.len() ==> special_token_wf(#[trigger] list@[k]@),
                r.wf(),
                r.view_map() == spec_tokens_map(list.deep_view().take(i as int)),
            decreases list@.len() - i,
        {
            let tok = (&list[i]).clone();
            proof {
                assert(list.deep_view()[i as int] == list@[i as int]@);
                assert(special_token_wf(list@[i as int]@));
            }
            r.insert(tok);
            i = i + 1;
            proof {
                assert(list.deep_view().take(i as int).drop_last() =~= list.deep_view().take(
                    i as int - 1,
                ));
            }
        }
        proof {
            assert(list.deep_view().take(list@.len() as int) =~= list.deep_view());
        }
        r
    }

    /// How many distinct keys are declared.
    pub fn len(&self) -> (r: usize)
        requires
            self.wf(),
        ensures
            r == self.spec_len(),
    {
        self.entries.len()
    }

    /// Looks a special token up by its key.
    pub fn get(&self, id: &str) -> (r: Option<&SpecialToken>)
        requires
            self.wf(),
        ensures
            match r {
                Some(t) => self.view_map().contains_key(id@) && t@ == self.view_map()[id@]
                    && special_token_wf(t@),
                None => !self.view_map().contains_key(id@),
            },
    {
        match self.index.get(id) {
            Some(k_ref) => Some(&self.entries[*k_ref]),
            None => None,
        }
    }

    /// Whether a key is declared.
    pub fn contains(&self, id: &str) -> (r: bool)
        requires
            self.wf(),
        ensures
            r == self.view_map().contains_key(id@),
    {
        self.index.contains_key(id)
    }

    /// The declared tokens, in insertion order of their keys.
    pub fn entries(&self) -> (r: &Vec<SpecialToken>)
        ensures
            r.deep_view() == self.entry_views(),
    {
        &self.entries
    }
}

/// The map a token list denotes: each token keyed by its id, later entries
/// replacing earlier ones.
pub open spec fn spec_tokens_map(l: Seq<SpecialTokenView>) -> Map<Seq<char>, SpecialTokenView>
    decreases l.len(),
{
    if l.len() == 0 {
        Map::empty()
    } else {
        spec_tokens_map(l.drop_last()).insert(l.last().id, l.last())
    }
}

} // verus!
