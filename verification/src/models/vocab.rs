//! The vocabulary: a bidirectional mapping between token strings and ids,
//! with unique strings and unique ids.

use vstd::prelude::*;
use vstd::hash_map::{HashMapWithView, StringHashMap};

use crate::special::clone_u32s;

verus! {

/// The map an entry list denotes: each token keyed to its id, a later
/// entry replacing an earlier one with the same token.
pub open spec fn spec_entries_map(l: Seq<(Seq<char>, u32)>) -> Map<Seq<char>, u32>
    decreases l.len(),
{
    if l.len() == 0 {
        Map::empty()
    } else {
        spec_entries_map(l.drop_last()).insert(l.last().0, l.last().1)
    }
}

/// The entry list of a vector of declared pairs, as mathematical values.
pub open spec fn entry_views_of(l: Seq<(String, u32)>) -> Seq<(Seq<char>, u32)> {
    Seq::new(l.len(), |k: int| (l[k].0@, l[k].1))
}

/// A token-to-id table with its reverse, plus the entry list in insertion
/// order for introspection and persistence.
pub struct Vocab {
    pub entries: Vec<(String, u32)>,
    pub forward: StringHashMap<u32>,
    pub reverse: HashMapWithView<u32, String>,
}

impl Vocab {
    /// The token-to-id mapping.
    pub open spec fn view_map(&self) -> Map<Seq<char>, u32> {
        self.forward@
    }

    /// The entries, in insertion order.
    pub open spec fn entry_views(&self) -> Seq<(Seq<char>, u32)> {
        Seq::new(self.entries@.len(), |k: int| (self.entries@[k].0@, self.entries@[k].1))
    }

    /// Entries, forward table and reverse table all present one mapping,
    /// with unique token strings and unique ids.
    pub open spec fn wf(&self) -> bool {
        &&& forall|k: int|
            0 <= k < self.entries@.len() ==> self.forward@.contains_key(
                (#[trigger] self.entries@[k]).0@,
            ) && self.forward@[self.entries@[k].0@] == self.entries@[k].1
        &&& forall|k: int|
            0 <= k < self.entries@.len() ==> self.reverse@.contains_key(
                (#[trigger] self.entries@[k]).1,
            ) && self.reverse@[self.entries@[k].1]@ == self.entries@[k].0@
        &&& forall|t: Seq<char>|
            #[trigger] self.forward@.contains_key(t) ==> (exists|k: int|
                0 <= k < self.entries@.len() && (#[trigger] self.entries@[k]).0@ == t
                    && self.entries@[k].1 == self.forward@[t])
        &&& forall|id: u32|
            #[trigger] self.reverse@.contains_key(id) ==> (exists|k: int|
                0 <= k < self.entries@.len() && (#[trigger] self.entries@[k]).1 == id)
        &&& forall|k1: int, k2: int|
            0 <= k1 < k2 < self.entries@.len() ==> (#[trigger] self.entries@[k1]).0@ != (
            #[trigger] self.entries@[k2]).0@ && self.entries@[k1].1 != self.entries@[k2].1
    }

    /// An empty vocabulary.
    pub fn new() -> (r: Vocab)
        ensures
            r.wf(),
            r.view_map() == Map::<Seq<char>, u32>::empty(),
            r.entry_views() == Seq::<(Seq<char>, u32)>::empty(),
            r.entries@.len() == 0,
    {
        let r = Vocab {
            entries: Vec::new(),
            forward: StringHashMap::new(),
            reverse: HashMapWithView::new(),
        };
        proof {
            assert(r.entry_views() =~= Seq::<(Seq<char>, u32)>::empty());
        }
        r
    }

    /// Builds a vocabulary from entries whose token strings and ids are both
    /// unique, as the data model declares them.
    pub fn from_entries(list: Vec<(String, u32)>) -> (r: Vocab)
        requires
            forall|k1: int, k2: int|
                0 <= k1 < k2 < list@.len() ==> (#[trigger] list@[k1]).0@ != (
                #[trigger] list@[k2]).0@ && list@[k1].1 != list@[k2].1,
        ensures
            r.wf(),
            r.entry_views() == entry_views_of(list@),
            r.view_map() == spec_entries_map(entry_views_of(list@)),
            forall|k: int|
                0 <= k < list@.len() ==> r.view_map().contains_key((#[trigger] list@[k]).0@)
                    && r.view_map()[list@[k].0@] == list@[k].1,
            forall|t: Seq<char>|
                #[trigger] r.view_map().contains_key(t) ==> (exists|k: int|
                    0 <= k < list@.len() && (#[trigger] list@[k]).0@ == t),
    {
        let ghost evs = entry_views_of(list@);
        let mut r = Vocab::new();
        let mut i: usize = 0;
        proof {
            assert(evs.take(0) =~= Seq::<(Seq<char>, u32)>::empty());
        }
        while i < list.len()
            invariant
                i <= list@.len(),
                evs == entry_views_of(list@),
                evs.len() == list@.len(),
                r.forward@ == spec_entries_map(evs.take(i as int)),
                forall|k1: int, k2: int|
                    0 <= k1 < k2 < list@.len() ==> (#[trigger] list@[k1]).0@ != (
                    #[trigger] list@[k2]).0@ && list@[k1].1 != list@[k2].1,
                r.wf(),
                r.entries@.len() == i,
                forall|k: int| 0 <= k < i ==> (#[trigger] r.entries@[k]).0@ == list@[k].0@
                    && r.entries@[k].1 == list@[k].1,
                forall|t: Seq<char>|
                    #[trigger] r.forward@.contains_key(t) ==> (exists|k: int|
                        0 <= k < i && (#[trigger] list@[k]).0@ == t),
            decreases list@.len() - i,
        {
            let tok = list[i].0.clone();
            let id = list[i].1;
            let ghost old_entries = r.entries@;
            let ghost old_forward = r.forward@;
            let ghost old_reverse = r.reverse@;
            proof {
                if r.forward@.contains_key(tok@) {
                    let k = choose|k: int| 0 <= k < i && (#[trigger] list@[k]).0@ == tok@;
                    assert(list@[k].0@ == list@[i as int].0@);
                }
                assert(!r.forward@.contains_key(tok@));
                if r.reverse@.contains_key(id) {
                    let k = choose|k: int|
                        0 <= k < r.entries@.len() && (#[trigger] r.entries@[k]).1 == id;
                    assert(list@[k].1 == list@[i as int].1);
                }
                assert(!r.reverse@.contains_key(id));
            }
            r.forward.insert(tok.clone(), id);
            r.reverse.insert(id, tok.clone());
            r.entries.push((tok, id));
            i = i + 1;
            proof {
                assert(evs.take(i as int).drop_last() =~= evs.take(i - 1));
                assert(evs.take(i as int).last() == evs[i - 1]);
                assert(evs[i - 1] == (list@[i - 1].0@, list@[i - 1].1));
                assert(r.forward@ == spec_entries_map(evs.take(i as int)));
                assert forall|k: int| 0 <= k < i implies (#[trigger] r.entries@[k]).0@
                    == list@[k].0@ && r.entries@[k].1 == list@[k].1 by {
                    if k < i - 1 {
                        assert(r.entries@[k] == old_entries[k]);
                    }
                }
                assert forall|k1: int, k2: int|
                    0 <= k1 < k2 < r.entries@.len() implies (#[trigger] r.entries@[k1]).0@ != (
                #[trigger] r.entries@[k2]).0@ && r.entries@[k1].1 != r.entries@[k2].1 by {
                    assert(r.entries@[k1].0@ == list@[k1].0@);
                    assert(r.entries@[k2].0@ == list@[k2].0@);
                }
                assert forall|k: int|
                    0 <= k < r.entries@.len() implies r.forward@.contains_key(
                    (#[trigger] r.entries@[k]).0@,
                ) && r.forward@[r.entries@[k].0@] == r.entries@[k].1 by {
                    if k < i - 1 {
                        assert(r.entries@[k].0@ != tok@);
                    }
                }
                assert forall|k: int|
                    0 <= k < r.entries@.len() implies r.reverse@.contains_key(
                    (#[trigger] r.entries@[k]).1,
                ) && r.reverse@[r.entries@[k].1]@ == r.entries@[k].0@ by {
                    if k < i - 1 {
                        assert(r.entries@[k].1 != id);
                    }
                }
                assert forall|t: Seq<char>|
                    #[trigger] r.forward@.contains_key(t) implies (exists|k: int|
                    0 <= k < r.entries@.len() && (#[trigger] r.entries@[k]).0@ == t
                        && r.entries@[k].1 == r.forward@[t]) by {
                    if t == tok@ {
                        assert(r.entries@[i - 1].0@ == t && r.entries@[i - 1].1 == r.forward@[t]);
                    } else {
                        let k = choose|k: int|
                            0 <= k < old_entries.len() && (#[trigger] old_entries[k]).0@ == t
                                && old_entries[k].1 == old_forward[t];
                        assert(r.entries@[k].0@ == t && r.entries@[k].1 == r.forward@[t]);
                    }
                }
                assert forall|idq: u32|
                    #[trigger] r.reverse@.contains_key(idq) implies (exists|k: int|
                    0 <= k < r.entries@.len() && (#[trigger] r.entries@[k]).1 == idq) by {
                    if idq == id {
                        assert(r.entries@[i - 1].1 == idq);
                    } else {
                        let k = choose|k: int|
                            0 <= k < old_entries.len() && (#[trigger] old_entries[k]).1 == idq;
                        assert(r.entries@[k].1 == idq);
                    }
                }
            }
        }
        proof {
            assert(evs.take(list@.len() as int) =~= evs);
            assert(r.entry_views() =~= entry_views_of(list@));
            assert forall|k: int|
                0 <= k < list@.len() implies r.view_map().contains_key((#[trigger] list@[k]).0@)
                && r.view_map()[list@[k].0@] == list@[k].1 by {
                assert(r.entries@[k].0@ == list@[k].0@ && r.entries@[k].1 == list@[k].1);
            }
        }
        r
    }

    /// Builds a vocabulary from untrusted entries, rejecting a repeated
    /// token string or a repeated id with an error naming the fault.
    pub fn try_from_entries(list: Vec<(String, u32)>) -> (r: Result<Vocab, String>)
        ensures
            r is Ok <==> (forall|k1: int, k2: int|
                0 <= k1 < k2 < list@.len() ==> (#[trigger] list@[k1]).0@ != (
                #[trigger] list@[k2]).0@ && list@[k1].1 != list@[k2].1),
            r is Ok ==> {
                &&& r->Ok_0.wf()
                &&& r->Ok_0.entry_views() == entry_views_of(list@)
                &&& r->Ok_0.view_map() == spec_entries_map(entry_views_of(list@))
                &&& forall|k: int|
                    0 <= k < list@.len() ==> r->Ok_0.view_map().contains_key(
                        (#[trigger] list@[k]).0@,
                    ) && r->Ok_0.view_map()[list@[k].0@] == list@[k].1
            },
            r is Err ==> r->Err_0@ == "duplicate token in vocabulary"@ || r->Err_0@
                == "duplicate id in vocabulary"@,
    {
        let mut seen_tokens: StringHashMap<u32> = StringHashMap::new();
        let mut seen_ids: HashMapWithView<u32, u32> = HashMapWithView::new();
        let mut i: usize = 0;
        while i < list.len()
            invariant
                i <= list@.len(),
                forall|k: int| 0 <= k < i ==> seen_tokens@.contains_key(
                    (#[trigger] list@[k]).0@,
                ) && seen_ids@.contains_key(list@[k].1),
                forall|t: Seq<char>|
                    #[trigger] seen_tokens@.contains_key(t) ==> (exists|k: int|
                        0 <= k < i && (#[trigger] list@[k]).0@ == t),
                forall|id: u32|
                    #[trigger] seen_ids@.contains_key(id) ==> (exists|k: int|
                        0 <= k < i && (#[trigger] list@[k]).1 == id),
                forall|k1: int, k2: int|
                    0 <= k1 < k2 < i ==> (#[trigger] list@[k1]).0@ != (#[trigger] list@[k2]).0@
                        && list@[k1].1 != list@[k2].1,
            decreases list@.len() - i,
        {
            if seen_tokens.contains_key(list[i].0.as_str()) {
                proof {
                    let iv = i as int;
                    let k = choose|k: int| 0 <= k < i && (#[trigger] list@[k]).0@ == list@[iv].0@;
                    assert(list@[k].0@ == list@[iv].0@);
                }
                return Err(("duplicate token in vocabulary").to_owned());
            }
            if seen_ids.contains_key(&list[i].1) {
                proof {
                    let iv = i as int;
                    let k = choose|k: int| 0 <= k < i && (#[trigger] list@[k]).1 == list@[iv].1;
                    assert(list@[k].1 == list@[iv].1);
                }
                return Err(("duplicate id in vocabulary").to_owned());
            }
            seen_tokens.insert(list[i].0.clone(), 0);
            seen_ids.insert(list[i].1, 0);
            i = i + 1;
        }
        proof {
            assert forall|k1: int, k2: int|
                0 <= k1 < k2 < list@.len() implies (#[trigger] list@[k1]).0@ != (
            #[trigger] list@[k2]).0@ && list@[k1].1 != list@[k2].1 by {}
        }
        Ok(Vocab::from_entries(list))
    }

    /// The id of a token string, if declared.
    pub fn token_to_id(&self, token: &str) -> (r: Option<u32>)
        ensures
            r == if self.view_map().contains_key(token@) {
                Some(self.view_map()[token@])
            } else {
                None::<u32>
            },
    {
        match self.forward.get(token) {
            Some(id) => Some(*id),
            None => None,
        }
    }

    /// Whether a token string is declared.
    pub fn contains(&self, token: &str) -> (r: bool)
        ensures
            r == self.view_map().contains_key(token@),
    {
        self.forward.contains_key(token)
    }

    /// No two declared tokens share an id.
    pub proof fn lemma_ids_unique(&self)
        requires
            self.wf(),
        ensures
            forall|t1: Seq<char>, t2: Seq<char>|
                self.view_map().contains_key(t1) && self.view_map().contains_key(t2)
                    && #[trigger] self.view_map()[t1] == #[trigger] self.view_map()[t2] ==> t1
                    == t2,
    {
        assert forall|t1: Seq<char>, t2: Seq<char>|
            self.view_map().contains_key(t1) && self.view_map().contains_key(t2)
                && #[trigger] self.view_map()[t1] == #[trigger] self.view_map()[t2] implies t1
            == t2 by {
            let k1 = choose|k: int|
                0 <= k < self.entries@.len() && (#[trigger] self.entries@[k]).0@ == t1
                    && self.entries@[k].1 == self.forward@[t1];
            let k2 = choose|k: int|
                0 <= k < self.entries@.len() && (#[trigger] self.entries@[k]).0@ == t2
                    && self.entries@[k].1 == self.forward@[t2];
            if k1 != k2 {
                assert(self.entries@[k1].1 != self.entries@[k2].1);
            }
        }
    }

    /// The token string of an id, if one is declared with it.
    pub fn id_to_token(&self, id: u32) -> (r: Option<String>)
        requires
            self.wf(),
        ensures
            r is Some <==> (exists|k: int|
                0 <= k < self.entry_views().len() && (#[trigger] self.entry_views()[k]).1 == id),
            r is Some ==> self.view_map().contains_key(r->Some_0@) && self.view_map()[r->Some_0@]
                == id,
            r is None ==> forall|t: Seq<char>|
                self.view_map().contains_key(t) ==> #[trigger] self.view_map()[t] != id,
    {
        match self.reverse.get(&id) {
            Some(t) => {
                proof {
                    let k = choose|k: int|
                        0 <= k < self.entries@.len() && (#[trigger] self.entries@[k]).1 == id;
                    assert(self.entry_views()[k].1 == id);
                    assert(self.forward@.contains_key(self.entries@[k].0@));
                    assert(t@ == self.entries@[k].0@);
                }
                Some(t.clone())
            },
            None => {
                proof {
                    if exists|k: int|
                        0 <= k < self.entry_views().len() && (#[trigger] self.entry_views()[k]).1
                            == id {
                        let k = choose|k: int|
                            0 <= k < self.entry_views().len()
                                && (#[trigger] self.entry_views()[k]).1 == id;
                        assert(self.entries@[k].1 == id);
                        assert(self.reverse@.contains_key(id));
                    }
                    assert forall|t: Seq<char>|
                        self.view_map().contains_key(t) implies #[trigger] self.view_map()[t]
                        != id by {
                        if self.view_map()[t] == id {
                            let k = choose|k: int|
                                0 <= k < self.entries@.len() && (#[trigger] self.entries@[k]).0@
                                    == t && self.entries@[k].1 == self.forward@[t];
                            assert(self.entry_views()[k].1 == id);
                        }
                    }
                }
                None
            },
        }
    }

    /// The entries, in insertion order.
    pub fn entries(&self) -> (r: &Vec<(String, u32)>)
        ensures
            r.deep_view() == self.entry_views(),
    {
        proof {
            assert(self.entries.deep_view() =~= self.entry_views());
        }
        &self.entries
    }

    /// How many tokens are declared.
    pub fn len(&self) -> (r: usize)
        ensures
            r == self.entry_views().len(),
    {
        self.entries.len()
    }
}

} // verus!
