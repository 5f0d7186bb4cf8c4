//! Lattice (Viterbi) tokenization: vocabulary entries carry a cost, and a
//! word is segmented along the minimum-total-cost covering by vocabulary
//! substrings, ties broken towards longer pieces.  An unknown-id fallback
//! covers single characters that no entry reaches; byte fallback degrades an
//! unknown-covered character to per-byte tokens when they are all declared.
//! Results are kept in a bounded cache.

use vstd::prelude::*;
use vstd::utf8::{encode_scalar, encode_utf8};

use crate::chars::{
    char_utf8_len, chars_of_str, lemma_byte_len_mono, lemma_encode_utf8_push, str_byte_len,
    string_from_chars, subvec,
};
use crate::models::bpe::{byte_off, bytes_known, spec_byte_token};
use crate::models::cache::{Cache, DEFAULT_CACHE_CAPACITY};
use crate::models::vocab::Vocab;
use crate::{Token, TokenView};

verus! {

/// One lattice cell: the best cost to cover the word up to here, the start
/// of the piece that achieves it, that piece's token id, and whether it is
/// the unknown-id fallback.
pub type UgEntry = (i64, usize, u32, bool);

/// The tables and parameters that determine this model's output: the
/// vocabulary, the per-id costs (lower is better), the unknown id, and the
/// byte-fallback switch.
#[verifier::ext_equal]
pub struct UnigramView {
    pub vocab: Map<Seq<char>, u32>,
    pub costs: Seq<i64>,
    pub unk_id: Option<u32>,
    pub byte_fallback: bool,
}

/// The lattice model.
pub struct Unigram {
    pub vocab: Vocab,
    pub costs: Vec<i64>,
    pub unk_id: Option<u32>,
    pub byte_fallback: bool,
    pub cache: Cache,
}

/// Saturating addition on 64-bit costs.
pub open spec fn sat_add64(a: i64, b: i64) -> i64 {
    if a + b > i64::MAX {
        i64::MAX
    } else if a + b < i64::MIN {
        i64::MIN
    } else {
        (a + b) as i64
    }
}

/// Adds two costs, clamping at the 64-bit bounds.
fn sat_add_exec(a: i64, b: i64) -> (r: i64)
    ensures
        r == sat_add64(a, b),
{
    match a.checked_add(b) {
        Some(v) => v,
        None => {
            if b > 0 {
                i64::MAX
            } else {
                i64::MIN
            }
        },
    }
}

/// The cost of a token id; out-of-table ids cost nothing.
pub open spec fn ug_cost(m: UnigramView, id: u32) -> i64 {
    if (id as int) < m.costs.len() {
        m.costs[id as int]
    } else {
        0i64
    }
}

/// The candidate cell for ending at `j` with the piece `w[i..j]`: its cost
/// on top of the best cost at `i`, for a declared piece or — for a single
/// character — the unknown-id fallback.
pub open spec fn ug_candidate(
    m: UnigramView,
    w: Seq<char>,
    t: Seq<Option<UgEntry>>,
    j: int,
    i: int,
) -> Option<UgEntry> {
    if !(0 <= i < j <= w.len() && i < t.len()) {
        None
    } else {
        match t[i] {
            None => None,
            Some(prev) => {
                let piece = w.subrange(i, j);
                if m.vocab.contains_key(piece) {
                    Some(
                        (
                            sat_add64(prev.0, ug_cost(m, m.vocab[piece])),
                            i as usize,
                            m.vocab[piece],
                            false,
                        ),
                    )
                } else if j == i + 1 && m.unk_id is Some {
                    Some(
                        (
                            sat_add64(prev.0, ug_cost(m, m.unk_id->Some_0)),
                            i as usize,
                            m.unk_id->Some_0,
                            true,
                        ),
                    )
                } else {
                    None
                }
            },
        }
    }
}

/// The best candidate for ending at `j` among piece starts `i` and later:
/// lowest cost, and the earliest start — the longest piece — among equals.
pub open spec fn ug_scan(
    m: UnigramView,
    w: Seq<char>,
    t: Seq<Option<UgEntry>>,
    j: int,
    i: int,
) -> Option<UgEntry>
    decreases j - i,
{
    if i >= j {
        None
    } else {
        let rest = ug_scan(m, w, t, j, i + 1);
        match ug_candidate(m, w, t, j, i) {
            None => rest,
            Some(c) => match rest {
                None => Some(c),
                Some(rc) => if c.0 <= rc.0 {
                    Some(c)
                } else {
                    Some(rc)
                },
            },
        }
    }
}

/// The lattice up to position `j`: the zero-cost start, then the best cell
/// for each position in turn.
pub open spec fn ug_table(m: UnigramView, w: Seq<char>, j: int) -> Seq<Option<UgEntry>>
    decreases j,
{
    if j <= 0 {
        seq![Some((0i64, 0usize, 0u32, false))]
    } else {
        let t = ug_table(m, w, j - 1);
        t.push(ug_scan(m, w, t, j, 0))
    }
}

/// A found scan result points back inside the scanned range.
pub proof fn lemma_ug_scan_src(
    m: UnigramView,
    w: Seq<char>,
    t: Seq<Option<UgEntry>>,
    j: int,
    i: int,
)
    requires
        ug_scan(m, w, t, j, i) is Some,
        j <= usize::MAX,
    ensures
        i <= ug_scan(m, w, t, j, i)->Some_0.1 < j,
    decreases j - i,
{
    if i < j {
        let rest = ug_scan(m, w, t, j, i + 1);
        let cand = ug_candidate(m, w, t, j, i);
        if rest is Some {
            lemma_ug_scan_src(m, w, t, j, i + 1);
        }
        match cand {
            Some(c) => {
                assert(0 <= i < j <= w.len() && i < t.len());
                assert(c.1 == i as usize);
                match rest {
                    None => {
                        assert(ug_scan(m, w, t, j, i) == Some(c));
                    },
                    Some(rc) => {
                        if c.0 <= rc.0 {
                            assert(ug_scan(m, w, t, j, i) == Some(c));
                        } else {
                            assert(ug_scan(m, w, t, j, i) == Some(rc));
                            assert(i + 1 <= rc.1 < j);
                        }
                    },
                }
                assert(i <= ug_scan(m, w, t, j, i)->Some_0.1);
                assert(ug_scan(m, w, t, j, i)->Some_0.1 < j);
            },
            None => {
                assert(ug_scan(m, w, t, j, i) == rest);
            },
        }
    } else {
        assert(ug_scan(m, w, t, j, i) is None);
    }
}

/// The tokens of one reconstructed piece: per-byte fallback tokens for an
/// unknown-covered character when enabled and all declared, else the piece's
/// surface with its id.
pub open spec fn ug_piece_tokens(
    m: UnigramView,
    w: Seq<char>,
    i: int,
    j: int,
    id: u32,
    is_unk: bool,
) -> Seq<TokenView> {
    let surface = w.subrange(i, j);
    let bs = encode_utf8(surface);
    let start = byte_off(w, i);
    if is_unk && m.byte_fallback && bytes_known(m.vocab, bs) {
        Seq::new(
            bs.len(),
            |k: int|
                TokenView {
                    id: m.vocab[spec_byte_token(bs[k])],
                    value: spec_byte_token(bs[k]),
                    offsets: ((start + k) as usize, (start + k + 1) as usize),
                },
        )
    } else {
        seq![
            TokenView {
                id,
                value: surface,
                offsets: (start as usize, byte_off(w, j) as usize),
            },
        ]
    }
}

/// The tokens of the best path ending at `j`, read off backwards through
/// the table's back pointers.
pub open spec fn ug_path_tokens(
    m: UnigramView,
    w: Seq<char>,
    t: Seq<Option<UgEntry>>,
    j: int,
) -> Seq<TokenView>
    decreases j,
{
    if j <= 0 || j >= t.len() {
        Seq::empty()
    } else {
        match t[j] {
            None => Seq::empty(),
            Some(cell) => {
                if cell.1 < j {
                    ug_path_tokens(m, w, t, cell.1 as int) + ug_piece_tokens(
                        m,
                        w,
                        cell.1 as int,
                        j,
                        cell.2,
                        cell.3,
                    )
                } else {
                    Seq::empty()
                }
            },
        }
    }
}

/// What lattice tokenization returns: nothing for the empty word or a word
/// the lattice cannot cover, the minimum-cost segmentation otherwise.
pub open spec fn spec_unigram_tokenize(m: UnigramView, w: Seq<char>) -> Seq<TokenView> {
    if w.len() == 0 {
        Seq::empty()
    } else {
        let t = ug_table(m, w, w.len() as int);
        ug_path_tokens(m, w, t, w.len() as int)
    }
}

/// The cache after one tokenize call: unchanged for the empty word or an
/// already-cached word, grown by the word's result when there was room.
pub open spec fn spec_ug_cache_after(
    m: UnigramView,
    cache: Map<Seq<char>, Seq<TokenView>>,
    capacity: nat,
    w: Seq<char>,
) -> Map<Seq<char>, Seq<TokenView>> {
    if w.len() == 0 || cache.contains_key(w) {
        cache
    } else if cache.dom().len() < capacity {
        cache.insert(w, spec_unigram_tokenize(m, w))
    } else {
        cache
    }
}

/// Tokenizing is deterministic and cache-transparent: after clearing, one
/// call caches a word's result (when there is room), a repeated call finds
/// it cached and leaves the cache as it was, and both calls return one and
/// the same tokenization.
pub proof fn lemma_ug_tokenize_idempotent(m: UnigramView, capacity: nat, w: Seq<char>)
    requires
        capacity >= 1,
        w.len() > 0,
    ensures
        spec_ug_cache_after(m, Map::empty(), capacity, w) == Map::<
            Seq<char>,
            Seq<TokenView>,
        >::empty().insert(w, spec_unigram_tokenize(m, w)),
        spec_ug_cache_after(m, spec_ug_cache_after(m, Map::empty(), capacity, w), capacity, w)
            == spec_ug_cache_after(m, Map::empty(), capacity, w),
        spec_ug_cache_after(m, Map::empty(), capacity, w).contains_key(w),
{
    let empty = Map::<Seq<char>, Seq<TokenView>>::empty();
    assert(empty.dom() =~= Set::<Seq<char>>::empty());
    assert(empty.dom().len() == 0);
}

impl Unigram {
    /// The tables and parameters that determine this model's output.
    pub open spec fn config_view(&self) -> UnigramView {
        UnigramView {
            vocab: self.vocab.view_map(),
            costs: self.costs@,
            unk_id: self.unk_id,
            byte_fallback: self.byte_fallback,
        }
    }

    /// The cached results.
    pub open spec fn cache_view(&self) -> Map<Seq<char>, Seq<TokenView>> {
        self.cache.view_map()
    }

    /// The cache's capacity.
    pub open spec fn cache_capacity(&self) -> nat {
        self.cache.spec_capacity()
    }

    /// The vocabulary is coherent and every cached entry is the word's own
    /// lattice result.
    pub open spec fn wf(&self) -> bool {
        &&& self.vocab.wf()
        &&& forall|w: Seq<char>|
            #[trigger] self.cache_view().contains_key(w) ==> self.cache_view()[w]
                == spec_unigram_tokenize(self.config_view(), w)
    }

    /// Builds the model from a vocabulary, the per-id costs, the unknown id
    /// and the byte-fallback switch.
    pub fn new(vocab: Vocab, costs: Vec<i64>, unk_id: Option<u32>, byte_fallback: bool) -> (r:
        Unigram)
        requires
            vocab.wf(),
        ensures
            r.wf(),
            r.config_view() == (UnigramView {
                vocab: vocab.view_map(),
                costs: costs@,
                unk_id,
                byte_fallback,
            }),
            r.cache_view() == Map::<Seq<char>, Seq<TokenView>>::empty(),
            r.cache_capacity() == DEFAULT_CACHE_CAPACITY as nat,
    {
        Unigram { vocab, costs, unk_id, byte_fallback, cache: Cache::new(DEFAULT_CACHE_CAPACITY) }
    }

    /// Builds the model from optional tables, as a caller hands them over:
    /// an unknown id without a vocabulary is a configuration fault; no
    /// vocabulary at all builds an empty model; a supplied vocabulary builds
    /// the model exactly when its entries are distinct and the unknown id,
    /// if given, lies inside it.
    pub fn from_optional_vocab(
        vocab: Option<(Vec<(String, u32)>, Vec<i64>)>,
        unk_id: Option<u32>,
        byte_fallback: bool,
    ) -> (r: Result<Unigram, String>)
        ensures
            vocab is None && unk_id is Some ==> r is Err && r->Err_0@
                == "`vocab` and `unk_id` must be both specified"@,
            vocab is None && unk_id is None ==> r is Ok,
            vocab is Some ==> {
                let evs = crate::models::vocab::entry_views_of(vocab->Some_0.0@);
                &&& (r is Ok <==> ((unk_id is Some ==> (unk_id->Some_0 as int) < evs.len()) && (
                forall|k1: int, k2: int|
                    0 <= k1 < k2 < evs.len() ==> (#[trigger] evs[k1]).0 != (#[trigger] evs[k2]).0
                        && evs[k1].1 != evs[k2].1)))
                &&& (unk_id is Some && (unk_id->Some_0 as int) >= evs.len() ==> r is Err
                    && r->Err_0@ == "`unk_id` is out of vocabulary bounds"@)
                &&& (r is Ok ==> r->Ok_0.config_view() == (UnigramView {
                    vocab: crate::models::vocab::spec_entries_map(evs),
                    costs: vocab->Some_0.1@,
                    unk_id,
                    byte_fallback,
                }) && r->Ok_0.cache_view() == Map::<Seq<char>, Seq<TokenView>>::empty())
            },
            r is Ok ==> r->Ok_0.wf(),
    {
        match (vocab, unk_id) {
            (Some((entries, costs)), uid) => {
                match uid {
                    Some(u) => {
                        if u as usize >= entries.len() {
                            return Err(("`unk_id` is out of vocabulary bounds").to_owned());
                        }
                    },
                    None => {},
                }
                let ghost evs = crate::models::vocab::entry_views_of(entries@);
                let vb = match Vocab::try_from_entries(entries) {
                    Ok(vb) => vb,
                    Err(e) => {
                        proof {
                            let (k1, k2) = choose|k1: int, k2: int|
                                0 <= k1 < k2 < entries@.len() && !((#[trigger] entries@[k1]).0@
                                    != (#[trigger] entries@[k2]).0@ && entries@[k1].1
                                    != entries@[k2].1);
                            assert(evs[k1] == (entries@[k1].0@, entries@[k1].1));
                            assert(evs[k2] == (entries@[k2].0@, entries@[k2].1));
                            assert(!(evs[k1].0 != evs[k2].0 && evs[k1].1 != evs[k2].1));
                        }
                        return Err(e);
                    },
                };
                Ok(Unigram::new(vb, costs, uid, byte_fallback))
            },
            (None, None) => Ok(Unigram::new(Vocab::new(), Vec::new(), None, byte_fallback)),
            (None, Some(_)) => Err(("`vocab` and `unk_id` must be both specified").to_owned()),
        }
    }

    /// Empties the cache.
    pub fn clear_cache(&mut self)
        requires
            old(self).wf(),
        ensures
            final(self).wf(),
            final(self).config_view() == old(self).config_view(),
            final(self).vocab == old(self).vocab,
            final(self).cache_view() == Map::<Seq<char>, Seq<TokenView>>::empty(),
            final(self).cache_capacity() == old(self).cache_capacity(),
    {
        self.cache.clear();
    }

    /// Sets a new cache capacity: the entries stay when they fit within it,
    /// and are all dropped when shrinking below the current occupancy.
    pub fn resize_cache(&mut self, capacity: usize)
        requires
            old(self).wf(),
        ensures
            final(self).wf(),
            final(self).config_view() == old(self).config_view(),
            final(self).vocab == old(self).vocab,
            final(self).cache_capacity() == capacity as nat,
            final(self).cache_view() == (if old(self).cache_view().dom().len() <= capacity as nat {
                old(self).cache_view()
            } else {
                Map::<Seq<char>, Seq<TokenView>>::empty()
            }),
    {
        self.cache.resize(capacity);
        proof {
            assert forall|w: Seq<char>| #[trigger] self.cache_view().contains_key(w) implies self
                .cache_view()[w] == spec_unigram_tokenize(self.config_view(), w) by {
                assert(old(self).cache_view().contains_key(w));
            }
        }
    }

    /// Tokenizes one word along the minimum-cost lattice path, served from
    /// the cache when already computed and cached afterwards while there is
    /// room.
    pub fn tokenize(&mut self, word: &str) -> (r: Vec<Token>)
        requires
            old(self).wf(),
            str_byte_len(word@) <= usize::MAX,
        ensures
            final(self).wf(),
            final(self).config_view() == old(self).config_view(),
            final(self).vocab == old(self).vocab,
            final(self).cache_capacity() == old(self).cache_capacity(),
            r.deep_view() == spec_unigram_tokenize(old(self).config_view(), word@),
            final(self).cache_view() == spec_ug_cache_after(
                old(self).config_view(),
                old(self).cache_view(),
                old(self).cache_capacity(),
                word@,
            ),
    {
        let ghost m = self.config_view();
        if word.len() == 0 {
            let r: Vec<Token> = Vec::new();
            proof {
                assert(word@.len() == 0) by {
                    assert(encode_utf8(word@).len() == 0);
                    if word@.len() > 0 {
                        assert(encode_utf8(word@) == encode_scalar(word@[0] as u32) + encode_utf8(
                            word@.drop_first(),
                        ));
                        assert(encode_scalar(word@[0] as u32).len() >= 1);
                    }
                }
                assert(r.deep_view() =~= spec_unigram_tokenize(m, word@));
            }
            return r;
        }
        proof {
            assert(word@.len() > 0) by {
                if word@.len() == 0 {
                    assert(encode_utf8(word@) =~= Seq::<u8>::empty());
                }
            }
        }
        match self.cache.get(word) {
            Some(cached) => {
                let mut r: Vec<Token> = Vec::new();
                let mut i: usize = 0;
                while i < cached.len()
                    invariant
                        i <= cached@.len(),
                        r@.len() == i,
                        forall|k: int| 0 <= k < i ==> #[trigger] r@[k]@ == cached@[k]@,
                    decreases cached@.len() - i,
                {
                    r.push(cached[i].clone());
                    i = i + 1;
                }
                proof {
                    assert(r.deep_view() =~~= cached.deep_view());
                    assert(cached.deep_view() == self.cache_view()[word@]);
                    assert(self.cache_view()[word@] == spec_unigram_tokenize(m, word@));
                }
                return r;
            },
            None => {},
        }
        let r = self.viterbi(word);
        let mut copy: Vec<Token> = Vec::new();
        let mut i: usize = 0;
        while i < r.len()
            invariant
                i <= r@.len(),
                copy@.len() == i,
                forall|k: int| 0 <= k < i ==> #[trigger] copy@[k]@ == r@[k]@,
            decreases r@.len() - i,
        {
            copy.push(r[i].clone());
            i = i + 1;
        }
        proof {
            assert(copy.deep_view() =~~= r.deep_view());
        }
        self.cache.set(word.to_owned(), copy);
        proof {
            assert(final(self).cache_view() =~~= spec_ug_cache_after(
                m,
                old(self).cache_view(),
                old(self).cache_capacity(),
                word@,
            ));
        }
        r
    }

    /// Fills the lattice position by position and reads the best path back.
    fn viterbi(&self, word: &str) -> (r: Vec<Token>)
        requires
            self.wf(),
            str_byte_len(word@) <= usize::MAX,
            word@.len() > 0,
        ensures
            r.deep_view() == spec_unigram_tokenize(self.config_view(), word@),
    {
        let ghost m = self.config_view();
        let chars = chars_of_str(word);
        let n = chars.len();
        let mut table: Vec<Option<UgEntry>> = Vec::new();
        table.push(Some((0i64, 0usize, 0u32, false)));
        proof {
            assert(table@ =~= ug_table(m, word@, 0));
        }
        let mut pos: usize = 0;
        while pos < n
            invariant
                0 <= pos <= n,
                n == word@.len(),
                chars@ == word@,
                self.wf(),
                m == self.config_view(),
                table@ == ug_table(m, word@, pos as int),
                table@.len() == pos + 1,
            decreases n - pos,
        {
            let j = pos + 1;
            let ghost prev = table@;
            let mut cur: Option<UgEntry> = None;
            let mut i: usize = j;
            while i > 0
                invariant
                    0 <= i <= j <= n,
                    n == word@.len(),
                    chars@ == word@,
                    self.wf(),
                    m == self.config_view(),
                    prev == table@,
                    table@.len() == j,
                    cur == ug_scan(m, word@, prev, j as int, i as int),
                decreases i,
            {
                i = i - 1;
                let cand: Option<UgEntry> = match table[i] {
                    Some(prev_cell) => {
                        let piece_chars = subvec(&chars, i, j);
                        let piece = string_from_chars(&piece_chars);
                        match self.vocab.token_to_id(piece.as_str()) {
                            Some(id) => {
                                let cost = if (id as usize) < self.costs.len() {
                                    self.costs[id as usize]
                                } else {
                                    0
                                };
                                Some((sat_add_exec(prev_cell.0, cost), i, id, false))
                            },
                            None => {
                                if i + 1 == j {
                                    match self.unk_id {
                                        Some(uid) => {
                                            let cost = if (uid as usize) < self.costs.len() {
                                                self.costs[uid as usize]
                                            } else {
                                                0
                                            };
                                            Some((sat_add_exec(prev_cell.0, cost), i, uid, true))
                                        },
                                        None => None,
                                    }
                                } else {
                                    None
                                }
                            },
                        }
                    },
                    None => None,
                };
                proof {
                    assert(cand == ug_candidate(m, word@, prev, j as int, i as int));
                }
                cur = match (cand, cur) {
                    (None, c) => c,
                    (Some(c), None) => Some(c),
                    (Some(c), Some(rc)) => if c.0 <= rc.0 {
                        Some(c)
                    } else {
                        Some(rc)
                    },
                };
            }
            table.push(cur);
            pos = pos + 1;
            proof {
                assert(table@ =~= ug_table(m, word@, pos as int));
            }
        }
        let out = self.read_path(word, &chars, &table, n);
        proof {
            assert(out.deep_view() == spec_unigram_tokenize(m, word@));
        }
        out
    }

    /// Reads the best path out of the lattice, beginning to end.
    fn read_path(&self, word: &str, chars: &Vec<char>, table: &Vec<Option<UgEntry>>, j: usize) -> (r:
        Vec<Token>)
        requires
            self.wf(),
            str_byte_len(word@) <= usize::MAX,
            chars@ == word@,
            j < table@.len(),
            table@.len() <= word@.len() + 1,
        ensures
            r.deep_view() == ug_path_tokens(self.config_view(), word@, table@, j as int),
        decreases j,
    {
        let ghost m = self.config_view();
        let mut out: Vec<Token> = Vec::new();
        if j == 0 {
            proof {
                assert(out.deep_view() =~= ug_path_tokens(m, word@, table@, 0));
            }
            return out;
        }
        match table[j] {
            None => {
                proof {
                    assert(out.deep_view() =~= ug_path_tokens(m, word@, table@, j as int));
                }
                out
            },
            Some(cell) => {
                if cell.1 >= j {
                    proof {
                        assert(out.deep_view() =~= ug_path_tokens(m, word@, table@, j as int));
                    }
                    return out;
                }
                let mut head = self.read_path(word, chars, table, cell.1);
                let mut tail = self.piece_tokens(word, chars, cell.1, j, cell.2, cell.3);
                let ghost headv = head.deep_view();
                let ghost tailv = tail.deep_view();
                head.append(&mut tail);
                proof {
                    assert(head.deep_view() =~~= headv + tailv);
                }
                head
            },
        }
    }

    /// The tokens of one piece of the path.
    fn piece_tokens(
        &self,
        word: &str,
        chars: &Vec<char>,
        i: usize,
        j: usize,
        id: u32,
        is_unk: bool,
    ) -> (r: Vec<Token>)
        requires
            self.wf(),
            str_byte_len(word@) <= usize::MAX,
            chars@ == word@,
            i < j <= word@.len(),
        ensures
            r.deep_view() == ug_piece_tokens(
                self.config_view(),
                word@,
                i as int,
                j as int,
                id,
                is_unk,
            ),
    {
        let ghost m = self.config_view();
        let piece_chars = subvec(chars, i, j);
        let surface = string_from_chars(&piece_chars);
        let ghost sv = word@.subrange(i as int, j as int);
        // The byte offset where this piece starts.
        let mut start: usize = 0;
        let mut q: usize = 0;
        proof {
            assert(word@.take(0) =~= Seq::<char>::empty());
        }
        while q < i
            invariant
                q <= i <= word@.len(),
                chars@ == word@,
                str_byte_len(word@) <= usize::MAX,
                start == byte_off(word@, q as int),
            decreases i - q,
        {
            proof {
                assert(word@.take(q + 1) =~= word@.take(q as int).push(word@[q as int]));
                lemma_encode_utf8_push(word@.take(q as int), word@[q as int]);
                lemma_byte_len_mono(word@, q + 1);
            }
            let cl = char_utf8_len(chars[q]);
            start = start + cl;
            q = q + 1;
        }
        let mut use_bytes = false;
        let bs = surface.as_str().as_bytes_vec();
        proof {
            assert(bs@ == encode_utf8(sv));
        }
        if is_unk && self.byte_fallback {
            let mut all = true;
            let mut k: usize = 0;
            while k < bs.len()
                invariant
                    k <= bs@.len(),
                    self.wf(),
                    m == self.config_view(),
                    bs@ == encode_utf8(sv),
                    all ==> forall|q2: int|
                        0 <= q2 < k ==> m.vocab.contains_key(#[trigger] spec_byte_token(bs@[q2])),
                    !all ==> !bytes_known(m.vocab, bs@),
                decreases bs@.len() - k,
            {
                let tok = crate::models::bpe::byte_token_string(bs[k]);
                if !self.vocab.contains(tok.as_str()) {
                    proof {
                        assert(!bytes_known(m.vocab, bs@));
                    }
                    all = false;
                }
                k = k + 1;
            }
            use_bytes = all;
            proof {
                if all {
                    assert(bytes_known(m.vocab, bs@));
                }
            }
        }
        let mut out: Vec<Token> = Vec::new();
        if use_bytes {
            // One token per byte of the piece.
            let mut k: usize = 0;
            proof {
                lemma_byte_len_mono(word@, j as int);
                lemma_ug_bytes_bound(word@, i as int, j as int);
            }
            while k < bs.len()
                invariant
                    k <= bs@.len(),
                    self.wf(),
                    m == self.config_view(),
                    is_unk,
                    m.byte_fallback,
                    bs@ == encode_utf8(sv),
                    sv == word@.subrange(i as int, j as int),
                    start == byte_off(word@, i as int),
                    start + bs@.len() <= usize::MAX,
                    forall|q2: int|
                        0 <= q2 < bs@.len() ==> m.vocab.contains_key(
                            #[trigger] spec_byte_token(bs@[q2]),
                        ),
                    out@.len() == k,
                    forall|q2: int| 0 <= q2 < k ==> #[trigger] out@[q2]@ == ug_piece_tokens(
                        m,
                        word@,
                        i as int,
                        j as int,
                        id,
                        is_unk,
                    )[q2],
                decreases bs@.len() - k,
            {
                proof {
                    assert(m.vocab.contains_key(spec_byte_token(bs@[k as int])));
                }
                let tok = crate::models::bpe::byte_token_string(bs[k]);
                let tid = match self.vocab.token_to_id(tok.as_str()) {
                    Some(t) => t,
                    None => 0,
                };
                let ghost pre_out = out.deep_view();
                out.push(Token { id: tid, value: tok, offsets: (start + k, start + k + 1) });
                k = k + 1;
                proof {
                    assert(out@[k - 1]@ == ug_piece_tokens(
                        m,
                        word@,
                        i as int,
                        j as int,
                        id,
                        is_unk,
                    )[k - 1]);
                }
            }
            proof {
                assert(out.deep_view() =~~= ug_piece_tokens(
                    m,
                    word@,
                    i as int,
                    j as int,
                    id,
                    is_unk,
                ));
            }
        } else {
            // The piece itself, with its byte span.
            let mut end: usize = start;
            let mut q2: usize = i;
            while q2 < j
                invariant
                    i <= q2 <= j <= word@.len(),
                    chars@ == word@,
                    str_byte_len(word@) <= usize::MAX,
                    end == byte_off(word@, q2 as int),
                decreases j - q2,
            {
                proof {
                    assert(word@.take(q2 + 1) =~= word@.take(q2 as int).push(word@[q2 as int]));
                    lemma_encode_utf8_push(word@.take(q2 as int), word@[q2 as int]);
                    lemma_byte_len_mono(word@, q2 + 1);
                }
                let cl = char_utf8_len(chars[q2]);
                end = end + cl;
                q2 = q2 + 1;
            }
            out.push(Token { id, value: surface, offsets: (start, end) });
            proof {
                assert(out.deep_view() =~~= ug_piece_tokens(
                    m,
                    word@,
                    i as int,
                    j as int,
                    id,
                    is_unk,
                ));
            }
        }
        out
    }
}

/// The bytes of a middle piece fit behind its start offset: the whole
/// word's encoding is no longer than the largest machine count.
pub proof fn lemma_ug_bytes_bound(w: Seq<char>, i: int, j: int)
    requires
        0 <= i <= j <= w.len(),
        str_byte_len(w) <= usize::MAX,
    ensures
        byte_off(w, i) + encode_utf8(w.subrange(i, j)).len() <= usize::MAX,
    decreases j - i,
{
    if i == j {
        assert(w.subrange(i, j) =~= Seq::<char>::empty());
        lemma_byte_len_mono(w, i);
    } else {
        lemma_ug_bytes_bound(w, i + 1, j);
        assert(w.take(i + 1) =~= w.take(i).push(w[i]));
        lemma_encode_utf8_push(w.take(i), w[i]);
        assert(w.subrange(i, j) =~= seq![w[i]] + w.subrange(i + 1, j));
        lemma_encode_utf8_cons(w[i], w.subrange(i + 1, j));
    }
}

/// The encoding of a sequence beginning with one character.
pub proof fn lemma_encode_utf8_cons(c: char, s: Seq<char>)
    ensures
        encode_utf8(seq![c] + s) == encode_scalar(c as u32) + encode_utf8(s),
{
    let t = seq![c] + s;
    assert(t.len() > 0);
    assert(t[0] == c);
    assert(t.drop_first() =~= s);
}

} // verus!
