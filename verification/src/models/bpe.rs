//! Byte-pair-merge tokenization: a word is split into decorated characters,
//! then the adjacent pair with the lowest merge rank is merged — leftmost
//! first among equals — until no mergeable pair remains.  Results are kept
//! in a bounded cache.

use vstd::prelude::*;
use vstd::hash_map::HashMapWithView;
use vstd::utf8::{encode_scalar, encode_utf8};

use crate::chars::{
    char_utf8_len, chars_of_str, lemma_byte_len_mono, lemma_encode_utf8_push, str_byte_len,
    string_from_chars, subvec,
};
use crate::models::cache::{Cache, DEFAULT_CACHE_CAPACITY};
use crate::models::vocab::Vocab;
use crate::{Token, TokenView};

verus! {

/// One working symbol of the merge loop: a token id and the byte range it
/// covers in the source word.
pub type Sym = (u32, usize, usize);

/// The packing of an id pair into one map key.
pub open spec fn spec_key64(l: u32, r: u32) -> u64 {
    ((l as int) * 0x1_0000_0000 + (r as int)) as u64
}

/// Packs an id pair into one map key.
fn key64(l: u32, r: u32) -> (k: u64)
    ensures
        k == spec_key64(l, r),
{
    (l as u64) * 0x1_0000_0000u64 + (r as u64)
}

/// The packing is one to one.
pub proof fn lemma_key64_injective(l1: u32, r1: u32, l2: u32, r2: u32)
    requires
        spec_key64(l1, r1) == spec_key64(l2, r2),
    ensures
        l1 == l2 && r1 == r2,
{
    assert(l1 == l2 && r1 == r2) by (nonlinear_arith)
        requires
            l1 as u64 * 0x1_0000_0000u64 + r1 as u64 == l2 as u64 * 0x1_0000_0000u64 + r2 as u64,
            r1 < 0x1_0000_0000u64,
            r2 < 0x1_0000_0000u64,
    ;
}

/// The tables and parameters that determine this model's output: the
/// vocabulary, the merge table mapping an id pair to its rank and merged id,
/// and the configuration switches.
#[verifier::ext_equal]
pub struct BpeView {
    pub vocab: Map<Seq<char>, u32>,
    pub merges: Map<(u32, u32), (u32, u32)>,
    pub unk_token: Option<Seq<char>>,
    pub continuing_subword_prefix: Option<Seq<char>>,
    pub end_of_word_suffix: Option<Seq<char>>,
    pub fuse_unk: bool,
    pub byte_fallback: bool,
    pub ignore_merges: bool,
}

/// The byte-pair-merge model.
pub struct Bpe {
    pub vocab: Vocab,
    pub merges: HashMapWithView<u64, (u32, u32)>,
    pub cache: Cache,
    pub unk_token: Option<String>,
    pub continuing_subword_prefix: Option<String>,
    pub end_of_word_suffix: Option<String>,
    pub fuse_unk: bool,
    pub byte_fallback: bool,
    pub ignore_merges: bool,
}

/// The uppercase hex digit for a value below sixteen.
pub open spec fn hex_digit_char(n: nat) -> char {
    if n < 10 {
        crate::decimal::dec_digit_char(n)
    } else if n == 10 {
        'A'
    } else if n == 11 {
        'B'
    } else if n == 12 {
        'C'
    } else if n == 13 {
        'D'
    } else if n == 14 {
        'E'
    } else {
        'F'
    }
}

/// The fallback token string of one byte, `<0x..>` with uppercase hex.
pub open spec fn spec_byte_token(b: u8) -> Seq<char> {
    seq!['<', '0', 'x', hex_digit_char((b / 16) as nat), hex_digit_char((b % 16) as nat), '>']
}

/// The decorated piece string of one character of the word: the continuing
/// prefix on every character but the first, the end-of-word suffix on the
/// last.
pub open spec fn spec_piece_of(m: BpeView, w: Seq<char>, i: int) -> Seq<char> {
    let base = seq![w[i]];
    let with_prefix = if i > 0 && m.continuing_subword_prefix is Some {
        m.continuing_subword_prefix->Some_0 + base
    } else {
        base
    };
    if i == w.len() - 1 && m.end_of_word_suffix is Some {
        with_prefix + m.end_of_word_suffix->Some_0
    } else {
        with_prefix
    }
}

/// The byte offset of a character position within the word.
pub open spec fn byte_off(w: Seq<char>, i: int) -> nat {
    str_byte_len(w.take(i))
}

/// Every fallback byte token of this character is in the vocabulary.
pub open spec fn bytes_known(vocab: Map<Seq<char>, u32>, bs: Seq<u8>) -> bool {
    forall|k: int| 0 <= k < bs.len() ==> vocab.contains_key(#[trigger] spec_byte_token(bs[k]))
}

/// The per-byte fallback symbols of one character.
pub open spec fn byte_syms(
    vocab: Map<Seq<char>, u32>,
    bs: Seq<u8>,
    start: nat,
) -> Seq<Sym> {
    Seq::new(
        bs.len(),
        |k: int| (vocab[spec_byte_token(bs[k])], (start + k) as usize, (start + k + 1) as usize),
    )
}

/// The initial symbols of the word, processed left to right: a known
/// decorated character becomes its own symbol; an unknown one degrades to
/// per-byte fallback tokens when enabled and all present, else to the
/// unknown token — consecutive unknowns collapsing into one when fusing —
/// and is dropped when no unknown token is declared.
pub open spec fn spec_init_symbols(m: BpeView, w: Seq<char>, i: int, acc: Seq<Sym>) -> Seq<Sym>
    decreases w.len() - i,
{
    if i < 0 || i >= w.len() {
        acc
    } else {
        let piece = spec_piece_of(m, w, i);
        let start = byte_off(w, i);
        let end = byte_off(w, i + 1);
        let bs = encode_scalar(w[i] as u32);
        let acc2 = if m.vocab.contains_key(piece) {
            acc.push((m.vocab[piece], start as usize, end as usize))
        } else if m.byte_fallback && bytes_known(m.vocab, bs) {
            acc + byte_syms(m.vocab, bs, start)
        } else if m.unk_token is Some && m.vocab.contains_key(m.unk_token->Some_0) {
            let unk_id = m.vocab[m.unk_token->Some_0];
            if m.fuse_unk && acc.len() > 0 && acc.last().0 == unk_id {
                acc.drop_last().push((unk_id, acc.last().1, end as usize))
            } else {
                acc.push((unk_id, start as usize, end as usize))
            }
        } else {
            acc
        };
        spec_init_symbols(m, w, i + 1, acc2)
    }
}

/// Whether the symbols at `i` and `i + 1` form a declared merge pair.
pub open spec fn mergeable(merges: Map<(u32, u32), (u32, u32)>, s: Seq<Sym>, i: int) -> bool {
    0 <= i && i + 1 < s.len() && merges.contains_key((s[i].0, s[i + 1].0))
}

/// The rank of the pair at `i`.
pub open spec fn rank_at(merges: Map<(u32, u32), (u32, u32)>, s: Seq<Sym>, i: int) -> u32 {
    merges[(s[i].0, s[i + 1].0)].0
}

/// The pair to merge next: mergeable, of minimal rank, and leftmost among
/// pairs of that rank.
pub open spec fn is_best(merges: Map<(u32, u32), (u32, u32)>, s: Seq<Sym>, i: int) -> bool {
    &&& mergeable(merges, s, i)
    &&& forall|j: int| mergeable(merges, s, j) ==> rank_at(merges, s, i) <= rank_at(merges, s, j)
    &&& forall|j: int|
        0 <= j < i && mergeable(merges, s, j) ==> rank_at(merges, s, j) > rank_at(merges, s, i)
}

/// The symbols after merging the pair at `i` into its merged id, spanning
/// both byte ranges.
pub open spec fn merge_at(merges: Map<(u32, u32), (u32, u32)>, s: Seq<Sym>, i: int) -> Seq<Sym> {
    s.take(i) + seq![(merges[(s[i].0, s[i + 1].0)].1, s[i].1, s[i + 1].2)] + s.skip(i + 2)
}

/// At most one pair is best.
pub proof fn lemma_best_unique(merges: Map<(u32, u32), (u32, u32)>, s: Seq<Sym>, i: int, j: int)
    requires
        is_best(merges, s, i),
        is_best(merges, s, j),
    ensures
        i == j,
{
    if i < j {
        assert(rank_at(merges, s, i) > rank_at(merges, s, j));
        assert(rank_at(merges, s, j) >= rank_at(merges, s, i));
    }
    if j < i {
        assert(rank_at(merges, s, j) > rank_at(merges, s, i));
        assert(rank_at(merges, s, i) >= rank_at(merges, s, j));
    }
}

/// The merge loop's result: merge the best pair until none remains.
pub open spec fn spec_merge_fix(merges: Map<(u32, u32), (u32, u32)>, s: Seq<Sym>) -> Seq<Sym>
    decreases s.len(),
    via spec_merge_fix_dec
{
    if exists|i: int| is_best(merges, s, i) {
        spec_merge_fix(merges, merge_at(merges, s, choose|i: int| is_best(merges, s, i)))
    } else {
        s
    }
}

#[via_fn]
proof fn spec_merge_fix_dec(merges: Map<(u32, u32), (u32, u32)>, s: Seq<Sym>) {
    if exists|i: int| is_best(merges, s, i) {
        let i = choose|i: int| is_best(merges, s, i);
        assert(merge_at(merges, s, i).len() == s.len() - 1);
    }
}

/// One merge of the best pair keeps the loop's final result.
pub proof fn lemma_merge_fix_step(merges: Map<(u32, u32), (u32, u32)>, s: Seq<Sym>, i: int)
    requires
        is_best(merges, s, i),
    ensures
        spec_merge_fix(merges, s) == spec_merge_fix(merges, merge_at(merges, s, i)),
{
    let k = choose|k: int| is_best(merges, s, k);
    lemma_best_unique(merges, s, k, i);
}

/// The token string of an id under a vocabulary with one string per id.
pub open spec fn spec_token_of_id(vocab: Map<Seq<char>, u32>, id: u32) -> Seq<char> {
    if exists|t: Seq<char>| vocab.contains_key(t) && vocab[t] == id {
        choose|t: Seq<char>| vocab.contains_key(t) && vocab[t] == id
    } else {
        Seq::empty()
    }
}

/// The tokens of a final symbol list: each id's vocabulary string with the
/// symbol's byte range.
pub open spec fn syms_to_tokens(vocab: Map<Seq<char>, u32>, s: Seq<Sym>) -> Seq<TokenView> {
    Seq::new(
        s.len(),
        |k: int|
            TokenView {
                id: s[k].0,
                value: spec_token_of_id(vocab, s[k].0),
                offsets: (s[k].1, s[k].2),
            },
    )
}

/// What merging a word yields: initial symbols, the merge loop, then the
/// vocabulary strings of the surviving ids.
pub open spec fn spec_merge_word(m: BpeView, w: Seq<char>) -> Seq<TokenView> {
    syms_to_tokens(m.vocab, spec_merge_fix(m.merges, spec_init_symbols(m, w, 0, Seq::empty())))
}

/// What byte-pair tokenization returns: nothing for the empty word; the
/// word's own vocabulary entry when merges are ignored and the word is
/// known; otherwise the merge result.
pub open spec fn spec_bpe_tokenize(m: BpeView, w: Seq<char>) -> Seq<TokenView> {
    if w.len() == 0 {
        Seq::empty()
    } else if m.ignore_merges && m.vocab.contains_key(w) {
        seq![
            TokenView { id: m.vocab[w], value: w, offsets: (0usize, str_byte_len(w) as usize) },
        ]
    } else {
        spec_merge_word(m, w)
    }
}

/// The cache after one tokenize call: unchanged when the word was empty,
/// answered by the ignore-merges shortcut, or already cached; grown by the
/// word's merge result when there was room; unchanged when full.
pub open spec fn spec_cache_after(
    m: BpeView,
    cache: Map<Seq<char>, Seq<TokenView>>,
    capacity: nat,
    w: Seq<char>,
) -> Map<Seq<char>, Seq<TokenView>> {
    if w.len() == 0 || (m.ignore_merges && m.vocab.contains_key(w)) || cache.contains_key(w) {
        cache
    } else if cache.dom().len() < capacity {
        cache.insert(w, spec_merge_word(m, w))
    } else {
        cache
    }
}

/// Tokenizing with the unknown-merge search bypassed returns the whole
/// word's own vocabulary entry, whatever the merge table holds.
pub proof fn lemma_ignore_merges_bypass(m: BpeView, w: Seq<char>)
    requires
        m.ignore_merges,
        m.vocab.contains_key(w),
        w.len() > 0,
    ensures
        spec_bpe_tokenize(m, w) == seq![
            TokenView { id: m.vocab[w], value: w, offsets: (0usize, str_byte_len(w) as usize) },
        ],
{
}

/// Tokenizing is deterministic and cache-transparent: after clearing, one
/// call caches the word's result (when there is room), a repeated call finds
/// it cached and leaves the cache as it was, and both calls return one and
/// the same tokenization.
pub proof fn lemma_tokenize_idempotent(m: BpeView, capacity: nat, w: Seq<char>)
    requires
        capacity >= 1,
        w.len() > 0,
        !(m.ignore_merges && m.vocab.contains_key(w)),
    ensures
        spec_cache_after(m, Map::empty(), capacity, w) == Map::<Seq<char>, Seq<TokenView>>::empty()
            .insert(w, spec_merge_word(m, w)),
        spec_cache_after(m, spec_cache_after(m, Map::empty(), capacity, w), capacity, w)
            == spec_cache_after(m, Map::empty(), capacity, w),
        spec_cache_after(m, Map::empty(), capacity, w).contains_key(w),
{
    let empty = Map::<Seq<char>, Seq<TokenView>>::empty();
    assert(empty.dom() =~= Set::<Seq<char>>::empty());
    assert(empty.dom().len() == 0);
}

impl Bpe {
    /// The tables and parameters that determine this model's output.
    pub open spec fn config_view(&self) -> BpeView {
        BpeView {
            vocab: self.vocab.view_map(),
            merges: self.merges_view(),
            unk_token: match self.unk_token {
                Some(ref u) => Some(u@),
                None => None,
            },
            continuing_subword_prefix: match self.continuing_subword_prefix {
                Some(ref p) => Some(p@),
                None => None,
            },
            end_of_word_suffix: match self.end_of_word_suffix {
                Some(ref s) => Some(s@),
                None => None,
            },
            fuse_unk: self.fuse_unk,
            byte_fallback: self.byte_fallback,
            ignore_merges: self.ignore_merges,
        }
    }

    /// The merge table as a map over id pairs.
    pub open spec fn merges_view(&self) -> Map<(u32, u32), (u32, u32)> {
        Map::new(
            |p: (u32, u32)| self.merges@.contains_key(spec_key64(p.0, p.1)),
            |p: (u32, u32)| self.merges@[spec_key64(p.0, p.1)],
        )
    }

    /// The cached results.
    pub open spec fn cache_view(&self) -> Map<Seq<char>, Seq<TokenView>> {
        self.cache.view_map()
    }

    /// The cache's capacity.
    pub open spec fn cache_capacity(&self) -> nat {
        self.cache.spec_capacity()
    }

    /// The vocabulary is coherent and every cached entry is the word's own
    /// merge result.
    pub open spec fn wf(&self) -> bool {
        &&& self.vocab.wf()
        &&& forall|w: Seq<char>|
            #[trigger] self.cache_view().contains_key(w) ==> self.cache_view()[w]
                == spec_merge_word(self.config_view(), w)
    }

    /// Builds the model from a vocabulary, an already-resolved merge table
    /// keyed by id pairs, and the configuration switches.
    pub fn new(
        vocab: Vocab,
        merge_list: Vec<((u32, u32), (u32, u32))>,
        unk_token: Option<String>,
        continuing_subword_prefix: Option<String>,
        end_of_word_suffix: Option<String>,
        fuse_unk: bool,
        byte_fallback: bool,
        ignore_merges: bool,
    ) -> (r: Bpe)
        requires
            vocab.wf(),
        ensures
            r.wf(),
            r.config_view().vocab == vocab.view_map(),
            r.config_view().merges == spec_merge_table(merge_list@),
            r.config_view().fuse_unk == fuse_unk,
            r.config_view().byte_fallback == byte_fallback,
            r.config_view().ignore_merges == ignore_merges,
            r.config_view().unk_token == (match unk_token {
                Some(u) => Some(u@),
                None => None::<Seq<char>>,
            }),
            r.config_view().continuing_subword_prefix == (match continuing_subword_prefix {
                Some(p) => Some(p@),
                None => None::<Seq<char>>,
            }),
            r.config_view().end_of_word_suffix == (match end_of_word_suffix {
                Some(s) => Some(s@),
                None => None::<Seq<char>>,
            }),
            r.cache_view() == Map::<Seq<char>, Seq<TokenView>>::empty(),
            r.cache_capacity() == DEFAULT_CACHE_CAPACITY as nat,
    {
        let mut merges: HashMapWithView<u64, (u32, u32)> = HashMapWithView::new();
        let mut i: usize = 0;
        proof {
            assert(merge_list@.take(0) =~= Seq::<((u32, u32), (u32, u32))>::empty());
            assert(Map::new(
                |p: (u32, u32)| merges@.contains_key(spec_key64(p.0, p.1)),
                |p: (u32, u32)| merges@[spec_key64(p.0, p.1)],
            ) =~= spec_merge_table(merge_list@.take(0)));
        }
        while i < merge_list.len()
            invariant
                i <= merge_list@.len(),
                Map::new(
                    |p: (u32, u32)| merges@.contains_key(spec_key64(p.0, p.1)),
                    |p: (u32, u32)| merges@[spec_key64(p.0, p.1)],
                ) == spec_merge_table(merge_list@.take(i as int)),
            decreases merge_list@.len() - i,
        {
            let ((l, rr), v) = merge_list[i];
            let k = key64(l, rr);
            merges.insert(k, v);
            i = i + 1;
            proof {
                assert(merge_list@.take(i as int).drop_last() =~= merge_list@.take(i - 1));
                assert(merge_list@.take(i as int).last() == merge_list@[i - 1]);
                assert forall|p: (u32, u32)|
                    merges@.contains_key(spec_key64(p.0, p.1)) == spec_merge_table(
                        merge_list@.take(i as int),
                    ).contains_key(p) && (merges@.contains_key(spec_key64(p.0, p.1))
                    ==> merges@[spec_key64(p.0, p.1)] == spec_merge_table(
                    merge_list@.take(i as int),
                )[p]) by {
                    if spec_key64(p.0, p.1) == spec_key64(l, rr) {
                        lemma_key64_injective(p.0, p.1, l, rr);
                    }
                }
                assert(Map::new(
                    |p: (u32, u32)| merges@.contains_key(spec_key64(p.0, p.1)),
                    |p: (u32, u32)| merges@[spec_key64(p.0, p.1)],
                ) =~= spec_merge_table(merge_list@.take(i as int)));
            }
        }
        proof {
            assert(merge_list@.take(merge_list@.len() as int) =~= merge_list@);
        }
        let r = Bpe {
            vocab,
            merges,
            cache: Cache::new(DEFAULT_CACHE_CAPACITY),
            unk_token,
            continuing_subword_prefix,
            end_of_word_suffix,
            fuse_unk,
            byte_fallback,
            ignore_merges,
        };
        r
    }

    /// Builds the model from a vocabulary and a written merge list, each
    /// pair resolved against the vocabulary: both sides and their
    /// concatenation (the right side stripped of the continuing prefix)
    /// must be declared, and the pair's position becomes its rank.
    pub fn from_vocab_and_merges(
        vocab: Vocab,
        merges: Vec<(String, String)>,
        unk_token: Option<String>,
        continuing_subword_prefix: Option<String>,
        end_of_word_suffix: Option<String>,
        fuse_unk: bool,
        byte_fallback: bool,
        ignore_merges: bool,
    ) -> (r: Result<Bpe, String>)
        requires
            vocab.wf(),
        ensures
            r is Ok <==> (merges@.len() <= 0x1_0000_0000int && (forall|k: int|
                0 <= k < merges@.len() ==> spec_resolve_merge(
                    vocab.view_map(),
                    spec_opt_view(continuing_subword_prefix),
                    (#[trigger] merges@[k]).0@,
                    merges@[k].1@,
                ) is Some)),
            r is Ok ==> {
                &&& r->Ok_0.wf()
                &&& r->Ok_0.config_view().vocab == vocab.view_map()
                &&& r->Ok_0.config_view().merges == spec_merge_table(
                    spec_resolved_merges(
                        vocab.view_map(),
                        spec_opt_view(continuing_subword_prefix),
                        merges.deep_view(),
                    ),
                )
                &&& r->Ok_0.config_view().unk_token == spec_opt_view(unk_token)
                &&& r->Ok_0.config_view().continuing_subword_prefix == spec_opt_view(
                    continuing_subword_prefix,
                )
                &&& r->Ok_0.config_view().end_of_word_suffix == spec_opt_view(end_of_word_suffix)
                &&& r->Ok_0.config_view().fuse_unk == fuse_unk
                &&& r->Ok_0.config_view().byte_fallback == byte_fallback
                &&& r->Ok_0.config_view().ignore_merges == ignore_merges
                &&& r->Ok_0.cache_view() == Map::<Seq<char>, Seq<TokenView>>::empty()
            },
    {
        let ghost vm = vocab.view_map();
        let ghost pv = spec_opt_view(continuing_subword_prefix);
        let ghost mv = merges.deep_view();
        let mut resolved: Vec<((u32, u32), (u32, u32))> = Vec::new();
        let mut k: usize = 0;
        while k < merges.len()
            invariant
                k <= merges@.len(),
                vocab.wf(),
                vm == vocab.view_map(),
                pv == spec_opt_view(continuing_subword_prefix),
                mv == merges.deep_view(),
                mv.len() == merges@.len(),
                k <= 0x1_0000_0000int,
                forall|q: int|
                    0 <= q < k ==> spec_resolve_merge(vm, pv, (#[trigger] mv[q]).0, mv[q].1)
                        is Some,
                resolved@.len() == k,
                forall|q: int| 0 <= q < k ==> #[trigger] resolved@[q] == spec_resolved_merges(
                    vm,
                    pv,
                    mv,
                )[q],
            decreases merges@.len() - k,
        {
            if k as u64 >= 0x1_0000_0000u64 {
                proof {
                    assert(merges@.len() > 0x1_0000_0000int);
                }
                return Err(("too many merges").to_owned());
            }
            let a = &merges[k].0;
            let b = &merges[k].1;
            proof {
                assert(mv[k as int] == (merges@[k as int].0@, merges@[k as int].1@));
            }
            // The merged token: the left side, then the right side with the
            // continuing prefix removed.
            let b_chars = chars_of_str(b.as_str());
            let stripped: String = match &continuing_subword_prefix {
                Some(p) => {
                    let p_chars = chars_of_str(p.as_str());
                    if b_chars.len() >= p_chars.len() {
                        let head = subvec(&b_chars, 0, p_chars.len());
                        let head_str = string_from_chars(&head);
                        if head_str == *p {
                            let tail = subvec(&b_chars, p_chars.len(), b_chars.len());
                            proof {
                                assert(head@ == b@.take(p@.len() as int));
                                assert(tail@ == b@.skip(p@.len() as int));
                            }
                            string_from_chars(&tail)
                        } else {
                            proof {
                                assert(head@ == b@.take(p@.len() as int));
                            }
                            b.clone()
                        }
                    } else {
                        b.clone()
                    }
                },
                None => b.clone(),
            };
            proof {
                assert(stripped@ == spec_strip_prefix(pv, b@));
            }
            let mut merged = a.clone();
            merged.append(stripped.as_str());
            let ghost kv = k as int;
            let la = match vocab.token_to_id(a.as_str()) {
                Some(id) => id,
                None => {
                    proof {
                        assert(spec_resolve_merge(vm, pv, merges@[kv].0@, merges@[kv].1@)
                            is None);
                    }
                    return Err(("merge token out of vocabulary").to_owned());
                },
            };
            let lb = match vocab.token_to_id(b.as_str()) {
                Some(id) => id,
                None => {
                    proof {
                        assert(spec_resolve_merge(vm, pv, merges@[kv].0@, merges@[kv].1@)
                            is None);
                    }
                    return Err(("merge token out of vocabulary").to_owned());
                },
            };
            let mid = match vocab.token_to_id(merged.as_str()) {
                Some(id) => id,
                None => {
                    proof {
                        assert(merged@ == merges@[kv].0@ + spec_strip_prefix(
                            pv,
                            merges@[kv].1@,
                        ));
                        assert(spec_resolve_merge(vm, pv, merges@[kv].0@, merges@[kv].1@)
                            is None);
                    }
                    return Err(("merge token out of vocabulary").to_owned());
                },
            };
            resolved.push(((la, lb), (k as u32, mid)));
            k = k + 1;
            proof {
                assert(resolved@[k - 1] == spec_resolved_merges(vm, pv, mv)[k - 1]);
            }
        }
        proof {
            assert(resolved@ =~= spec_resolved_merges(vm, pv, mv));
            assert forall|q: int|
                0 <= q < merges@.len() implies spec_resolve_merge(
                vm,
                pv,
                (#[trigger] merges@[q]).0@,
                merges@[q].1@,
            ) is Some by {
                assert(mv[q] == (merges@[q].0@, merges@[q].1@));
            }
        }
        Ok(
            Bpe::new(
                vocab,
                resolved,
                unk_token,
                continuing_subword_prefix,
                end_of_word_suffix,
                fuse_unk,
                byte_fallback,
                ignore_merges,
            ),
        )
    }

    /// Builds the model from optional tables, as a caller hands them over:
    /// a vocabulary without merges, or merges without a vocabulary, is a
    /// configuration fault; neither given builds an empty model; both given
    /// build the model exactly when the entries are distinct and every merge
    /// pair resolves against them.
    pub fn from_optional_vocab_and_merges(
        vocab: Option<Vec<(String, u32)>>,
        merges: Option<Vec<(String, String)>>,
        unk_token: Option<String>,
        continuing_subword_prefix: Option<String>,
        end_of_word_suffix: Option<String>,
        fuse_unk: bool,
        byte_fallback: bool,
        ignore_merges: bool,
    ) -> (r: Result<Bpe, String>)
        ensures
            (vocab is Some) != (merges is Some) ==> r is Err && r->Err_0@
                == "`vocab` and `merges` must be both specified"@,
            vocab is None && merges is None ==> r is Ok,
            vocab is Some && merges is Some ==> {
                let evs = crate::models::vocab::entry_views_of(vocab->Some_0@);
                let vm = crate::models::vocab::spec_entries_map(evs);
                let pv = spec_opt_view(continuing_subword_prefix);
                &&& (r is Ok <==> ((forall|k1: int, k2: int|
                    0 <= k1 < k2 < evs.len() ==> (#[trigger] evs[k1]).0 != (#[trigger] evs[k2]).0
                        && evs[k1].1 != evs[k2].1) && merges->Some_0@.len() <= 0x1_0000_0000int && (
                forall|k: int|
                    0 <= k < merges->Some_0@.len() ==> spec_resolve_merge(
                        vm,
                        pv,
                        (#[trigger] merges->Some_0@[k]).0@,
                        merges->Some_0@[k].1@,
                    ) is Some)))
                &&& (r is Ok ==> r->Ok_0.config_view().vocab == vm
                    && r->Ok_0.config_view().merges == spec_merge_table(
                    spec_resolved_merges(vm, pv, merges->Some_0.deep_view()),
                ))
            },
            r is Ok ==> {
                &&& r->Ok_0.wf()
                &&& r->Ok_0.config_view().unk_token == spec_opt_view(unk_token)
                &&& r->Ok_0.config_view().continuing_subword_prefix == spec_opt_view(
                    continuing_subword_prefix,
                )
                &&& r->Ok_0.config_view().end_of_word_suffix == spec_opt_view(end_of_word_suffix)
                &&& r->Ok_0.config_view().fuse_unk == fuse_unk
                &&& r->Ok_0.config_view().byte_fallback == byte_fallback
                &&& r->Ok_0.config_view().ignore_merges == ignore_merges
                &&& r->Ok_0.cache_view() == Map::<Seq<char>, Seq<TokenView>>::empty()
            },
    {
        match (vocab, merges) {
            (Some(v), Some(m)) => {
                let ghost evs = crate::models::vocab::entry_views_of(v@);
                let vb = match Vocab::try_from_entries(v) {
                    Ok(vb) => vb,
                    Err(e) => {
                        proof {
                            let (k1, k2) = choose|k1: int, k2: int|
                                0 <= k1 < k2 < v@.len() && !((#[trigger] v@[k1]).0@ != (
                                #[trigger] v@[k2]).0@ && v@[k1].1 != v@[k2].1);
                            assert(evs[k1] == (v@[k1].0@, v@[k1].1));
                            assert(evs[k2] == (v@[k2].0@, v@[k2].1));
                            assert(!(evs[k1].0 != evs[k2].0 && evs[k1].1 != evs[k2].1));
                        }
                        return Err(e);
                    },
                };
                Bpe::from_vocab_and_merges(
                    vb,
                    m,
                    unk_token,
                    continuing_subword_prefix,
                    end_of_word_suffix,
                    fuse_unk,
                    byte_fallback,
                    ignore_merges,
                )
            },
            (None, None) => {
                Ok(
                    Bpe::new(
                        Vocab::new(),
                        Vec::new(),
                        unk_token,
                        continuing_subword_prefix,
                        end_of_word_suffix,
                        fuse_unk,
                        byte_fallback,
                        ignore_merges,
                    ),
                )
            },
            _ => Err(("`vocab` and `merges` must be both specified").to_owned()),
        }
    }

    /// Empties the cache.
    pub fn clear_cache(&mut self)
        requires
            old(self).wf(),
        ensures
            final(self).wf(),
            final(self).config_view() == old(self).config_view(),
            final(self).vocab == old(self).vocab,
            final(self).cache_view() == Map::<Seq<char>, Seq<TokenView>>::empty(),
            final(self).cache_capacity() == old(self).cache_capacity(),
    {
        self.cache.clear();
    }

    /// Sets a new cache capacity: the entries stay when they fit within it,
    /// and are all dropped when shrinking below the current occupancy.
    pub fn resize_cache(&mut self, capacity: usize)
        requires
            old(self).wf(),
        ensures
            final(self).wf(),
            final(self).config_view() == old(self).config_view(),
            final(self).vocab == old(self).vocab,
            final(self).cache_capacity() == capacity as nat,
            final(self).cache_view() == (if old(self).cache_view().dom().len() <= capacity as nat {
                old(self).cache_view()
            } else {
                Map::<Seq<char>, Seq<TokenView>>::empty()
            }),
    {
        self.cache.resize(capacity);
        proof {
            assert forall|w: Seq<char>| #[trigger] self.cache_view().contains_key(w) implies self
                .cache_view()[w] == spec_merge_word(self.config_view(), w) by {
                assert(old(self).cache_view().contains_key(w));
            }
        }
    }

    /// Whether whole-word vocabulary hits bypass the merge search.
    pub fn get_ignore_merges(&self) -> (r: bool)
        ensures
            r == self.config_view().ignore_merges,
    {
        self.ignore_merges
    }

    /// The unknown token's string, if one is declared.
    pub fn get_unk_token(&self) -> (r: &Option<String>)
        ensures
            spec_opt_view(*r) == self.config_view().unk_token,
    {
        &self.unk_token
    }

    /// Replaces the unknown token.  The cache empties: its entries were
    /// computed under the old setting.
    pub fn set_unk_token(&mut self, unk_token: Option<String>)
        requires
            old(self).wf(),
        ensures
            final(self).wf(),
            final(self).vocab == old(self).vocab,
            final(self).config_view() == (BpeView {
                unk_token: spec_opt_view(unk_token),
                ..old(self).config_view()
            }),
            final(self).cache_view() == Map::<Seq<char>, Seq<TokenView>>::empty(),
    {
        self.unk_token = unk_token;
        self.cache.clear();
    }

    /// The continuing-subword prefix, if one is declared.
    pub fn get_continuing_subword_prefix(&self) -> (r: &Option<String>)
        ensures
            spec_opt_view(*r) == self.config_view().continuing_subword_prefix,
    {
        &self.continuing_subword_prefix
    }

    /// Replaces the continuing-subword prefix, emptying the cache.
    pub fn set_continuing_subword_prefix(&mut self, prefix: Option<String>)
        requires
            old(self).wf(),
        ensures
            final(self).wf(),
            final(self).vocab == old(self).vocab,
            final(self).config_view() == (BpeView {
                continuing_subword_prefix: spec_opt_view(prefix),
                ..old(self).config_view()
            }),
            final(self).cache_view() == Map::<Seq<char>, Seq<TokenView>>::empty(),
    {
        self.continuing_subword_prefix = prefix;
        self.cache.clear();
    }

    /// The end-of-word suffix, if one is declared.
    pub fn get_end_of_word_suffix(&self) -> (r: &Option<String>)
        ensures
            spec_opt_view(*r) == self.config_view().end_of_word_suffix,
    {
        &self.end_of_word_suffix
    }

    /// Replaces the end-of-word suffix, emptying the cache.
    pub fn set_end_of_word_suffix(&mut self, suffix: Option<String>)
        requires
            old(self).wf(),
        ensures
            final(self).wf(),
            final(self).vocab == old(self).vocab,
            final(self).config_view() == (BpeView {
                end_of_word_suffix: spec_opt_view(suffix),
                ..old(self).config_view()
            }),
            final(self).cache_view() == Map::<Seq<char>, Seq<TokenView>>::empty(),
    {
        self.end_of_word_suffix = suffix;
        self.cache.clear();
    }

    /// Whether consecutive unknown tokens collapse into one.
    pub fn get_fuse_unk(&self) -> (r: bool)
        ensures
            r == self.config_view().fuse_unk,
    {
        self.fuse_unk
    }

    /// Switches unknown-token fusing, emptying the cache.
    pub fn set_fuse_unk(&mut self, fuse_unk: bool)
        requires
            old(self).wf(),
        ensures
            final(self).wf(),
            final(self).vocab == old(self).vocab,
            final(self).config_view() == (BpeView { fuse_unk, ..old(self).config_view() }),
            final(self).cache_view() == Map::<Seq<char>, Seq<TokenView>>::empty(),
    {
        self.fuse_unk = fuse_unk;
        self.cache.clear();
    }

    /// Whether unmapped characters degrade to per-byte tokens.
    pub fn get_byte_fallback(&self) -> (r: bool)
        ensures
            r == self.config_view().byte_fallback,
    {
        self.byte_fallback
    }

    /// Switches byte fallback, emptying the cache.
    pub fn set_byte_fallback(&mut self, byte_fallback: bool)
        requires
            old(self).wf(),
        ensures
            final(self).wf(),
            final(self).vocab == old(self).vocab,
            final(self).config_view() == (BpeView { byte_fallback, ..old(self).config_view() }),
            final(self).cache_view() == Map::<Seq<char>, Seq<TokenView>>::empty(),
    {
        self.byte_fallback = byte_fallback;
        self.cache.clear();
    }

    /// Switches the whole-word shortcut, emptying the cache.
    pub fn set_ignore_merges(&mut self, ignore_merges: bool)
        requires
            old(self).wf(),
        ensures
            final(self).wf(),
            final(self).vocab == old(self).vocab,
            final(self).config_view() == (BpeView { ignore_merges, ..old(self).config_view() }),
            final(self).cache_view() == Map::<Seq<char>, Seq<TokenView>>::empty(),
    {
        self.ignore_merges = ignore_merges;
        self.cache.clear();
    }

    /// Tokenizes one word: the empty word yields nothing; with
    /// `ignore_merges`, a word that is itself a vocabulary entry is returned
    /// whole; otherwise the merge result, served from the cache when
    /// already computed and cached afterwards while there is room.
    pub fn tokenize(&mut self, word: &str) -> (r: Vec<Token>)
        requires
            old(self).wf(),
            str_byte_len(word@) <= usize::MAX,
        ensures
            final(self).wf(),
            final(self).config_view() == old(self).config_view(),
            final(self).vocab == old(self).vocab,
            final(self).cache_capacity() == old(self).cache_capacity(),
            r.deep_view() == spec_bpe_tokenize(old(self).config_view(), word@),
            final(self).cache_view() == spec_cache_after(
                old(self).config_view(),
                old(self).cache_view(),
                old(self).cache_capacity(),
                word@,
            ),
    {
        let ghost m = self.config_view();
        if word.len() == 0 {
            let r: Vec<Token> = Vec::new();
            proof {
                assert(word@.len() == 0) by {
                    assert(encode_utf8(word@).len() == 0);
                    if word@.len() > 0 {
                        assert(encode_utf8(word@) == encode_scalar(word@[0] as u32) + encode_utf8(
                            word@.drop_first(),
                        ));
                        assert(encode_scalar(word@[0] as u32).len() >= 1);
                    }
                }
                assert(r.deep_view() =~= spec_bpe_tokenize(m, word@));
            }
            return r;
        }
        proof {
            assert(word@.len() > 0) by {
                if word@.len() == 0 {
                    assert(encode_utf8(word@) =~= Seq::<u8>::empty());
                }
            }
        }
        if self.ignore_merges {
            match self.vocab.token_to_id(word) {
                Some(id) => {
                    let mut r: Vec<Token> = Vec::new();
                    r.push(Token { id, value: word.to_owned(), offsets: (0, word.len()) });
                    proof {
                        assert(r.deep_view() =~= spec_bpe_tokenize(m, word@));
                    }
                    return r;
                },
                None => {},
            }
        }
        match self.cache.get(word) {
            Some(cached) => {
                let mut r: Vec<Token> = Vec::new();
                let mut i: usize = 0;
                while i < cached.len()
                    invariant
                        i <= cached@.len(),
                        r@.len() == i,
                        forall|k: int| 0 <= k < i ==> #[trigger] r@[k]@ == cached@[k]@,
                    decreases cached@.len() - i,
                {
                    r.push(cached[i].clone());
                    i = i + 1;
                }
                proof {
                    assert(r.deep_view() =~~= cached.deep_view());
                    assert(cached.deep_view() == self.cache_view()[word@]);
                    assert(self.cache_view()[word@] == spec_merge_word(m, word@));
                    assert(r.deep_view() == spec_bpe_tokenize(m, word@));
                }
                return r;
            },
            None => {},
        }
        let r = self.merge_word(word);
        let mut copy: Vec<Token> = Vec::new();
        let mut i: usize = 0;
        while i < r.len()
            invariant
                i <= r@.len(),
                copy@.len() == i,
                forall|k: int| 0 <= k < i ==> #[trigger] copy@[k]@ == r@[k]@,
            decreases r@.len() - i,
        {
            copy.push(r[i].clone());
            i = i + 1;
        }
        proof {
            assert(copy.deep_view() =~~= r.deep_view());
        }
        self.cache.set(word.to_owned(), copy);
        proof {
            assert(final(self).cache_view() =~~= spec_cache_after(
                m,
                old(self).cache_view(),
                old(self).cache_capacity(),
                word@,
            ));
            assert(r.deep_view() == spec_bpe_tokenize(m, word@));
        }
        r
    }

    /// Splits the word into decorated character symbols, runs the merge
    /// loop, and reads the surviving ids back as tokens.
    fn merge_word(&self, word: &str) -> (r: Vec<Token>)
        requires
            self.wf(),
            str_byte_len(word@) <= usize::MAX,
        ensures
            r.deep_view() == spec_merge_word(self.config_view(), word@),
    {
        let ghost m = self.config_view();
        let chars = chars_of_str(word);
        let n = chars.len();
        let mut syms: Vec<Sym> = Vec::new();
        let mut i: usize = 0;
        let mut off: usize = 0;
        proof {
            assert(spec_init_symbols(m, word@, 0, Seq::empty()) == spec_init_symbols(
                m,
                word@,
                0,
                syms@,
            ));
            assert(word@.take(0) =~= Seq::<char>::empty());
            assert(byte_off(word@, 0) == 0);
        }
        while i < n
            invariant
                i <= n,
                n == word@.len(),
                chars@ == word@,
                self.wf(),
                m == self.config_view(),
                off == byte_off(word@, i as int),
                off <= str_byte_len(word@),
                str_byte_len(word@) <= usize::MAX,
                spec_init_symbols(m, word@, 0, Seq::empty()) == spec_init_symbols(
                    m,
                    word@,
                    i as int,
                    syms@,
                ),
            decreases n - i,
        {
            let c = chars[i];
            let clen = char_utf8_len(c);
            proof {
                assert(word@.take(i + 1) =~= word@.take(i as int).push(word@[i as int]));
                lemma_encode_utf8_push(word@.take(i as int), word@[i as int]);
                lemma_byte_len_mono(word@, i + 1);
            }
            let end: usize = off + clen;
            let piece = self.decorate(&chars, i);
            let ghost pre = syms@;
            match self.vocab.token_to_id(piece.as_str()) {
                Some(id) => {
                    syms.push((id, off, end));
                    proof {
                        assert(syms@ =~= pre.push((id, off, end)));
                    }
                },
                None => {
                    let mut handled = false;
                    if self.byte_fallback {
                        match self.byte_fallback_syms(c, off) {
                            Some(mut extra) => {
                                proof {
                                    assert(extra@ == byte_syms(
                                        m.vocab,
                                        encode_scalar(word@[i as int] as u32),
                                        off as nat,
                                    ));
                                }
                                syms.append(&mut extra);
                                handled = true;
                                proof {
                                    assert(syms@ =~= pre + byte_syms(
                                        m.vocab,
                                        encode_scalar(word@[i as int] as u32),
                                        off as nat,
                                    ));
                                }
                            },
                            None => {},
                        }
                    }
                    if !handled {
                        let unk_id: Option<u32> = match &self.unk_token {
                            Some(u) => self.vocab.token_to_id(u.as_str()),
                            None => None,
                        };
                        match unk_id {
                            Some(uid) => {
                                let fuse = self.fuse_unk && syms.len() > 0 && syms[syms.len()
                                    - 1].0 == uid;
                                if fuse {
                                    let last = syms[syms.len() - 1];
                                    let pos = syms.len() - 1;
                                    syms.set(pos, (uid, last.1, end));
                                    proof {
                                        assert(syms@ =~= pre.drop_last().push(
                                            (uid, pre.last().1, end),
                                        ));
                                    }
                                } else {
                                    syms.push((uid, off, end));
                                }
                            },
                            None => {},
                        }
                    }
                },
            }
            i = i + 1;
            off = end;
        }
        proof {
            assert(spec_init_symbols(m, word@, n as int, syms@) == syms@);
        }
        // The merge loop: find the leftmost lowest-ranked pair and merge it,
        // until no pair is declared.
        let ghost init = syms@;
        loop
            invariant_except_break
                self.wf(),
                m == self.config_view(),
                spec_merge_fix(m.merges, syms@) == spec_merge_fix(m.merges, init),
            ensures
                self.wf(),
                m == self.config_view(),
                syms@ == spec_merge_fix(m.merges, init),
            decreases syms@.len(),
        {
            let mut best: Option<(usize, u32)> = None;
            let mut j: usize = 0;
            if syms.len() >= 1 {
                let limit = syms.len() - 1;
                while j < limit
                    invariant
                        self.wf(),
                        m == self.config_view(),
                        limit == syms@.len() - 1,
                        j <= limit,
                        syms@.len() >= 1,
                        match best {
                            Some((bi, br)) => mergeable(m.merges, syms@, bi as int) && rank_at(
                                m.merges,
                                syms@,
                                bi as int,
                            ) == br && bi as int + 1 < j + 1 && (forall|k: int|
                                0 <= k < j && mergeable(m.merges, syms@, k) ==> br <= rank_at(
                                    m.merges,
                                    syms@,
                                    k,
                                )) && (forall|k: int|
                                0 <= k < bi && mergeable(m.merges, syms@, k) ==> rank_at(
                                    m.merges,
                                    syms@,
                                    k,
                                ) > br),
                            None => forall|k: int|
                                0 <= k < j ==> !mergeable(m.merges, syms@, k),
                        },
                    decreases syms@.len() - j,
                {
                    let l = syms[j].0;
                    let rr = syms[j + 1].0;
                    let k = key64(l, rr);
                    match self.merges.get(&k) {
                        Some(rv) => {
                            proof {
                                assert(m.merges.contains_key((l, rr)));
                                assert(m.merges[(l, rr)] == self.merges@[spec_key64(l, rr)]);
                            }
                            let keep = match best {
                                Some((_, br)) => rv.0 < br,
                                None => true,
                            };
                            if keep {
                                best = Some((j, rv.0));
                            }
                        },
                        None => {
                            proof {
                                if m.merges.contains_key((l, rr)) {
                                    assert(self.merges@.contains_key(spec_key64(l, rr)));
                                }
                            }
                        },
                    }
                    j = j + 1;
                }
            }
            match best {
                Some((bi, _)) => {
                    proof {
                        assert(is_best(m.merges, syms@, bi as int));
                    }
                    let l = syms[bi].0;
                    let rr = syms[bi + 1].0;
                    let k = key64(l, rr);
                    let merged_id: u32 = match self.merges.get(&k) {
                        Some(rv) => rv.1,
                        None => 0,
                    };
                    let ghost pre = syms@;
                    let left = syms[bi];
                    let right = syms[bi + 1];
                    syms.set(bi, (merged_id, left.1, right.2));
                    syms.remove(bi + 1);
                    proof {
                        assert(syms@ =~= merge_at(m.merges, pre, bi as int));
                        lemma_merge_fix_step(m.merges, pre, bi as int);
                    }
                },
                None => {
                    proof {
                        assert forall|k: int| !is_best(m.merges, syms@, k) by {
                            if is_best(m.merges, syms@, k) {
                                assert(mergeable(m.merges, syms@, k));
                            }
                        }
                        assert(spec_merge_fix(m.merges, syms@) == syms@);
                    }
                    break ;
                },
            }
        }
        // Read the surviving ids back as tokens.
        let ghost fixed = spec_merge_fix(m.merges, init);
        proof {
            assert(syms@ == fixed);
        }
        let mut out: Vec<Token> = Vec::new();
        let mut k: usize = 0;
        while k < syms.len()
            invariant
                self.wf(),
                m == self.config_view(),
                k <= syms@.len(),
                syms@ == fixed,
                out@.len() == k,
                forall|q: int| 0 <= q < k ==> #[trigger] out@[q]@ == syms_to_tokens(
                    m.vocab,
                    fixed,
                )[q],
            decreases syms@.len() - k,
        {
            let s = syms[k];
            let value: String = match self.vocab.id_to_token(s.0) {
                Some(t) => {
                    proof {
                        self.vocab.lemma_ids_unique();
                        assert(spec_token_of_id(m.vocab, s.0) == t@);
                    }
                    t
                },
                None => {
                    proof {
                        assert(spec_token_of_id(m.vocab, s.0) =~= Seq::<char>::empty());
                    }
                    String::new()
                },
            };
            out.push(Token { id: s.0, value, offsets: (s.1, s.2) });
            k = k + 1;
        }
        proof {
            assert(out.deep_view() =~~= syms_to_tokens(m.vocab, fixed));
        }
        out
    }

    /// The decorated piece string of the character at `i`.
    fn decorate(&self, chars: &Vec<char>, i: usize) -> (r: String)
        requires
            i < chars@.len(),
        ensures
            r@ == spec_piece_of(self.config_view(), chars@, i as int),
    {
        let mut base: Vec<char> = Vec::new();
        base.push(chars[i]);
        let base_str = string_from_chars(&base);
        let mut out: String = match &self.continuing_subword_prefix {
            Some(p) => {
                if i > 0 {
                    let mut s = p.clone();
                    s.append(base_str.as_str());
                    s
                } else {
                    base_str
                }
            },
            None => base_str,
        };
        let nlen = chars.len();
        match &self.end_of_word_suffix {
            Some(sfx) => {
                if i + 1 == nlen {
                    out.append(sfx.as_str());
                }
            },
            None => {},
        }
        proof {
            assert(out@ =~= spec_piece_of(self.config_view(), chars@, i as int));
        }
        out
    }

    /// The per-byte fallback symbols of one character, when every byte's
    /// token is declared.
    fn byte_fallback_syms(&self, c: char, start: usize) -> (r: Option<Vec<Sym>>)
        requires
            self.wf(),
            start + encode_scalar(c as u32).len() <= usize::MAX,
        ensures
            r is Some <==> bytes_known(self.config_view().vocab, encode_scalar(c as u32)),
            r is Some ==> r->Some_0@ == byte_syms(
                self.config_view().vocab,
                encode_scalar(c as u32),
                start as nat,
            ),
    {
        let ghost m = self.config_view();
        let bs = char_bytes(c);
        let mut out: Vec<Sym> = Vec::new();
        let mut k: usize = 0;
        while k < bs.len()
            invariant
                k <= bs@.len(),
                bs@ == encode_scalar(c as u32),
                start + bs@.len() <= usize::MAX,
                self.wf(),
                m == self.config_view(),
                out@ == byte_syms(m.vocab, bs@, start as nat).take(k as int),
                forall|q: int| 0 <= q < k ==> m.vocab.contains_key(
                    #[trigger] spec_byte_token(bs@[q]),
                ),
            decreases bs@.len() - k,
        {
            let tok = byte_token_string(bs[k]);
            match self.vocab.token_to_id(tok.as_str()) {
                Some(id) => {
                    out.push((id, start + k, start + k + 1));
                    proof {
                        assert(out@ =~= byte_syms(m.vocab, bs@, start as nat).take(k + 1));
                    }
                },
                None => {
                    return None;
                },
            }
            k = k + 1;
        }
        proof {
            assert(byte_syms(m.vocab, bs@, start as nat).take(bs@.len() as int) =~= byte_syms(
                m.vocab,
                bs@,
                start as nat,
            ));
        }
        Some(out)
    }
}


/// The character sequence an optional string denotes.
pub open spec fn spec_opt_view(s: Option<String>) -> Option<Seq<char>> {
    match s {
        Some(x) => Some(x@),
        None => None,
    }
}

/// A merge side with the continuing-subword prefix removed, as the merged
/// token is written in the vocabulary.
pub open spec fn spec_strip_prefix(prefix: Option<Seq<char>>, b: Seq<char>) -> Seq<char> {
    match prefix {
        Some(p) => if b.len() >= p.len() && b.take(p.len() as int) == p {
            b.skip(p.len() as int)
        } else {
            b
        },
        None => b,
    }
}

/// What one written merge pair resolves to: the two sides' ids and the id
/// of their concatenation (the right side stripped of the continuing
/// prefix), when the vocabulary declares all three.
pub open spec fn spec_resolve_merge(
    vm: Map<Seq<char>, u32>,
    prefix: Option<Seq<char>>,
    a: Seq<char>,
    b: Seq<char>,
) -> Option<(u32, u32, u32)> {
    let merged = a + spec_strip_prefix(prefix, b);
    if vm.contains_key(a) && vm.contains_key(b) && vm.contains_key(merged) {
        Some((vm[a], vm[b], vm[merged]))
    } else {
        None
    }
}

/// The resolved merge table of a written merge list: each pair's side ids
/// mapped to its position as rank and its merged id.
pub open spec fn spec_resolved_merges(
    vm: Map<Seq<char>, u32>,
    prefix: Option<Seq<char>>,
    l: Seq<(Seq<char>, Seq<char>)>,
) -> Seq<((u32, u32), (u32, u32))> {
    Seq::new(
        l.len(),
        |k: int|
            (
                (
                    spec_resolve_merge(vm, prefix, l[k].0, l[k].1)->Some_0.0,
                    spec_resolve_merge(vm, prefix, l[k].0, l[k].1)->Some_0.1,
                ),
                (k as u32, spec_resolve_merge(vm, prefix, l[k].0, l[k].1)->Some_0.2),
            ),
    )
}

/// The table a resolved merge list denotes: each id pair mapped to its rank
/// and merged id, later entries replacing earlier ones.
pub open spec fn spec_merge_table(l: Seq<((u32, u32), (u32, u32))>) -> Map<(u32, u32), (u32, u32)>
    decreases l.len(),
{
    if l.len() == 0 {
        Map::empty()
    } else {
        spec_merge_table(l.drop_last()).insert(l.last().0, l.last().1)
    }
}

/// Relies on `char::encode_utf8`: the UTF-8 bytes of one character.
#[verifier::external_body]
fn char_bytes(c: char) -> (r: Vec<u8>)
    ensures
        r@ == encode_scalar(c as u32),
{
    let mut buf = [0u8; 4];
    c.encode_utf8(&mut buf).as_bytes().to_vec()
}

/// The uppercase hex digit character of a value below sixteen.
fn hex_digit_exec(n: u8) -> (c: char)
    requires
        n < 16,
    ensures
        c == hex_digit_char(n as nat),
{
    if n == 0 {
        '0'
    } else if n == 1 {
        '1'
    } else if n == 2 {
        '2'
    } else if n == 3 {
        '3'
    } else if n == 4 {
        '4'
    } else if n == 5 {
        '5'
    } else if n == 6 {
        '6'
    } else if n == 7 {
        '7'
    } else if n == 8 {
        '8'
    } else if n == 9 {
        '9'
    } else if n == 10 {
        'A'
    } else if n == 11 {
        'B'
    } else if n == 12 {
        'C'
    } else if n == 13 {
        'D'
    } else if n == 14 {
        'E'
    } else {
        'F'
    }
}

/// The fallback token string of one byte.
pub(crate) fn byte_token_string(b: u8) -> (r: String)
    ensures
        r@ == spec_byte_token(b),
{
    let mut v: Vec<char> = Vec::new();
    v.push('<');
    v.push('0');
    v.push('x');
    v.push(hex_digit_exec(b / 16));
    v.push(hex_digit_exec(b % 16));
    v.push('>');
    proof {
        assert(v@ =~= spec_byte_token(b));
    }
    string_from_chars(&v)
}

} // verus!
