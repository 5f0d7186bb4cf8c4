//! Greedy longest-match tokenization: at each position the longest
//! vocabulary-known prefix is taken, non-initial pieces carrying the
//! continuing-subword prefix; a position with no match at all, or a word
//! over the length bound, resolves to the unknown token.

use vstd::prelude::*;

use crate::chars::{char_utf8_len, chars_of_str, lemma_byte_len_mono, lemma_encode_utf8_push,
    str_byte_len, string_from_chars, subvec};
use crate::models::bpe::byte_off;
use crate::models::vocab::Vocab;
use crate::{Token, TokenView};

verus! {

/// The tables and parameters that determine this model's output.
#[verifier::ext_equal]
pub struct WordPieceView {
    pub vocab: Map<Seq<char>, u32>,
    pub unk_token: Seq<char>,
    pub continuing_subword_prefix: Seq<char>,
    pub max_input_chars_per_word: nat,
}

/// The greedy longest-match model.
pub struct WordPiece {
    pub vocab: Vocab,
    pub unk_token: String,
    pub continuing_subword_prefix: String,
    pub max_input_chars_per_word: usize,
}

/// The looked-up form of the piece `w[start..end]`: prefixed when it does
/// not begin the word.
pub open spec fn wp_piece(m: WordPieceView, w: Seq<char>, start: int, end: int) -> Seq<char> {
    if start > 0 {
        m.continuing_subword_prefix + w.subrange(start, end)
    } else {
        w.subrange(start, end)
    }
}

/// The end of the longest known piece starting at `start` and reaching at
/// most `from`; `start` itself when none is known.
pub open spec fn wp_longest(m: WordPieceView, w: Seq<char>, start: int, from: int) -> int
    decreases from - start,
{
    if from <= start {
        start
    } else if m.vocab.contains_key(wp_piece(m, w, start, from)) {
        from
    } else {
        wp_longest(m, w, start, from - 1)
    }
}

/// The longest-match end stays within its bounds.
pub proof fn lemma_wp_longest_bounds(m: WordPieceView, w: Seq<char>, start: int, from: int)
    requires
        0 <= start <= from,
    ensures
        start <= wp_longest(m, w, start, from) <= from,
    decreases from - start,
{
    if from > start && !m.vocab.contains_key(wp_piece(m, w, start, from)) {
        lemma_wp_longest_bounds(m, w, start, from - 1);
    }
}

/// A found piece with nothing longer known is the longest match.
pub proof fn lemma_wp_longest_found(m: WordPieceView, w: Seq<char>, start: int, from: int, e: int)
    requires
        start < e <= from,
        m.vocab.contains_key(wp_piece(m, w, start, e)),
        forall|j: int| e < j <= from ==> !m.vocab.contains_key(#[trigger] wp_piece(m, w, start, j)),
    ensures
        wp_longest(m, w, start, from) == e,
    decreases from - e,
{
    if from > e {
        lemma_wp_longest_found(m, w, start, from - 1, e);
    }
}

/// When no piece starting at `start` is known, there is no match.
pub proof fn lemma_wp_longest_none(m: WordPieceView, w: Seq<char>, start: int, from: int)
    requires
        0 <= start <= from,
        forall|j: int| start < j <= from ==> !m.vocab.contains_key(
            #[trigger] wp_piece(m, w, start, j),
        ),
    ensures
        wp_longest(m, w, start, from) == start,
    decreases from - start,
{
    if from > start {
        lemma_wp_longest_none(m, w, start, from - 1);
    }
}

/// The greedy decomposition from `start` on: the longest known piece, then
/// the rest; nothing when some position has no known piece.
pub open spec fn wp_tokens(m: WordPieceView, w: Seq<char>, start: int) -> Option<Seq<TokenView>>
    decreases w.len() - start,
    via wp_tokens_dec
{
    if start < 0 || start >= w.len() {
        Some(Seq::empty())
    } else {
        let e = wp_longest(m, w, start, w.len() as int);
        if e <= start {
            None
        } else {
            match wp_tokens(m, w, e) {
                None => None,
                Some(rest) => Some(
                    seq![
                        TokenView {
                            id: m.vocab[wp_piece(m, w, start, e)],
                            value: wp_piece(m, w, start, e),
                            offsets: (
                                byte_off(w, start) as usize,
                                byte_off(w, e) as usize,
                            ),
                        },
                    ] + rest,
                ),
            }
        }
    }
}

#[via_fn]
proof fn wp_tokens_dec(m: WordPieceView, w: Seq<char>, start: int) {
    if 0 <= start < w.len() {
        lemma_wp_longest_bounds(m, w, start, w.len() as int);
    }
}

/// The unknown-token result: the unknown token covering the whole word, or
/// nothing when it is not itself declared.
pub open spec fn wp_unk_result(m: WordPieceView, w: Seq<char>) -> Seq<TokenView> {
    if m.vocab.contains_key(m.unk_token) {
        seq![
            TokenView {
                id: m.vocab[m.unk_token],
                value: m.unk_token,
                offsets: (0usize, str_byte_len(w) as usize),
            },
        ]
    } else {
        Seq::empty()
    }
}

/// What greedy longest-match returns: the decomposition when every position
/// matches and the word is within the length bound, the unknown token
/// otherwise.
pub open spec fn spec_wordpiece_tokenize(m: WordPieceView, w: Seq<char>) -> Seq<TokenView> {
    if w.len() > m.max_input_chars_per_word {
        wp_unk_result(m, w)
    } else {
        match wp_tokens(m, w, 0) {
            Some(ts) => ts,
            None => wp_unk_result(m, w),
        }
    }
}

impl WordPiece {
    /// The tables and parameters that determine this model's output.
    pub open spec fn config_view(&self) -> WordPieceView {
        WordPieceView {
            vocab: self.vocab.view_map(),
            unk_token: self.unk_token@,
            continuing_subword_prefix: self.continuing_subword_prefix@,
            max_input_chars_per_word: self.max_input_chars_per_word as nat,
        }
    }

    /// The model's tables are coherent.
    pub open spec fn wf(&self) -> bool {
        self.vocab.wf()
    }

    /// Builds the model over a vocabulary with its parameters.
    pub fn new(
        vocab: Vocab,
        unk_token: String,
        continuing_subword_prefix: String,
        max_input_chars_per_word: usize,
    ) -> (r: WordPiece)
        requires
            vocab.wf(),
        ensures
            r.wf(),
            r.config_view() == (WordPieceView {
                vocab: vocab.view_map(),
                unk_token: unk_token@,
                continuing_subword_prefix: continuing_subword_prefix@,
                max_input_chars_per_word: max_input_chars_per_word as nat,
            }),
    {
        WordPiece { vocab, unk_token, continuing_subword_prefix, max_input_chars_per_word }
    }

    /// The unknown token's string.
    pub fn get_unk_token(&self) -> (r: &String)
        ensures
            r@ == self.config_view().unk_token,
    {
        &self.unk_token
    }

    /// The continuing-subword prefix.
    pub fn get_continuing_subword_prefix(&self) -> (r: &String)
        ensures
            r@ == self.config_view().continuing_subword_prefix,
    {
        &self.continuing_subword_prefix
    }

    /// The longest word the model will decompose.
    pub fn get_max_input_chars_per_word(&self) -> (r: usize)
        ensures
            r as nat == self.config_view().max_input_chars_per_word,
    {
        self.max_input_chars_per_word
    }

    /// Replaces the unknown token.
    pub fn set_unk_token(&mut self, unk_token: String)
        requires
            old(self).wf(),
        ensures
            final(self).wf(),
            final(self).config_view() == (WordPieceView {
                unk_token: unk_token@,
                ..old(self).config_view()
            }),
    {
        self.unk_token = unk_token;
    }

    /// Replaces the continuing-subword prefix.
    pub fn set_continuing_subword_prefix(&mut self, prefix: String)
        requires
            old(self).wf(),
        ensures
            final(self).wf(),
            final(self).config_view() == (WordPieceView {
                continuing_subword_prefix: prefix@,
                ..old(self).config_view()
            }),
    {
        self.continuing_subword_prefix = prefix;
    }

    /// Replaces the length bound.
    pub fn set_max_input_chars_per_word(&mut self, max: usize)
        requires
            old(self).wf(),
        ensures
            final(self).wf(),
            final(self).config_view() == (WordPieceView {
                max_input_chars_per_word: max as nat,
                ..old(self).config_view()
            }),
    {
        self.max_input_chars_per_word = max;
    }

    /// The looked-up form of one piece of the word.
    fn piece_string(&self, chars: &Vec<char>, start: usize, end: usize) -> (r: String)
        requires
            start <= end <= chars@.len(),
        ensures
            r@ == wp_piece(self.config_view(), chars@, start as int, end as int),
    {
        let sub = subvec(chars, start, end);
        let sub_str = string_from_chars(&sub);
        if start > 0 {
            let mut s = self.continuing_subword_prefix.clone();
            s.append(sub_str.as_str());
            s
        } else {
            sub_str
        }
    }

    /// The unknown-token result.
    fn unk_tokens(&self, word: &str) -> (r: Vec<Token>)
        requires
            self.wf(),
        ensures
            r.deep_view() == wp_unk_result(self.config_view(), word@),
    {
        let mut r: Vec<Token> = Vec::new();
        match self.vocab.token_to_id(self.unk_token.as_str()) {
            Some(id) => {
                r.push(Token { id, value: self.unk_token.clone(), offsets: (0, word.len()) });
            },
            None => {},
        }
        proof {
            assert(r.deep_view() =~~= wp_unk_result(self.config_view(), word@));
        }
        r
    }

    /// Decomposes one word greedily.
    pub fn tokenize(&self, word: &str) -> (r: Vec<Token>)
        requires
            self.wf(),
            str_byte_len(word@) <= usize::MAX,
        ensures
            r.deep_view() == spec_wordpiece_tokenize(self.config_view(), word@),
    {
        let ghost m = self.config_view();
        let chars = chars_of_str(word);
        let n = chars.len();
        let total_bytes = word.len();
        proof {
            assert(total_bytes == str_byte_len(word@));
        }
        if n > self.max_input_chars_per_word {
            return self.unk_tokens(word);
        }
        let mut out: Vec<Token> = Vec::new();
        let mut start: usize = 0;
        let mut start_off: usize = 0;
        proof {
            assert(word@.take(0) =~= Seq::<char>::empty());
        }
        while start < n
            invariant
                start <= n,
                n == word@.len(),
                chars@ == word@,
                self.wf(),
                m == self.config_view(),
                total_bytes == str_byte_len(word@),
                start_off == byte_off(word@, start as int),
                start_off <= total_bytes,
                wp_tokens(m, word@, 0) is Some ==> wp_tokens(m, word@, 0)->Some_0
                    == out.deep_view() + (match wp_tokens(m, word@, start as int) {
                    Some(rest) => rest,
                    None => Seq::empty(),
                }),
                wp_tokens(m, word@, 0) is Some <==> wp_tokens(m, word@, start as int) is Some,
            decreases n - start,
        {
            // Find the longest known piece starting here.
            let mut e: usize = n;
            let mut found: Option<u32> = None;
            while e > start
                invariant_except_break
                    start < n,
                    start <= e <= n,
                    n == word@.len(),
                    chars@ == word@,
                    self.wf(),
                    m == self.config_view(),
                    found is None,
                    forall|j: int| e < j <= n ==> !m.vocab.contains_key(
                        #[trigger] wp_piece(m, word@, start as int, j),
                    ),
                ensures
                    start < n,
                    n == word@.len(),
                    chars@ == word@,
                    self.wf(),
                    m == self.config_view(),
                    match found {
                        Some(id) => start < e <= n && m.vocab.contains_key(
                            wp_piece(m, word@, start as int, e as int),
                        ) && id == m.vocab[wp_piece(m, word@, start as int, e as int)] && (
                        forall|j: int|
                            e < j <= n ==> !m.vocab.contains_key(
                                #[trigger] wp_piece(m, word@, start as int, j),
                            )),
                        None => forall|j: int|
                            (start as int) < j <= n ==> !m.vocab.contains_key(
                                #[trigger] wp_piece(m, word@, start as int, j),
                            ),
                    },
                decreases e,
            {
                let piece = self.piece_string(&chars, start, e);
                match self.vocab.token_to_id(piece.as_str()) {
                    Some(id) => {
                        found = Some(id);
                        break ;
                    },
                    None => {},
                }
                e = e - 1;
            }
            match found {
                Some(id) => {
                    proof {
                        lemma_wp_longest_found(m, word@, start as int, n as int, e as int);
                        assert(wp_longest(m, word@, start as int, n as int) == e as int);
                    }
                    // Walk the byte offset forward over the matched piece.
                    proof {
                        lemma_byte_len_mono(word@, start as int);
                    }
                    let mut end_off: usize = start_off;
                    let mut q: usize = start;
                    while q < e
                        invariant
                            start <= q <= e <= n,
                            n == word@.len(),
                            chars@ == word@,
                            total_bytes == str_byte_len(word@),
                            end_off == byte_off(word@, q as int),
                            end_off <= total_bytes,
                        decreases e - q,
                    {
                        proof {
                            assert(word@.take(q + 1) =~= word@.take(q as int).push(
                                word@[q as int],
                            ));
                            lemma_encode_utf8_push(word@.take(q as int), word@[q as int]);
                            lemma_byte_len_mono(word@, q + 1);
                        }
                        let cl = char_utf8_len(chars[q]);
                        end_off = end_off + cl;
                        q = q + 1;
                    }
                    let piece = self.piece_string(&chars, start, e);
                    let ghost pre = out.deep_view();
                    out.push(Token { id, value: piece, offsets: (start_off, end_off) });
                    proof {
                        let ghost rest0 = wp_tokens(m, word@, start as int);
                        assert(out.deep_view() =~~= pre.push(
                            TokenView {
                                id: m.vocab[wp_piece(m, word@, start as int, e as int)],
                                value: wp_piece(m, word@, start as int, e as int),
                                offsets: (
                                    byte_off(word@, start as int) as usize,
                                    byte_off(word@, e as int) as usize,
                                ),
                            },
                        ));
                        if wp_tokens(m, word@, e as int) is Some {
                            assert(pre.push(
                                TokenView {
                                    id: m.vocab[wp_piece(m, word@, start as int, e as int)],
                                    value: wp_piece(m, word@, start as int, e as int),
                                    offsets: (
                                        byte_off(word@, start as int) as usize,
                                        byte_off(word@, e as int) as usize,
                                    ),
                                },
                            ) + wp_tokens(m, word@, e as int)->Some_0 =~~= pre + (seq![
                                TokenView {
                                    id: m.vocab[wp_piece(m, word@, start as int, e as int)],
                                    value: wp_piece(m, word@, start as int, e as int),
                                    offsets: (
                                        byte_off(word@, start as int) as usize,
                                        byte_off(word@, e as int) as usize,
                                    ),
                                },
                            ] + wp_tokens(m, word@, e as int)->Some_0));
                        }
                    }
                    start = e;
                    start_off = end_off;
                },
                None => {
                    proof {
                        lemma_wp_longest_none(m, word@, start as int, n as int);
                        assert(wp_tokens(m, word@, start as int) is None);
                        assert(wp_tokens(m, word@, 0) is None);
                    }
                    return self.unk_tokens(word);
                },
            }
        }
        proof {
            assert(wp_tokens(m, word@, n as int) == Some(Seq::<TokenView>::empty()));
            assert(out.deep_view() + Seq::<TokenView>::empty() =~~= out.deep_view());
            assert(out.deep_view() == spec_wordpiece_tokenize(m, word@));
        }
        out
    }
}

} // verus!
