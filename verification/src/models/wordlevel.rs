//! Direct-lookup tokenization: the whole word is looked up in the
//! vocabulary; a miss resolves to the unknown token if one is declared, and
//! to nothing otherwise.

use vstd::prelude::*;

use crate::chars::str_byte_len;
use crate::models::vocab::Vocab;
use crate::{Token, TokenView};

verus! {

/// The direct-lookup model: a vocabulary and the unknown token's string.
pub struct WordLevel {
    pub vocab: Vocab,
    pub unk_token: String,
}

/// The tables and parameters that determine this model's output.
#[verifier::ext_equal]
pub struct WordLevelView {
    pub vocab: Map<Seq<char>, u32>,
    pub unk_token: Seq<char>,
}

/// What direct lookup returns: the word's own entry; else the unknown
/// token's entry, if declared; else nothing.  Offsets cover the word's
/// bytes.
pub open spec fn spec_wordlevel_tokenize(m: WordLevelView, w: Seq<char>) -> Seq<TokenView> {
    if m.vocab.contains_key(w) {
        seq![
            TokenView { id: m.vocab[w], value: w, offsets: (0usize, str_byte_len(w) as usize) },
        ]
    } else if m.vocab.contains_key(m.unk_token) {
        seq![
            TokenView {
                id: m.vocab[m.unk_token],
                value: m.unk_token,
                offsets: (0usize, str_byte_len(w) as usize),
            },
        ]
    } else {
        Seq::empty()
    }
}

impl WordLevel {
    /// The tables and parameters that determine this model's output.
    pub open spec fn config_view(&self) -> WordLevelView {
        WordLevelView { vocab: self.vocab.view_map(), unk_token: self.unk_token@ }
    }

    /// The model's tables are coherent.
    pub open spec fn wf(&self) -> bool {
        self.vocab.wf()
    }

    /// Builds the model over a vocabulary, with the unknown token's string.
    pub fn new(vocab: Vocab, unk_token: String) -> (r: WordLevel)
        requires
            vocab.wf(),
        ensures
            r.wf(),
            r.config_view() == (WordLevelView { vocab: vocab.view_map(), unk_token: unk_token@ }),
    {
        WordLevel { vocab, unk_token }
    }

    /// The unknown token's string.
    pub fn get_unk_token(&self) -> (r: &String)
        ensures
            r@ == self.config_view().unk_token,
    {
        &self.unk_token
    }

    /// Replaces the unknown token's string.
    pub fn set_unk_token(&mut self, unk_token: String)
        requires
            old(self).wf(),
        ensures
            final(self).wf(),
            final(self).config_view() == (WordLevelView {
                unk_token: unk_token@,
                ..old(self).config_view()
            }),
    {
        self.unk_token = unk_token;
    }

    /// Looks the whole word up.
    pub fn tokenize(&self, word: &str) -> (r: Vec<Token>)
        requires
            self.wf(),
        ensures
            r.deep_view() == spec_wordlevel_tokenize(self.config_view(), word@),
    {
        let n = word.len();
        let mut r: Vec<Token> = Vec::new();
        match self.vocab.token_to_id(word) {
            Some(id) => {
                r.push(Token { id, value: word.to_owned(), offsets: (0, n) });
            },
            None => {
                match self.vocab.token_to_id(self.unk_token.as_str()) {
                    Some(id) => {
                        r.push(Token { id, value: self.unk_token.clone(), offsets: (0, n) });
                    },
                    None => {},
                }
            },
        }
        proof {
            assert(r.deep_view() =~~= spec_wordlevel_tokenize(self.config_view(), word@));
        }
        r
    }
}

} // verus!
