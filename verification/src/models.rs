//! The tokenization models: a vocabulary shared by all of them, a bounded
//! lookaside cache, and the four algorithms — byte-pair merging, greedy
//! longest match, direct lookup, and lattice segmentation — behind one
//! closed dispatch type.

pub mod bpe;
pub mod cache;
pub mod unigram;
pub mod vocab;
pub mod wordlevel;
pub mod wordpiece;

use vstd::prelude::*;

use crate::{Token, TokenView};
use bpe::Bpe;
use unigram::Unigram;
use wordlevel::WordLevel;
use wordpiece::WordPiece;

verus! {

/// One of the four tokenization algorithms, dispatched exhaustively.
pub enum Model {
    Bpe(Bpe),
    WordPiece(WordPiece),
    WordLevel(WordLevel),
    Unigram(Unigram),
}

impl Model {
    /// Every variant's internal tables are coherent.
    pub open spec fn wf(&self) -> bool {
        match self {
            Model::Bpe(m) => m.wf(),
            Model::WordPiece(m) => m.wf(),
            Model::WordLevel(m) => m.wf(),
            Model::Unigram(m) => m.wf(),
        }
    }

    /// The token-to-id mapping of the variant's vocabulary.
    pub open spec fn vocab_map(&self) -> Map<Seq<char>, u32> {
        match self {
            Model::Bpe(m) => m.vocab.view_map(),
            Model::WordPiece(m) => m.vocab.view_map(),
            Model::WordLevel(m) => m.vocab.view_map(),
            Model::Unigram(m) => m.vocab.view_map(),
        }
    }

    /// The vocabulary entries of the variant, in insertion order.
    pub open spec fn vocab_entries(&self) -> Seq<(Seq<char>, u32)> {
        match self {
            Model::Bpe(m) => m.vocab.entry_views(),
            Model::WordPiece(m) => m.vocab.entry_views(),
            Model::WordLevel(m) => m.vocab.entry_views(),
            Model::Unigram(m) => m.vocab.entry_views(),
        }
    }

    /// Tokenizes one word with the variant's algorithm.  The result is a
    /// function of the model's tables and parameters alone; only a cache may
    /// change, never the mapping.
    pub fn tokenize(&mut self, word: &str) -> (r: Vec<Token>)
        requires
            old(self).wf(),
            crate::chars::str_byte_len(word@) <= usize::MAX,
        ensures
            final(self).wf(),
            final(self).vocab_map() == old(self).vocab_map(),
            final(self).vocab_entries() == old(self).vocab_entries(),
            match *old(self) {
                Model::Bpe(m) => r.deep_view() == bpe::spec_bpe_tokenize(m.config_view(), word@)
                    && *final(self) is Bpe && (*final(self))->Bpe_0.config_view() == m.config_view(),
                Model::WordPiece(m) => r.deep_view() == wordpiece::spec_wordpiece_tokenize(
                    m.config_view(),
                    word@,
                ) && *final(self) == *old(self),
                Model::WordLevel(m) => r.deep_view() == wordlevel::spec_wordlevel_tokenize(
                    m.config_view(),
                    word@,
                ) && *final(self) == *old(self),
                Model::Unigram(m) => r.deep_view() == unigram::spec_unigram_tokenize(
                    m.config_view(),
                    word@,
                ) && *final(self) is Unigram && (*final(self))->Unigram_0.config_view()
                    == m.config_view(),
            },
    {
        match self {
            Model::Bpe(m) => m.tokenize(word),
            Model::WordPiece(m) => m.tokenize(word),
            Model::WordLevel(m) => m.tokenize(word),
            Model::Unigram(m) => m.tokenize(word),
        }
    }

    /// The id of a token string, if the vocabulary knows it.
    pub fn token_to_id(&self, token: &str) -> (r: Option<u32>)
        requires
            self.wf(),
        ensures
            r == if self.vocab_map().contains_key(token@) {
                Some(self.vocab_map()[token@])
            } else {
                None::<u32>
            },
    {
        match self {
            Model::Bpe(m) => m.vocab.token_to_id(token),
            Model::WordPiece(m) => m.vocab.token_to_id(token),
            Model::WordLevel(m) => m.vocab.token_to_id(token),
            Model::Unigram(m) => m.vocab.token_to_id(token),
        }
    }

    /// The token string of an id, if the vocabulary holds one.
    pub fn id_to_token(&self, id: u32) -> (r: Option<String>)
        requires
            self.wf(),
        ensures
            r is Some <==> (exists|k: int|
                0 <= k < self.vocab_entries().len() && (#[trigger] self.vocab_entries()[k]).1
                    == id),
            r is Some ==> self.vocab_map().contains_key(r->Some_0@) && self.vocab_map()[r->Some_0@]
                == id,
    {
        let r = match self {
            Model::Bpe(m) => m.vocab.id_to_token(id),
            Model::WordPiece(m) => m.vocab.id_to_token(id),
            Model::WordLevel(m) => m.vocab.id_to_token(id),
            Model::Unigram(m) => m.vocab.id_to_token(id),
        };
        proof {
            match self {
                Model::Bpe(m) => {
                    assert(self.vocab_entries() == m.vocab.entry_views());
                },
                Model::WordPiece(m) => {
                    assert(self.vocab_entries() == m.vocab.entry_views());
                },
                Model::WordLevel(m) => {
                    assert(self.vocab_entries() == m.vocab.entry_views());
                },
                Model::Unigram(m) => {
                    assert(self.vocab_entries() == m.vocab.entry_views());
                },
            }
        }
        r
    }

    /// A snapshot of the vocabulary, token by token.
    pub fn get_vocab(&self) -> (r: &Vec<(String, u32)>)
        ensures
            r.deep_view() == self.vocab_entries(),
    {
        match self {
            Model::Bpe(m) => m.vocab.entries(),
            Model::WordPiece(m) => m.vocab.entries(),
            Model::WordLevel(m) => m.vocab.entries(),
            Model::Unigram(m) => m.vocab.entries(),
        }
    }

    /// How many tokens the vocabulary declares.
    pub fn get_vocab_size(&self) -> (r: usize)
        ensures
            r == self.vocab_entries().len(),
    {
        match self {
            Model::Bpe(m) => m.vocab.len(),
            Model::WordPiece(m) => m.vocab.len(),
            Model::WordLevel(m) => m.vocab.len(),
            Model::Unigram(m) => m.vocab.len(),
        }
    }

    /// Empties the variant's cache, if it keeps one; the mapping itself is
    /// untouched.
    pub fn clear_cache(&mut self)
        requires
            old(self).wf(),
        ensures
            final(self).wf(),
            final(self).vocab_map() == old(self).vocab_map(),
            final(self).vocab_entries() == old(self).vocab_entries(),
            match *old(self) {
                Model::Bpe(m) => *final(self) is Bpe && (*final(self))->Bpe_0.config_view()
                    == m.config_view() && (*final(self))->Bpe_0.cache_view()
                    == Map::<Seq<char>, Seq<TokenView>>::empty(),
                Model::Unigram(m) => *final(self) is Unigram
                    && (*final(self))->Unigram_0.config_view() == m.config_view()
                    && (*final(self))->Unigram_0.cache_view() == Map::<
                    Seq<char>,
                    Seq<TokenView>,
                >::empty(),
                Model::WordPiece(_) => *final(self) == *old(self),
                Model::WordLevel(_) => *final(self) == *old(self),
            },
    {
        match self {
            Model::Bpe(m) => m.clear_cache(),
            Model::Unigram(m) => m.clear_cache(),
            Model::WordPiece(_) => {},
            Model::WordLevel(_) => {},
        }
    }

    /// Sets a new cache capacity for the variant, if it keeps a cache: the
    /// entries stay when they fit within it, and are all dropped when
    /// shrinking below the current occupancy.
    pub fn resize_cache(&mut self, capacity: usize)
        requires
            old(self).wf(),
        ensures
            final(self).wf(),
            final(self).vocab_map() == old(self).vocab_map(),
            final(self).vocab_entries() == old(self).vocab_entries(),
            match *old(self) {
                Model::Bpe(m) => *final(self) is Bpe && (*final(self))->Bpe_0.config_view()
                    == m.config_view() && (*final(self))->Bpe_0.cache_capacity() == capacity as nat
                    && (*final(self))->Bpe_0.cache_view() == (if m.cache_view().dom().len()
                    <= capacity as nat {
                    m.cache_view()
                } else {
                    Map::<Seq<char>, Seq<TokenView>>::empty()
                }),
                Model::Unigram(m) => *final(self) is Unigram
                    && (*final(self))->Unigram_0.config_view() == m.config_view()
                    && (*final(self))->Unigram_0.cache_capacity() == capacity as nat
                    && (*final(self))->Unigram_0.cache_view() == (if m.cache_view().dom().len()
                    <= capacity as nat {
                    m.cache_view()
                } else {
                    Map::<Seq<char>, Seq<TokenView>>::empty()
                }),
                Model::WordPiece(_) => *final(self) == *old(self),
                Model::WordLevel(_) => *final(self) == *old(self),
            },
    {
        match self {
            Model::Bpe(m) => m.resize_cache(capacity),
            Model::Unigram(m) => m.resize_cache(capacity),
            Model::WordPiece(_) => {},
            Model::WordLevel(_) => {},
        }
    }
}

} // verus!
