//! A subword tokenization core: tokenization models over a trained
//! vocabulary, and a template post-processor that assembles one or two
//! tokenized sequences together with declared special tokens into a final
//! annotated encoding.

use vstd::prelude::*;

pub mod chars;
pub mod decimal;
pub mod formats;
pub mod pieces;
pub mod special;
pub mod template;
pub mod encoding;
pub mod processing;
pub mod apply;
pub mod models;

verus! {

/// A single unit of tokenized output: a vocabulary id, the surface form it
/// covers, and the byte range it occupies in the source word.
#[derive(Debug, PartialEq, Eq)]
pub struct Token {
    pub id: u32,
    pub value: String,
    pub offsets: (usize, usize),
}

/// The mathematical value of a `Token`.
#[verifier::ext_equal]
pub struct TokenView {
    pub id: u32,
    pub value: Seq<char>,
    pub offsets: (usize, usize),
}

impl View for Token {
    type V = TokenView;

    open spec fn view(&self) -> TokenView {
        TokenView { id: self.id, value: self.value@, offsets: self.offsets }
    }
}

impl DeepView for Token {
    type V = TokenView;

    open spec fn deep_view(&self) -> TokenView {
        self.view()
    }
}

impl Clone for Token {
    fn clone(&self) -> (r: Self)
        ensures
            r == *self,
    {
        Token { id: self.id, value: self.value.clone(), offsets: (self.offsets.0, self.offsets.1) }
    }
}

impl Token {
    pub fn new(id: u32, value: String, offsets: (usize, usize)) -> (r: Token)
        ensures
            r.id == id,
            r.value == value,
            r.offsets == offsets,
    {
        Token { id, value, offsets }
    }
}

} // verus!
