//! A single-pass cursor over the tokens produced by one run of a pipeline.

use vstd::prelude::*;

use crate::token::{Token, TokenView};

verus! {

/// A mathematical picture of a [`TokenStream`]: the full token sequence of
/// the run, together with how far the consumer has advanced into it.
pub struct StreamView {
    pub tokens: Seq<TokenView>,
    pub cursor: int,
}

/// The finite, non-restartable stream of tokens that one invocation of a
/// pipeline yields. The consumer pulls with [`TokenStream::advance`] and
/// reads the current token with [`TokenStream::token`]; a second pass
/// requires re-invoking the pipeline on the input.
pub struct TokenStream {
    tokens: Vec<Token>,
    cursor: usize,
}

impl View for TokenStream {
    type V = StreamView;

    closed spec fn view(&self) -> StreamView {
        StreamView { tokens: self.tokens@.map_values(|t: Token| t@), cursor: self.cursor as int }
    }
}

/// True when the cursor rests on a token that [`TokenStream::token`] may read.
pub open spec fn on_token(s: StreamView) -> bool {
    1 <= s.cursor <= s.tokens.len()
}

impl TokenStream {
    /// Wraps a fully computed token sequence as a stream positioned before
    /// its first token.
    pub fn new(tokens: Vec<Token>) -> (r: Self)
        ensures
            r@.tokens == tokens@.map_values(|t: Token| t@),
            r@.cursor == 0,
    {
        TokenStream { tokens, cursor: 0 }
    }

    /// Moves to the next token. Returns whether one was available; the token
    /// sequence itself is unchanged.
    pub fn advance(&mut self) -> (b: bool)
        ensures
            final(self)@.tokens == old(self)@.tokens,
            b == (old(self)@.cursor < old(self)@.tokens.len()),
            b ==> final(self)@.cursor == old(self)@.cursor + 1,
            !b ==> final(self)@.cursor == old(self)@.cursor,
    {
        if self.cursor < self.tokens.len() {
            self.cursor = self.cursor + 1;
            true
        } else {
            false
        }
    }

    /// The token that the last successful [`TokenStream::advance`] moved onto.
    pub fn token(&self) -> (t: &Token)
        requires
            on_token(self@),
        ensures
            t@ == self@.tokens[self@.cursor - 1],
    {
        &self.tokens[self.cursor - 1]
    }
}

} // verus!
