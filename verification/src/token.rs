//! The atomic output unit of text analysis.

use vstd::prelude::*;

verus! {

/// A mathematical picture of a [`Token`]: its text as a character sequence
/// and its bookkeeping fields as unbounded integers.
pub struct TokenView {
    pub text: Seq<char>,
    pub offset_from: int,
    pub offset_to: int,
    pub position: int,
    pub position_length: int,
}

/// One unit of analyzed text.
///
/// `offset_from` and `offset_to` delimit the token's half-open byte span in
/// the *original* input text; they keep referring to the original text even
/// after a filter rewrites `text`. `position` is the token's word index in
/// the stream (it may skip values when a filter drops tokens), and
/// `position_length` is the number of word positions the token spans.
pub struct Token {
    pub text: String,
    pub offset_from: usize,
    pub offset_to: usize,
    pub position: usize,
    pub position_length: usize,
}

impl View for Token {
    type V = TokenView;

    open spec fn view(&self) -> TokenView {
        TokenView {
            text: self.text@,
            offset_from: self.offset_from as int,
            offset_to: self.offset_to as int,
            position: self.position as int,
            position_length: self.position_length as int,
        }
    }
}

impl Clone for Token {
    fn clone(&self) -> (r: Self)
        ensures
            r@ == self@,
    {
        Token {
            text: self.text.clone(),
            offset_from: self.offset_from,
            offset_to: self.offset_to,
            position: self.position,
            position_length: self.position_length,
        }
    }
}

} // verus!
