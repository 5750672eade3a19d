use vstd::prelude::*;
use crate::position::Position;
use crate::token_types::TokenTypes;

verus! {

/// A token of the grammar language, with the text it carries (a literal's
/// characters or an identifier) and its source span.
#[derive(Debug)]
pub struct Token {
    pub tok_type: TokenTypes,
    pub tok_value: String,
    pub pos_start: Position,
    pub pos_end: Position,
}

/// A token with its text seen as a character sequence.
pub struct TokenView {
    pub tok_type: TokenTypes,
    pub tok_value: Seq<char>,
    pub pos_start: Position,
    pub pos_end: Position,
}

impl View for Token {
    type V = TokenView;

    open spec fn view(&self) -> TokenView {
        TokenView {
            tok_type: self.tok_type,
            tok_value: self.tok_value@,
            pos_start: self.pos_start,
            pos_end: self.pos_end,
        }
    }
}

/// The views of a list of tokens.
pub open spec fn views(s: Seq<Token>) -> Seq<TokenView> {
    s.map_values(|t: Token| t@)
}

impl Token {
    pub fn matches(&self, name: TokenTypes, value: &str) -> (r: bool)
        ensures
            r == (self.tok_type == name && self.tok_value@ == value@),
    {
        let v = String::from_str(value);
        self.tok_type == name && self.tok_value == v
    }

    pub fn copy(&self) -> (r: Token)
        ensures
            r == *self,
    {
        Token {
            tok_type: self.tok_type,
            tok_value: self.tok_value.clone(),
            pos_start: self.pos_start.copy(),
            pos_end: self.pos_end.copy(),
        }
    }
}

} // verus!
