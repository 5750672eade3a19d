use vstd::prelude::*;
use vstd::string::StringExecFns;

verus! {

/// The kinds of token of the grammar language.
#[derive(PartialEq, Eq, Structural, Debug, Copy, Clone)]
pub enum TokenTypes {
    Str,
    Comma,
    LParen,
    RParen,
    Assign,
    Identifier,
    Newline,
    Asterisk,
    QuestionMark,
    Pipe,
    Plus,
    Eof,
}

/// The name of a token kind, as diagnostics show it.
pub open spec fn kind_name(t: TokenTypes) -> Seq<char> {
    match t {
        TokenTypes::Str => "Str"@,
        TokenTypes::Comma => "Comma"@,
        TokenTypes::LParen => "LParen"@,
        TokenTypes::RParen => "RParen"@,
        TokenTypes::Assign => "Assign"@,
        TokenTypes::Identifier => "Identifier"@,
        TokenTypes::Newline => "Newline"@,
        TokenTypes::Asterisk => "Asterisk"@,
        TokenTypes::QuestionMark => "QuestionMark"@,
        TokenTypes::Pipe => "Pipe"@,
        TokenTypes::Plus => "Plus"@,
        TokenTypes::Eof => "Eof"@,
    }
}

impl TokenTypes {
    pub fn name(&self) -> (r: String)
        ensures
            r@ == kind_name(*self),
    {
        match self {
            TokenTypes::Str => String::from_str("Str"),
            TokenTypes::Comma => String::from_str("Comma"),
            TokenTypes::LParen => String::from_str("LParen"),
            TokenTypes::RParen => String::from_str("RParen"),
            TokenTypes::Assign => String::from_str("Assign"),
            TokenTypes::Identifier => String::from_str("Identifier"),
            TokenTypes::Newline => String::from_str("Newline"),
            TokenTypes::Asterisk => String::from_str("Asterisk"),
            TokenTypes::QuestionMark => String::from_str("QuestionMark"),
            TokenTypes::Pipe => String::from_str("Pipe"),
            TokenTypes::Plus => String::from_str("Plus"),
            TokenTypes::Eof => String::from_str("Eof"),
        }
    }
}

} // verus!
