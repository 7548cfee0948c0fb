//! Tokens: the classified minimal lexical units of the language.

use vstd::prelude::*;

verus! {

/// Classification of a token.
#[derive(Debug, Clone, Copy, PartialEq, Eq, Structural)]
pub enum TokenType {
    Identifier,
    Number,
    String,
    Punctuation,
    Operator,
    Keyword,
}

/// Mathematical image of a token: its kind and its text.
pub struct TokenV {
    pub kind: TokenType,
    pub text: Seq<char>,
}

/// A classified minimal lexical unit: kind plus the text it carries.
/// For a string token the text is the quoted content, quotes stripped;
/// for every other kind it is the matched source text itself.
#[derive(Debug)]
pub struct Token {
    pub type_: TokenType,
    pub value: String,
}

impl View for Token {
    type V = TokenV;

    open spec fn view(&self) -> TokenV {
        TokenV { kind: self.type_, text: self.value@ }
    }
}

} // verus!
