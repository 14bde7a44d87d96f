use vstd::prelude::*;

verus! {

/// A bracketing delimiter of the surface syntax.
#[derive(Clone, Copy, Debug, PartialEq, Eq, Structural)]
pub enum Delim {
    /// `(` `)`
    Paren,
    /// `[` `]`
    Bracket,
    /// `{` `}`
    Brace,
}

/// One token of structured input.
///
/// Literal tokens carry their value as the tokenizer read it: a string token
/// holds its contents with escapes already resolved, a numeric token holds its
/// base-10 digits (an integer may start with `-`).
#[derive(Clone, Debug)]
pub enum Token {
    Open(Delim),
    Close(Delim),
    At,
    Colon,
    Str(String),
    Int(String),
    Float(String),
    Bool(bool),
    Ident(String),
    /// Any other punctuation character.
    Punct(char),
}

/// The mathematical model of a token.
pub enum TokenV {
    Open(Delim),
    Close(Delim),
    At,
    Colon,
    Str(Seq<char>),
    Int(Seq<char>),
    Float(Seq<char>),
    Bool(bool),
    Ident(Seq<char>),
    Punct(char),
}

impl View for Token {
    type V = TokenV;

    open spec fn view(&self) -> TokenV {
        match self {
            Token::Open(d) => TokenV::Open(*d),
            Token::Close(d) => TokenV::Close(*d),
            Token::At => TokenV::At,
            Token::Colon => TokenV::Colon,
            Token::Str(s) => TokenV::Str(s@),
            Token::Int(s) => TokenV::Int(s@),
            Token::Float(s) => TokenV::Float(s@),
            Token::Bool(b) => TokenV::Bool(*b),
            Token::Ident(s) => TokenV::Ident(s@),
            Token::Punct(c) => TokenV::Punct(*c),
        }
    }
}

/// The models of a token sequence.
pub open spec fn tokens_view(t: Seq<Token>) -> Seq<TokenV> {
    Seq::new(t.len(), |i: int| t[i]@)
}

} // verus!
