use vstd::prelude::*;
use crate::parser::{parse, parse_tokens, ParseError};
use crate::serialize::expr_text;
use crate::token::{Token, tokens_view};

verus! {

/// Source text for structured input: the tokens are parsed as one
/// expression, which is written back out in canonical form.
pub fn structured_source(tokens: &Vec<Token>) -> (r: Result<String, ParseError>)
    ensures
        match parse_tokens(tokens_view(tokens@)) {
            Ok(e) => r is Ok && r->Ok_0@ == expr_text(e),
            Err(x) => r == Err::<String, _>(x),
        },
{
    match parse(tokens) {
        Ok(e) => Ok(e.to_janet_code()),
        Err(x) => Err(x),
    }
}

} // verus!
