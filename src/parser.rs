use vstd::prelude::*;
use crate::ast::{ExprV, JanetExpr, JanetLiteral, LitV, exprs_view, pairs_view};
use crate::literal::{integer_of, parse_integer};
use crate::token::{Delim, Token, TokenV, tokens_view};

verus! {

broadcast use {vstd::std_specs::vec::group_vec_axioms, vstd::seq::group_seq_axioms};

/// What went wrong while parsing.
#[derive(Clone, Copy, Debug, PartialEq, Eq, Structural)]
pub enum ParseErrorKind {
    /// The token cannot start an expression.
    ExpectedExpression,
    /// `@` was not followed by `[` or `{`.
    ExpectedArrayOrTable,
    /// `:` was not followed by an identifier.
    ExpectedIdentifier,
    /// An integer literal is malformed or does not fit in an `i64`.
    InvalidInteger,
    /// A map literal closed after a key with no value.
    MissingTableValue,
    /// The input ended inside an unclosed delimiter, or before an expression.
    UnexpectedEnd,
    /// Tokens remain after the one expression.
    TrailingInput,
}

/// A parse failure and the index of the token where it was detected.
#[derive(Clone, Copy, Debug, PartialEq, Eq, Structural)]
pub struct ParseError {
    pub kind: ParseErrorKind,
    pub pos: usize,
}

pub open spec fn fail<A>(kind: ParseErrorKind, pos: int) -> Result<A, ParseError> {
    Err(ParseError { kind, pos: pos as usize })
}

/// Puts `acc` in front of the items of a successful result.
pub open spec fn prefixed<A>(
    acc: Seq<A>,
    r: Result<(Seq<A>, int), ParseError>,
) -> Result<(Seq<A>, int), ParseError> {
    match r {
        Ok((rest, end)) => Ok((acc + rest, end)),
        Err(e) => Err(e),
    }
}

/// The grammar: one expression starting at token `pos`, and the index after it.
pub open spec fn parse_expr(t: Seq<TokenV>, pos: int) -> Result<(ExprV, int), ParseError>
    decreases t.len() - pos, 0int,
{
    if pos < 0 || pos >= t.len() {
        fail(ParseErrorKind::UnexpectedEnd, pos)
    } else {
        match t[pos] {
            TokenV::Open(Delim::Paren) => match parse_items(t, pos + 1, Delim::Paren) {
                Ok((items, end)) => Ok((ExprV::List(items), end)),
                Err(e) => Err(e),
            },
            TokenV::Open(Delim::Bracket) => match parse_items(t, pos + 1, Delim::Bracket) {
                Ok((items, end)) => Ok((ExprV::Array(items), end)),
                Err(e) => Err(e),
            },
            TokenV::At => if pos + 1 < t.len() && t[pos + 1] == TokenV::Open(Delim::Bracket) {
                match parse_items(t, pos + 2, Delim::Bracket) {
                    Ok((items, end)) => Ok((ExprV::Array(items), end)),
                    Err(e) => Err(e),
                }
            } else if pos + 1 < t.len() && t[pos + 1] == TokenV::Open(Delim::Brace) {
                match parse_pairs(t, pos + 2) {
                    Ok((pairs, end)) => Ok((ExprV::Table(pairs), end)),
                    Err(e) => Err(e),
                }
            } else {
                fail(ParseErrorKind::ExpectedArrayOrTable, pos + 1)
            },
            TokenV::Colon => if pos + 1 < t.len() && t[pos + 1] is Ident {
                Ok((ExprV::Literal(LitV::Keyword(t[pos + 1]->Ident_0)), pos + 2))
            } else {
                fail(ParseErrorKind::ExpectedIdentifier, pos + 1)
            },
            TokenV::Str(s) => Ok((ExprV::Literal(LitV::String(s)), pos + 1)),
            TokenV::Int(s) => match integer_of(s) {
                Some(v) => Ok((ExprV::Literal(LitV::Integer(v)), pos + 1)),
                None => fail(ParseErrorKind::InvalidInteger, pos),
            },
            TokenV::Float(s) => Ok((ExprV::Literal(LitV::Number(s)), pos + 1)),
            TokenV::Bool(b) => Ok((ExprV::Literal(LitV::Boolean(b)), pos + 1)),
            TokenV::Ident(s) => Ok((ExprV::Symbol(s), pos + 1)),
            _ => fail(ParseErrorKind::ExpectedExpression, pos),
        }
    }
}

/// Expressions from `pos` up to and including the closing delimiter `d`.
pub open spec fn parse_items(t: Seq<TokenV>, pos: int, d: Delim) -> Result<
    (Seq<ExprV>, int),
    ParseError,
>
    decreases t.len() - pos, 1int,
{
    if pos < 0 || pos >= t.len() {
        fail(ParseErrorKind::UnexpectedEnd, pos)
    } else if t[pos] == TokenV::Close(d) {
        Ok((Seq::empty(), pos + 1))
    } else {
        match parse_expr(t, pos) {
            Ok((e, next)) => if pos < next <= t.len() {
                prefixed(seq![e], parse_items(t, next, d))
            } else {
                fail(ParseErrorKind::UnexpectedEnd, next)
            },
            Err(e) => Err(e),
        }
    }
}

/// Key/value pairs from `pos` up to and including the closing `}`.
pub open spec fn parse_pairs(t: Seq<TokenV>, pos: int) -> Result<(Seq<(ExprV, ExprV)>, int), ParseError>
    decreases t.len() - pos, 1int,
{
    if pos < 0 || pos >= t.len() {
        fail(ParseErrorKind::UnexpectedEnd, pos)
    } else if t[pos] == TokenV::Close(Delim::Brace) {
        Ok((Seq::empty(), pos + 1))
    } else {
        match parse_expr(t, pos) {
            Ok((k, mid)) => if !(pos < mid <= t.len()) {
                fail(ParseErrorKind::UnexpectedEnd, mid)
            } else if mid < t.len() && t[mid] == TokenV::Close(Delim::Brace) {
                fail(ParseErrorKind::MissingTableValue, mid)
            } else {
                match parse_expr(t, mid) {
                    Ok((v, next)) => if mid < next <= t.len() {
                        prefixed(seq![(k, v)], parse_pairs(t, next))
                    } else {
                        fail(ParseErrorKind::UnexpectedEnd, next)
                    },
                    Err(e) => Err(e),
                }
            },
            Err(e) => Err(e),
        }
    }
}

/// The whole token sequence as exactly one expression.
pub open spec fn parse_tokens(t: Seq<TokenV>) -> Result<ExprV, ParseError> {
    match parse_expr(t, 0) {
        Ok((e, end)) => if end == t.len() {
            Ok(e)
        } else {
            fail(ParseErrorKind::TrailingInput, end)
        },
        Err(e) => Err(e),
    }
}

pub open spec fn parsed_view(r: Result<JanetExpr, ParseError>) -> Result<ExprV, ParseError> {
    match r {
        Ok(e) => Ok(e@),
        Err(e) => Err(e),
    }
}

/// Parses a token sequence that holds exactly one expression.
pub fn parse(tokens: &Vec<Token>) -> (r: Result<JanetExpr, ParseError>)
    ensures
        parsed_view(r) == parse_tokens(tokens_view(tokens@)),
{
    match parse_at(tokens, 0) {
        Ok((e, end)) => if end == tokens.len() {
            Ok(e)
        } else {
            Err(ParseError { kind: ParseErrorKind::TrailingInput, pos: end })
        },
        Err(e) => Err(e),
    }
}

fn parse_at(tokens: &Vec<Token>, pos: usize) -> (r: Result<(JanetExpr, usize), ParseError>)
    ensures
        match r {
            Ok((e, end)) => parse_expr(tokens_view(tokens@), pos as int) == Ok::<_, ParseError>(
                (e@, end as int),
            ) && pos < end <= tokens.len(),
            Err(x) => parse_expr(tokens_view(tokens@), pos as int) == Err::<(ExprV, int), _>(x),
        },
    decreases tokens.len() - pos, 0int,
{
    let ghost t = tokens_view(tokens@);
    let len = tokens.len();
    if pos >= len {
        return Err(ParseError { kind: ParseErrorKind::UnexpectedEnd, pos });
    }
    assert(t[pos as int] == tokens@[pos as int]@);
    match &tokens[pos] {
        Token::Open(Delim::Paren) => match parse_items_at(tokens, pos + 1, Delim::Paren) {
            Ok((items, end)) => Ok((JanetExpr::List(items), end)),
            Err(e) => Err(e),
        },
        Token::Open(Delim::Bracket) => match parse_items_at(tokens, pos + 1, Delim::Bracket) {
            Ok((items, end)) => Ok((JanetExpr::Array(items), end)),
            Err(e) => Err(e),
        },
        Token::At => {
            let next = pos + 1;
            if next < len {
                assert(t[next as int] == tokens@[next as int]@);
                match &tokens[next] {
                    Token::Open(Delim::Bracket) => {
                        return match parse_items_at(tokens, pos + 2, Delim::Bracket) {
                            Ok((items, end)) => Ok((JanetExpr::Array(items), end)),
                            Err(e) => Err(e),
                        };
                    },
                    Token::Open(Delim::Brace) => {
                        return match parse_pairs_at(tokens, pos + 2) {
                            Ok((pairs, end)) => Ok((JanetExpr::Table(pairs), end)),
                            Err(e) => Err(e),
                        };
                    },
                    _ => {},
                }
            }
            Err(ParseError { kind: ParseErrorKind::ExpectedArrayOrTable, pos: next })
        },
        Token::Colon => {
            let next = pos + 1;
            if next < len {
                assert(t[next as int] == tokens@[next as int]@);
                if let Token::Ident(name) = &tokens[next] {
                    return Ok((JanetExpr::Literal(JanetLiteral::Keyword(name.clone())), pos + 2));
                }
            }
            Err(ParseError { kind: ParseErrorKind::ExpectedIdentifier, pos: next })
        },
        Token::Str(s) => Ok((JanetExpr::Literal(JanetLiteral::String(s.clone())), pos + 1)),
        Token::Int(s) => match parse_integer(s.as_str()) {
            Some(v) => Ok((JanetExpr::Literal(JanetLiteral::Integer(v)), pos + 1)),
            None => Err(ParseError { kind: ParseErrorKind::InvalidInteger, pos }),
        },
        Token::Float(s) => Ok((JanetExpr::Literal(JanetLiteral::Number(s.clone())), pos + 1)),
        Token::Bool(b) => Ok((JanetExpr::Literal(JanetLiteral::Boolean(*b)), pos + 1)),
        Token::Ident(s) => Ok((JanetExpr::Symbol(s.clone()), pos + 1)),
        _ => Err(ParseError { kind: ParseErrorKind::ExpectedExpression, pos }),
    }
}

fn parse_items_at(tokens: &Vec<Token>, start: usize, d: Delim) -> (r: Result<
    (Vec<JanetExpr>, usize),
    ParseError,
>)
    requires
        start <= tokens.len(),
    ensures
        match r {
            Ok((items, end)) => parse_items(tokens_view(tokens@), start as int, d) == Ok::<
                _,
                ParseError,
            >((exprs_view(items@), end as int)) && start < end <= tokens.len(),
            Err(x) => parse_items(tokens_view(tokens@), start as int, d) == Err::<
                (Seq<ExprV>, int),
                _,
            >(x),
        },
    decreases tokens.len() - start, 1int,
{
    let ghost t = tokens_view(tokens@);
    let len = tokens.len();
    let mut items: Vec<JanetExpr> = Vec::new();
    let mut pos = start;
    assert(prefixed(exprs_view(items@), parse_items(t, pos as int, d)) == parse_items(
        t,
        pos as int,
        d,
    )) by {
        assert(exprs_view(items@) =~= Seq::<ExprV>::empty());
        match parse_items(t, pos as int, d) {
            Ok((rest, end)) => {
                assert(Seq::<ExprV>::empty() + rest =~= rest);
            },
            Err(_) => {},
        }
    }
    loop
        invariant
            start <= pos <= len,
            len == tokens.len(),
            t == tokens_view(tokens@),
            parse_items(t, start as int, d) == prefixed(
                exprs_view(items@),
                parse_items(t, pos as int, d),
            ),
        decreases len - pos,
    {
        if pos >= len {
            return Err(ParseError { kind: ParseErrorKind::UnexpectedEnd, pos });
        }
        assert(t[pos as int] == tokens@[pos as int]@);
        if let Token::Close(c) = &tokens[pos] {
            if *c == d {
                assert(exprs_view(items@) + Seq::<ExprV>::empty() =~= exprs_view(items@));
                return Ok((items, pos + 1));
            }
        }
        match parse_at(tokens, pos) {
            Ok((e, next)) => {
                proof {
                    let ghost ev = e@;
                    let ghost acc = exprs_view(items@);
                    assert(items@.push(e).drop_last() =~= items@);
                    assert(exprs_view(items@.push(e)) == acc.push(ev));
                    match parse_items(t, next as int, d) {
                        Ok((rest, end)) => {
                            assert(acc + (seq![ev] + rest) =~= acc.push(ev) + rest);
                        },
                        Err(_) => {},
                    }
                }
                items.push(e);
                pos = next;
            },
            Err(x) => {
                return Err(x);
            },
        }
    }
}

fn parse_pairs_at(tokens: &Vec<Token>, start: usize) -> (r: Result<
    (Vec<(JanetExpr, JanetExpr)>, usize),
    ParseError,
>)
    requires
        start <= tokens.len(),
    ensures
        match r {
            Ok((pairs, end)) => parse_pairs(tokens_view(tokens@), start as int) == Ok::<
                _,
                ParseError,
            >((pairs_view(pairs@), end as int)) && start < end <= tokens.len(),
            Err(x) => parse_pairs(tokens_view(tokens@), start as int) == Err::<
                (Seq<(ExprV, ExprV)>, int),
                _,
            >(x),
        },
    decreases tokens.len() - start, 1int,
{
    let ghost t = tokens_view(tokens@);
    let len = tokens.len();
    let mut pairs: Vec<(JanetExpr, JanetExpr)> = Vec::new();
    let mut pos = start;
    assert(prefixed(pairs_view(pairs@), parse_pairs(t, pos as int)) == parse_pairs(
        t,
        pos as int,
    )) by {
        assert(pairs_view(pairs@) =~= Seq::<(ExprV, ExprV)>::empty());
        match parse_pairs(t, pos as int) {
            Ok((rest, end)) => {
                assert(Seq::<(ExprV, ExprV)>::empty() + rest =~= rest);
            },
            Err(_) => {},
        }
    }
    loop
        invariant
            start <= pos <= len,
            len == tokens.len(),
            t == tokens_view(tokens@),
            parse_pairs(t, start as int) == prefixed(
                pairs_view(pairs@),
                parse_pairs(t, pos as int),
            ),
        decreases len - pos,
    {
        if pos >= len {
            return Err(ParseError { kind: ParseErrorKind::UnexpectedEnd, pos });
        }
        assert(t[pos as int] == tokens@[pos as int]@);
        if let Token::Close(Delim::Brace) = &tokens[pos] {
            assert(pairs_view(pairs@) + Seq::<(ExprV, ExprV)>::empty() =~= pairs_view(pairs@));
            return Ok((pairs, pos + 1));
        }
        let (k, mid) = match parse_at(tokens, pos) {
            Ok(kv) => kv,
            Err(x) => {
                return Err(x);
            },
        };
        if mid < len {
            assert(t[mid as int] == tokens@[mid as int]@);
            if let Token::Close(Delim::Brace) = &tokens[mid] {
                return Err(ParseError { kind: ParseErrorKind::MissingTableValue, pos: mid });
            }
        }
        let (v, next) = match parse_at(tokens, mid) {
            Ok(vv) => vv,
            Err(x) => {
                return Err(x);
            },
        };
        proof {
            let ghost kv = (k@, v@);
            let ghost acc = pairs_view(pairs@);
            assert(pairs@.push((k, v)).drop_last() =~= pairs@);
            assert(pairs_view(pairs@.push((k, v))) == acc.push(kv));
            match parse_pairs(t, next as int) {
                Ok((rest, end)) => {
                    assert(acc + (seq![kv] + rest) =~= acc.push(kv) + rest);
                },
                Err(_) => {},
            }
        }
        pairs.push((k, v));
        pos = next;
    }
}

} // verus!
