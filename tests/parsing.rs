use jan::{parse, parse_integer, structured_source, Delim, JanetExpr, JanetLiteral, ParseError, ParseErrorKind, Token};

fn ident(s: &str) -> Token {
    Token::Ident(s.to_string())
}

fn int_tok(s: &str) -> Token {
    Token::Int(s.to_string())
}

fn code(tokens: Vec<Token>) -> String {
    parse(&tokens).expect("tokens should parse").to_janet_code()
}

fn error(tokens: Vec<Token>) -> ParseError {
    parse(&tokens).expect_err("tokens should not parse")
}

#[test]
fn parses_call_with_string_argument() {
    let tokens = vec![
        Token::Open(Delim::Paren),
        ident("print"),
        Token::Str("Hello".to_string()),
        Token::Close(Delim::Paren),
    ];
    match parse(&tokens).unwrap() {
        JanetExpr::List(items) => {
            assert_eq!(items.len(), 2);
            assert!(matches!(&items[0], JanetExpr::Symbol(s) if s == "print"));
            assert!(matches!(&items[1], JanetExpr::Literal(JanetLiteral::String(s)) if s == "Hello"));
        }
        other => panic!("expected a list, got {:?}", other),
    }
}

#[test]
fn table_with_odd_count_is_rejected() {
    let tokens = vec![
        Token::At,
        Token::Open(Delim::Brace),
        Token::Colon,
        ident("a"),
        int_tok("1"),
        Token::Colon,
        ident("b"),
        Token::Close(Delim::Brace),
    ];
    assert_eq!(error(tokens), ParseError { kind: ParseErrorKind::MissingTableValue, pos: 7 });
}

#[test]
fn integer_out_of_range_is_rejected() {
    let tokens = vec![int_tok("9223372036854775808")];
    assert_eq!(error(tokens), ParseError { kind: ParseErrorKind::InvalidInteger, pos: 0 });
}

#[test]
fn integer_bounds_are_accepted() {
    assert_eq!(code(vec![int_tok("9223372036854775807")]), "9223372036854775807");
    assert_eq!(code(vec![int_tok("-9223372036854775808")]), "-9223372036854775808");
}

#[test]
fn parse_integer_cases() {
    assert_eq!(parse_integer("0"), Some(0));
    assert_eq!(parse_integer("42"), Some(42));
    assert_eq!(parse_integer("-17"), Some(-17));
    assert_eq!(parse_integer("007"), Some(7));
    assert_eq!(parse_integer("9223372036854775807"), Some(i64::MAX));
    assert_eq!(parse_integer("-9223372036854775808"), Some(i64::MIN));
    assert_eq!(parse_integer("9223372036854775808"), None);
    assert_eq!(parse_integer("-9223372036854775809"), None);
    assert_eq!(parse_integer("99999999999999999999999"), None);
    assert_eq!(parse_integer(""), None);
    assert_eq!(parse_integer("-"), None);
    assert_eq!(parse_integer("12a"), None);
    assert_eq!(parse_integer("+3"), None);
}

#[test]
fn serializes_nested_table() {
    let tokens = vec![
        Token::Open(Delim::Paren),
        ident("def"),
        ident("person"),
        Token::At,
        Token::Open(Delim::Brace),
        Token::Colon,
        ident("name"),
        Token::Str("Alice".to_string()),
        Token::Colon,
        ident("age"),
        int_tok("30"),
        Token::Colon,
        ident("skills"),
        Token::Open(Delim::Bracket),
        Token::Str("Janet".to_string()),
        Token::Str("Rust".to_string()),
        Token::Close(Delim::Bracket),
        Token::Close(Delim::Brace),
        Token::Close(Delim::Paren),
    ];
    assert_eq!(
        code(tokens),
        "(def person @{:name \"Alice\" :age 30 :skills [\"Janet\" \"Rust\"]})"
    );
}

#[test]
fn at_bracket_and_bare_bracket_give_the_same_array() {
    let with_at = vec![Token::At, Token::Open(Delim::Bracket), int_tok("1"), int_tok("2"), Token::Close(Delim::Bracket)];
    let bare = vec![Token::Open(Delim::Bracket), int_tok("1"), int_tok("2"), Token::Close(Delim::Bracket)];
    assert_eq!(code(with_at), "[1 2]");
    assert_eq!(code(bare), "[1 2]");
}

#[test]
fn literals_serialize_canonically() {
    assert_eq!(code(vec![Token::Bool(true)]), "true");
    assert_eq!(code(vec![Token::Bool(false)]), "false");
    assert_eq!(code(vec![int_tok("-5")]), "-5");
    assert_eq!(code(vec![int_tok("0012")]), "12");
    assert_eq!(code(vec![Token::Float("1.5".to_string())]), "1.5");
    assert_eq!(code(vec![Token::Colon, ident("key")]), ":key");
    assert_eq!(code(vec![ident("x")]), "x");
}

#[test]
fn string_quotes_are_escaped() {
    assert_eq!(code(vec![Token::Str("say \"hi\"".to_string())]), "\"say \\\"hi\\\"\"");
    assert_eq!(code(vec![Token::Str(String::new())]), "\"\"");
}

#[test]
fn empty_forms() {
    assert_eq!(code(vec![Token::Open(Delim::Paren), Token::Close(Delim::Paren)]), "()");
    assert_eq!(code(vec![Token::At, Token::Open(Delim::Brace), Token::Close(Delim::Brace)]), "@{}");
}

#[test]
fn duplicate_table_keys_are_kept() {
    let tokens = vec![
        Token::At,
        Token::Open(Delim::Brace),
        Token::Colon,
        ident("a"),
        int_tok("1"),
        Token::Colon,
        ident("a"),
        int_tok("2"),
        Token::Close(Delim::Brace),
    ];
    assert_eq!(code(tokens), "@{:a 1 :a 2}");
}

#[test]
fn error_kinds() {
    assert_eq!(
        error(vec![Token::Open(Delim::Paren), Token::Punct('+'), Token::Close(Delim::Paren)]),
        ParseError { kind: ParseErrorKind::ExpectedExpression, pos: 1 }
    );
    assert_eq!(
        error(vec![Token::At, ident("x")]),
        ParseError { kind: ParseErrorKind::ExpectedArrayOrTable, pos: 1 }
    );
    assert_eq!(
        error(vec![Token::Colon, int_tok("3")]),
        ParseError { kind: ParseErrorKind::ExpectedIdentifier, pos: 1 }
    );
    assert_eq!(
        error(vec![Token::Open(Delim::Paren), ident("f")]),
        ParseError { kind: ParseErrorKind::UnexpectedEnd, pos: 2 }
    );
    assert_eq!(
        error(vec![Token::Open(Delim::Paren), ident("f"), Token::Close(Delim::Bracket)]),
        ParseError { kind: ParseErrorKind::ExpectedExpression, pos: 2 }
    );
    assert_eq!(
        error(vec![ident("a"), ident("b")]),
        ParseError { kind: ParseErrorKind::TrailingInput, pos: 1 }
    );
    assert_eq!(error(vec![]), ParseError { kind: ParseErrorKind::UnexpectedEnd, pos: 0 });
}

fn balanced(text: &str) -> bool {
    let mut stack = Vec::new();
    let mut in_string = false;
    let mut escaped = false;
    for c in text.chars() {
        if in_string {
            if escaped {
                escaped = false;
            } else if c == '\\' {
                escaped = true;
            } else if c == '"' {
                in_string = false;
            }
            continue;
        }
        match c {
            '(' => stack.push(')'),
            '[' => stack.push(']'),
            '{' => stack.push('}'),
            ')' | ']' | '}' => {
                if stack.pop() != Some(c) {
                    return false;
                }
            }
            '"' => in_string = true,
            _ => {}
        }
    }
    stack.is_empty() && !in_string
}

#[test]
fn serialized_text_is_balanced() {
    let tokens = vec![
        Token::Open(Delim::Paren),
        ident("f"),
        Token::Str("(]{".to_string()),
        Token::Open(Delim::Bracket),
        Token::At,
        Token::Open(Delim::Brace),
        int_tok("1"),
        Token::Open(Delim::Paren),
        Token::Close(Delim::Paren),
        Token::Close(Delim::Brace),
        Token::Close(Delim::Bracket),
        Token::Close(Delim::Paren),
    ];
    let text = code(tokens);
    assert_eq!(text, "(f \"(]{\" [@{1 ()}])");
    assert!(balanced(&text));
}

#[test]
fn round_trip_through_tokens() {
    // The tokens of the canonical text parse back to an expression with the same text.
    let tokens = vec![
        Token::Open(Delim::Paren),
        ident("g"),
        int_tok("-3"),
        Token::At,
        Token::Open(Delim::Brace),
        Token::Colon,
        ident("k"),
        Token::Open(Delim::Bracket),
        Token::Bool(true),
        Token::Close(Delim::Bracket),
        Token::Close(Delim::Brace),
        Token::Close(Delim::Paren),
    ];
    let first = code(tokens);
    let again = vec![
        Token::Open(Delim::Paren),
        ident("g"),
        int_tok("-3"),
        Token::At,
        Token::Open(Delim::Brace),
        Token::Colon,
        ident("k"),
        Token::Open(Delim::Bracket),
        Token::Bool(true),
        Token::Close(Delim::Bracket),
        Token::Close(Delim::Brace),
        Token::Close(Delim::Paren),
    ];
    assert_eq!(first, "(g -3 @{:k [true]})");
    assert_eq!(code(again), first);
}

#[test]
fn structured_source_writes_canonical_text() {
    let tokens = vec![
        Token::Open(Delim::Paren),
        ident("print"),
        Token::Str("  Hello from token macro!".to_string()),
        Token::Close(Delim::Paren),
    ];
    assert_eq!(structured_source(&tokens), Ok("(print \"  Hello from token macro!\")".to_string()));
}

#[test]
fn structured_source_reports_parse_errors() {
    let tokens = vec![Token::At, Token::Open(Delim::Brace), Token::Colon, ident("a"), Token::Close(Delim::Brace)];
    assert_eq!(
        structured_source(&tokens),
        Err(ParseError { kind: ParseErrorKind::MissingTableValue, pos: 4 })
    );
}
