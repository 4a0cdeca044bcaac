use minircc::{tokens, Lexer, Token};

/// Drives a scanner to exhaustion and collects every produced token.
fn drive(input: &str) -> Vec<Token> {
    let mut lexer = Lexer::new(input);
    let mut out = Vec::new();
    while let Some(token) = lexer.next_token() {
        out.push(token);
    }
    out
}

fn keyword(text: &str) -> Token {
    Token::Keyword(text.to_string())
}

fn identifier(text: &str) -> Token {
    Token::Identifier(text.to_string())
}

fn integer(text: &str) -> Token {
    Token::Integer(text.to_string())
}

#[test]
fn braces() {
    assert_eq!(drive("{}"), vec![Token::OpenBrace, Token::CloseBrace]);
}

#[test]
fn parentheses_and_semicolon() {
    assert_eq!(
        drive("();"),
        vec![
            Token::OpenParenthesis,
            Token::CloseParenthesis,
            Token::Semicolon
        ]
    );
}

#[test]
fn digit_run_stops_at_letter() {
    assert_eq!(drive("456return"), vec![integer("456"), keyword("return")]);
}

#[test]
fn keyword_then_identifier() {
    assert_eq!(
        drive("int pancake"),
        vec![keyword("int"), Token::Whitespace, identifier("pancake")]
    );
}

#[test]
fn lone_unknown() {
    assert_eq!(drive("!"), vec![Token::Unknown]);
}

#[test]
fn empty_input() {
    assert_eq!(drive(""), Vec::<Token>::new());
}

#[test]
fn digit_does_not_continue_into_letters() {
    assert_eq!(
        drive("a_1 2b"),
        vec![
            identifier("a_1"),
            Token::Whitespace,
            integer("2"),
            identifier("b")
        ]
    );
}

#[test]
fn reconstruction_from_spans() {
    // Every token's span is one substring of the input and no character is
    // skipped or duplicated: over an input whose whitespace runs are single
    // spaces, the spans can be read back off the tokens and concatenated.
    let input = "int pancake(42);{}!";
    let mut rebuilt = String::new();
    for token in drive(input) {
        rebuilt.push_str(match &token {
            Token::Whitespace => " ",
            Token::OpenBrace => "{",
            Token::CloseBrace => "}",
            Token::OpenParenthesis => "(",
            Token::CloseParenthesis => ")",
            Token::Semicolon => ";",
            Token::Keyword(text) => text,
            Token::Identifier(text) => text,
            Token::Integer(text) => text,
            Token::Unknown => "!",
        });
    }
    assert_eq!(rebuilt, input);
}

#[test]
fn maximal_runs_are_not_split() {
    assert_eq!(drive("aa11_z"), vec![identifier("aa11_z")]);
    assert_eq!(drive("007"), vec![integer("007")]);
    assert_eq!(drive("\t\n \r"), vec![Token::Whitespace]);
    assert_eq!(
        drive("  x  "),
        vec![Token::Whitespace, identifier("x"), Token::Whitespace]
    );
}

#[test]
fn scanning_twice_is_deterministic() {
    let input = "int pancake {456;} return !";
    assert_eq!(drive(input), drive(input));
    assert_eq!(tokens(input), drive(input));
}

#[test]
fn exhaustion_is_permanent() {
    let mut lexer = Lexer::new("a");
    assert_eq!(lexer.next_token(), Some(identifier("a")));
    assert_eq!(lexer.next_token(), None);
    assert_eq!(lexer.next_token(), None);
    assert_eq!(lexer.next_token(), None);
}

#[test]
fn keyword_identifier_boundary() {
    assert_eq!(drive("int"), vec![keyword("int")]);
    assert_eq!(drive("return"), vec![keyword("return")]);
    assert_eq!(drive("int2"), vec![identifier("int2")]);
    assert_eq!(drive("integer"), vec![identifier("integer")]);
    assert_eq!(drive("Int"), vec![identifier("Int")]);
    assert_eq!(drive("returns"), vec![identifier("returns")]);
    assert_eq!(
        drive("ret urn"),
        vec![identifier("ret"), Token::Whitespace, identifier("urn")]
    );
}

#[test]
fn whitespace_set_is_exact() {
    // Every member of the fixed whitespace set starts a whitespace run.
    for c in [
        '\u{0009}', '\u{000A}', '\u{000B}', '\u{000C}', '\u{000D}', '\u{0020}', '\u{0085}',
        '\u{200E}', '\u{200F}', '\u{2028}', '\u{2029}',
    ] {
        assert_eq!(drive(&c.to_string()), vec![Token::Whitespace]);
    }
    // A space-like character outside the set falls through to Unknown.
    assert_eq!(drive("\u{00A0}"), vec![Token::Unknown]);
}

#[test]
fn unknown_is_single_character_and_consumed() {
    assert_eq!(drive("!x"), vec![Token::Unknown, identifier("x")]);
    assert_eq!(drive("!!"), vec![Token::Unknown, Token::Unknown]);
    // Non-ASCII letters are not identifier starters.
    assert_eq!(drive("\u{00E9}"), vec![Token::Unknown]);
}

#[test]
fn tokens_drives_to_exhaustion() {
    assert_eq!(
        tokens("456return"),
        vec![integer("456"), keyword("return")]
    );
    assert_eq!(tokens(""), Vec::<Token>::new());
}
