use hug::lexicon::{
    AnnotationKind, Base, KeywordKind, LexError, LexErrorKind, LiteralKind, Token, TokenKind,
    TypeKind,
};
use hug::pairing::{lex, tokenize};
use hug::tokenizer::Tokenizer;

fn kinds(src: &str) -> Vec<(TokenKind, usize)> {
    tokenize(src).unwrap().iter().map(|t| (t.kind, t.len)).collect()
}

fn first(src: &str) -> (TokenKind, usize) {
    kinds(src)[0]
}

#[test]
fn numeric_literal_classification() {
    assert_eq!(kinds("42"), vec![(TokenKind::Literal(LiteralKind::Integer(Base::Decimal)), 2)]);
    assert_eq!(kinds("42.0"), vec![(TokenKind::Literal(LiteralKind::Float(Base::Decimal)), 4)]);
    assert_eq!(
        kinds("0x2A"),
        vec![(TokenKind::Literal(LiteralKind::Integer(Base::Hexadecimal)), 4)]
    );
    assert_eq!(kinds("3f"), vec![(TokenKind::Literal(LiteralKind::Float(Base::Decimal)), 2)]);
}

#[test]
fn numeric_literal_other_bases_and_second_dot() {
    assert_eq!(first("0b1011"), (TokenKind::Literal(LiteralKind::Integer(Base::Binary)), 6));
    assert_eq!(first("0o17"), (TokenKind::Literal(LiteralKind::Integer(Base::Octal)), 4));
    assert_eq!(first("1_000"), (TokenKind::Literal(LiteralKind::Integer(Base::Decimal)), 5));
    // a second promotion ends the literal
    assert_eq!(
        kinds("1.2.3"),
        vec![
            (TokenKind::Literal(LiteralKind::Float(Base::Decimal)), 3),
            (TokenKind::Dot, 1),
            (TokenKind::Literal(LiteralKind::Integer(Base::Decimal)), 1),
        ]
    );
}

#[test]
fn operator_lookahead() {
    assert_eq!(kinds("<"), vec![(TokenKind::LessThan, 1)]);
    assert_eq!(kinds("<="), vec![(TokenKind::LessThanOrEquals, 2)]);
    assert_eq!(kinds("<<"), vec![(TokenKind::ShiftLeft, 2)]);
    assert_eq!(kinds("<<<"), vec![(TokenKind::ShiftLeftOverflow, 3)]);
}

#[test]
fn operator_lookahead_other_forms() {
    assert_eq!(kinds(">>>"), vec![(TokenKind::ShiftRightOverflow, 3)]);
    assert_eq!(kinds(">="), vec![(TokenKind::GreaterThanOrEquals, 2)]);
    assert_eq!(kinds("=="), vec![(TokenKind::IsEqualTo, 2)]);
    assert_eq!(kinds("!="), vec![(TokenKind::IsNotEqualTo, 2)]);
    assert_eq!(kinds("&&"), vec![(TokenKind::And, 2)]);
    assert_eq!(kinds("&="), vec![(TokenKind::BinaryAndAssign, 2)]);
    assert_eq!(kinds("||"), vec![(TokenKind::Or, 2)]);
    assert_eq!(kinds("|"), vec![(TokenKind::BinaryOr, 1)]);
    assert_eq!(kinds("+="), vec![(TokenKind::AddAssign, 2)]);
    assert_eq!(kinds("/="), vec![(TokenKind::DivideAssign, 2)]);
    assert_eq!(kinds("~"), vec![(TokenKind::BinaryNot, 1)]);
    assert_eq!(kinds("->"), vec![(TokenKind::Arrow, 2)]);
    assert_eq!(kinds("-"), vec![(TokenKind::Subtract, 1)]);
}

#[test]
fn words_keywords_and_types() {
    assert_eq!(first("let"), (TokenKind::Keyword(KeywordKind::Let), 3));
    assert_eq!(first("use"), (TokenKind::Keyword(KeywordKind::Use), 3));
    assert_eq!(first("Int32"), (TokenKind::BuiltInType(TypeKind::Int32), 5));
    assert_eq!(first("true"), (TokenKind::Literal(LiteralKind::Boolean), 4));
    assert_eq!(first("foo_1"), (TokenKind::Identifier, 5));
    // a name starts with a letter
    assert_eq!(first("_x"), (TokenKind::Unknown, 2));
    assert_eq!(first("#ab"), (TokenKind::Unknown, 3));
}

#[test]
fn annotations() {
    assert_eq!(first("@extern"), (TokenKind::Annotation(AnnotationKind::Extern), 7));
    assert_eq!(first("@inline"), (TokenKind::Annotation(AnnotationKind::Other), 7));
    assert_eq!(first("@"), (TokenKind::Unknown, 1));
    assert_eq!(first("@9x"), (TokenKind::Unknown, 3));
}

#[test]
fn strings_chars_and_comments() {
    assert_eq!(first("\"a\\\"b\" x"), (TokenKind::Literal(LiteralKind::String), 6));
    assert_eq!(first("f\"hi\""), (TokenKind::Literal(LiteralKind::FormatString), 5));
    assert_eq!(first("'a'"), (TokenKind::Literal(LiteralKind::Char), 3));
    assert_eq!(
        kinds("// note\nx"),
        vec![(TokenKind::LineComment, 8), (TokenKind::Identifier, 1)]
    );
    assert_eq!(
        kinds("/* a * b */x"),
        vec![(TokenKind::BlockComment, 11), (TokenKind::Identifier, 1)]
    );
    assert_eq!(kinds(" \t\n x"), vec![(TokenKind::Whitespace, 4), (TokenKind::Identifier, 1)]);
}

#[test]
fn lexical_errors() {
    assert_eq!(
        tokenize("x \"open"),
        Err(LexError { kind: LexErrorKind::UnterminatedString, position: 2 })
    );
    assert_eq!(
        tokenize("/* never closed"),
        Err(LexError { kind: LexErrorKind::UnterminatedComment, position: 0 })
    );
    assert_eq!(
        tokenize("x \u{1F600}"),
        Err(LexError { kind: LexErrorKind::Emoji, position: 2 })
    );
    assert_eq!(
        tokenize("\u{a9}"),
        Err(LexError { kind: LexErrorKind::Emoji, position: 0 })
    );
}

#[test]
fn other_characters_outside_ascii_are_single_unknown_tokens() {
    assert_eq!(
        kinds("\u{e9}x"),
        vec![(TokenKind::Unknown, 2), (TokenKind::Identifier, 1)]
    );
    assert_eq!(kinds("\u{4e2d}"), vec![(TokenKind::Unknown, 3)]);
}

#[test]
fn unterminated_comment_consumes_the_input() {
    let mut t = Tokenizer::new("/* abc");
    assert_eq!(
        t.next_token(),
        Err(LexError { kind: LexErrorKind::UnterminatedComment, position: 0 })
    );
    assert_eq!(t.consumed_len(), 6);
    assert!(t.is_eof());
}

#[test]
fn empty_source_has_no_tokens() {
    assert_eq!(tokenize(""), Ok(vec![]));
}

#[test]
fn token_lengths_cover_the_source() {
    let src = "let x = 0x2A // answer\nprint(f\"{}\", x) /* done */";
    let tokens = tokenize(src).unwrap();
    let total: usize = tokens.iter().map(|t| t.len).sum();
    assert_eq!(total, src.len());
    let pairs = lex(src).unwrap();
    let joined: Vec<u8> = pairs.iter().flat_map(|p| p.text.iter().copied()).collect();
    assert_eq!(joined, src.as_bytes());
}

#[test]
fn pairs_carry_their_text() {
    let pairs = lex("let x = 5").unwrap();
    let texts: Vec<&[u8]> = pairs.iter().map(|p| p.text).collect();
    assert_eq!(texts, vec![&b"let"[..], b" ", b"x", b" ", b"=", b" ", b"5"]);
    assert_eq!(pairs[2].token, Token { kind: TokenKind::Identifier, len: 1 });
}

#[test]
fn tokenizer_steps() {
    let mut t = Tokenizer::new("ab");
    assert_eq!(t.peek(1), b'a');
    assert_eq!(t.peek(2), b'b');
    assert_eq!(t.peek(3), 0);
    assert_eq!(t.next(), b'a');
    assert_eq!(t.consumed_len(), 1);
    t.reset_consumed_len();
    assert_eq!(t.consumed_len(), 0);
    assert!(!t.is_eof());
    assert_eq!(t.next(), b'b');
    assert!(t.is_eof());
    assert_eq!(t.next(), 0);
}

#[test]
fn token_kind_projections() {
    let lit = TokenKind::Literal(LiteralKind::Char);
    assert_eq!(lit.expect_literal(), Some(LiteralKind::Char));
    assert_eq!(lit.expect_keyword(), None);
    assert_eq!(TokenKind::Keyword(KeywordKind::Fn).expect_keyword(), Some(KeywordKind::Fn));
    assert_eq!(TokenKind::Identifier.expect_ident(), Some(TokenKind::Identifier));
    assert_eq!(TokenKind::Comma.expect_kind(TokenKind::Comma), Some(TokenKind::Comma));
    assert_eq!(TokenKind::Comma.expect_kind(TokenKind::Dot), None);
    assert_eq!(
        TokenKind::BuiltInType(TypeKind::String).expect_type(),
        Some(TypeKind::String)
    );
}
