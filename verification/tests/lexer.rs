//! Tokens of SQL text.

use rusthouse::lexer::{lex, Delimiter, LexError, LexErrorKind, LexerLimits, Literal, Operator, Span, Token, TokenKind};

fn generous_limits() -> LexerLimits {
    LexerLimits::new(16 * 1024, 1024, 1024)
}

#[test]
fn tokenizes_benchmark_shaped_query_with_byte_spans() {
    let sql = "SELECT region, SUM(revenue) AS total\n\
               FROM sales /* benchmark fact table */\n\
               WHERE day >= '2026-01-01' AND note = 'customer''s'\n\
               GROUP BY region ORDER BY total DESC LIMIT 10;";
    let tokens = lex(sql, generous_limits()).unwrap();

    assert_eq!(
        tokens.first(),
        Some(&Token {
            kind: TokenKind::Identifier("SELECT".into()),
            span: Span::new(0, 6),
        })
    );
    assert!(tokens.iter().any(|token| {
        token.kind == TokenKind::Operator(Operator::GreaterOrEqual)
            && &sql[token.span.as_range()] == ">="
    }));
    assert!(tokens.iter().any(|token| {
        token.kind == TokenKind::Delimiter(Delimiter::LeftParenthesis)
            && &sql[token.span.as_range()] == "("
    }));
    assert!(tokens.iter().any(|token| {
        token.kind == TokenKind::Literal(Literal::String("customer's".into()))
            && &sql[token.span.as_range()] == "'customer''s'"
    }));
    assert_eq!(
        tokens.last().map(|token| &token.kind),
        Some(&TokenKind::Delimiter(Delimiter::Semicolon))
    );
    for token in &tokens {
        assert!(sql.is_char_boundary(token.span.start));
        assert!(sql.is_char_boundary(token.span.end));
        assert!(!&sql[token.span.as_range()].is_empty());
    }
}

#[test]
fn decodes_quoted_identifiers_strings_and_unicode_spans() {
    let sql = "SELECT \"daily\"\"total\", 'café''s', .5e+2, TRUE, false, NULL";
    let tokens = lex(sql, generous_limits()).unwrap();

    assert!(tokens.iter().any(|token| {
        token.kind == TokenKind::Identifier("daily\"total".into())
            && &sql[token.span.as_range()] == "\"daily\"\"total\""
    }));
    assert!(tokens.iter().any(|token| {
        token.kind == TokenKind::Literal(Literal::String("café's".into()))
            && &sql[token.span.as_range()] == "'café''s'"
    }));
    assert!(
        tokens
            .iter()
            .any(|token| token.kind == TokenKind::Literal(Literal::Number(".5e+2".into())))
    );
    assert!(
        tokens
            .iter()
            .any(|token| token.kind == TokenKind::Literal(Literal::Boolean(true)))
    );
    assert!(
        tokens
            .iter()
            .any(|token| token.kind == TokenKind::Literal(Literal::Boolean(false)))
    );
    assert!(
        tokens
            .iter()
            .any(|token| token.kind == TokenKind::Literal(Literal::Null))
    );
}

#[test]
fn reports_typed_errors_at_byte_positions() {
    let cases = [
        ("'not closed", LexErrorKind::UnterminatedString, 0),
        (
            "select \"not closed",
            LexErrorKind::UnterminatedQuotedIdentifier,
            7,
        ),
        (
            "select /* nested /* comment */",
            LexErrorKind::UnterminatedBlockComment,
            7,
        ),
        ("select 1e+", LexErrorKind::InvalidNumber, 8),
        ("select @", LexErrorKind::UnexpectedCharacter('@'), 7),
    ];

    for (sql, kind, position) in cases {
        let error = lex(sql, generous_limits()).unwrap_err();
        assert_eq!(error.kind, kind);
        assert_eq!(error.position, position);
        assert!(error.message().contains(&format!("byte {position}")));
    }
}

#[test]
fn enforces_input_limit_at_the_exact_boundary() {
    let limits = LexerLimits::new(6, 1, 6);
    assert_eq!(lex("select", limits).unwrap().len(), 1);

    assert_eq!(
        lex("select ", limits).unwrap_err(),
        LexError {
            kind: LexErrorKind::InputTooLarge {
                length: 7,
                limit: 6,
            },
            position: 6,
        }
    );
}

#[test]
fn enforces_token_limit_at_the_exact_boundary() {
    let limits = LexerLimits::new(16, 1, 16);
    assert_eq!(lex("a", limits).unwrap().len(), 1);
    assert_eq!(
        lex("a b", limits).unwrap_err(),
        LexError {
            kind: LexErrorKind::TokenLimitExceeded { limit: 1 },
            position: 2,
        }
    );
    assert!(
        lex("  -- no tokens", LexerLimits::new(32, 0, 0))
            .unwrap()
            .is_empty()
    );
}

#[test]
fn enforces_decoded_literal_limit_at_the_exact_boundary() {
    let limits = LexerLimits::new(32, 1, 3);
    assert_eq!(
        lex("'a''b'", limits).unwrap()[0].kind,
        TokenKind::Literal(Literal::String("a'b".into()))
    );

    assert_eq!(
        lex("'a''bc'", limits).unwrap_err(),
        LexError {
            kind: LexErrorKind::LiteralTooLarge {
                length: 4,
                limit: 3,
            },
            position: 0,
        }
    );
    assert!(lex("123", limits).is_ok());
    assert!(matches!(
        lex("1234", limits).unwrap_err().kind,
        LexErrorKind::LiteralTooLarge {
            length: 4,
            limit: 3
        }
    ));
}
