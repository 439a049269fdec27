use ella::ast::Token;
use ella::parser::{Parser, SpannedToken};
use ella::source::{Source, Span, SyntaxError};
use ella::value::Value;

fn spanned(token: Token, start: usize, end: usize) -> SpannedToken {
    SpannedToken { token, span: Span { start, end } }
}

/// The tokens of `let x = 1;`
fn tokens() -> Vec<SpannedToken> {
    vec![
        spanned(Token::Let, 0, 3),
        spanned(Token::Identifier("x".to_string()), 4, 5),
        spanned(Token::Equals, 6, 7),
        spanned(Token::NumberLit(Value::from_bits(1.0f64.to_bits())), 8, 9),
        spanned(Token::Semi, 9, 10),
    ]
}

fn parser() -> Parser {
    Parser::new(Source::new("let x = 1;".to_string()), tokens(), 10)
}

#[test]
fn parser_starts_at_the_first_token() {
    let parser = parser();
    assert_eq!(parser.current_token(), &Token::Let);
    assert!(!parser.source().errors.has_errors());
    assert_eq!(parser.source().content, "let x = 1;");
}

#[test]
fn next_walks_the_tokens_and_ends_with_eof() {
    let mut parser = parser();
    assert_eq!(parser.next(), Token::Identifier("x".to_string()));
    assert_eq!(parser.current_token(), &Token::Identifier("x".to_string()));
    assert_eq!(parser.next(), Token::Equals);
    assert_eq!(parser.next(), Token::NumberLit(Value::from_bits(1.0f64.to_bits())));
    assert_eq!(parser.next(), Token::Semi);
    assert_eq!(parser.next(), Token::Eof);
    assert_eq!(parser.next(), Token::Eof);
    assert_eq!(parser.current_token(), &Token::Eof);
}

#[test]
fn eat_compares_variants_only() {
    let mut parser = parser();
    assert!(!parser.eat(Token::Fn));
    assert_eq!(parser.current_token(), &Token::Let);
    assert!(parser.eat(Token::Let));
    // an identifier of another name is still an identifier
    assert!(parser.eat(Token::Identifier("other".to_string())));
    assert_eq!(parser.current_token(), &Token::Equals);
    assert!(!parser.eat(Token::EqualsEquals));
    assert!(parser.eat(Token::Equals));
    assert!(parser.eat(Token::NumberLit(Value::from_bits(0))));
    assert!(parser.eat(Token::Semi));
    assert!(parser.eat(Token::Eof));
    assert_eq!(parser.current_token(), &Token::Eof);
    assert!(!parser.source().errors.has_errors());
}

#[test]
fn expect_reports_the_token_read_last() {
    let mut parser = parser();
    parser.expect(Token::Let);
    assert!(!parser.source().errors.has_errors());
    parser.expect(Token::Equals);
    let errors = &parser.source().errors.errors;
    assert_eq!(errors.len(), 1);
    assert_eq!(errors[0].message, "Unexpected token");
    assert_eq!(errors[0].span, Span { start: 4, end: 5 });
    assert_eq!(errors[0].help, None);
    // nothing was eaten
    assert_eq!(parser.current_token(), &Token::Identifier("x".to_string()));
}

#[test]
fn unexpected_at_the_end_points_at_the_end_of_the_source() {
    let mut parser = Parser::new(
        Source::new("x ".to_string()),
        vec![spanned(Token::Identifier("x".to_string()), 0, 1)],
        2,
    );
    parser.unexpected();
    assert_eq!(parser.next(), Token::Eof);
    parser.unexpected();
    let errors = &parser.source().errors.errors;
    assert_eq!(errors.len(), 2);
    assert_eq!(errors[0].span, Span { start: 0, end: 1 });
    assert_eq!(errors[1].span, Span { start: 2, end: 2 });
}

#[test]
fn token_variants_and_clones() {
    let ident = Token::Identifier("name".to_string());
    assert_eq!(ident.clone(), ident);
    assert_eq!(Token::BoolLit(true).clone(), Token::BoolLit(true));
    assert_eq!(Token::Return.clone(), Token::Return);
    assert!(ident.is_same_variant(&Token::Identifier(String::new())));
    assert!(!ident.is_same_variant(&Token::BoolLit(true)));
    assert!(Token::BoolLit(true).is_same_variant(&Token::BoolLit(false)));
    assert!(!Token::Plus.is_same_variant(&Token::Minus));
    assert_eq!(Token::NumberLit(Value::from_bits(9)).variant_index(), 0);
    assert_eq!(Token::Equals.variant_index(), 7);
    assert_eq!(Token::Error.variant_index(), 28);
}

#[test]
fn syntax_errors_carry_message_span_and_help() {
    let span = Span { start: 3, end: 8 };
    let error = SyntaxError::new("bad".to_string(), span);
    assert_eq!(error.message, "bad");
    assert_eq!(error.span, span);
    assert_eq!(error.help, None);
    let error = error.with_help("do better".to_string());
    assert_eq!(error.message, "bad");
    assert_eq!(error.span, span);
    assert_eq!(error.help, Some("do better".to_string()));
    let mut source = Source::new("text".to_string());
    assert_eq!(source.errors.len(), 0);
    source.errors.add_error(error);
    assert_eq!(source.errors.len(), 1);
    assert!(source.errors.has_errors());
    assert_eq!(source.errors.errors[0].help.as_deref(), Some("do better"));
}
