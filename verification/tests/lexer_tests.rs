use minilang::lexer::Lexer;
use minilang::pipeline::tokenize_source;
use minilang::tokens::{TCode, TLoc, TPos, Token};

fn texts(source: &str) -> Vec<String> {
    tokenize_source(source).iter().map(|t| t.code.text()).collect()
}

#[test]
fn tokenize_empty_text_is_end_of_input() {
    let tokens = tokenize_source("");
    assert_eq!(tokens.len(), 1);
    assert!(matches!(tokens[0].code, TCode::EOI));
    assert_eq!(tokens[0].loc, TLoc::empty());
}

#[test]
fn tokenize_keywords_and_identifiers() {
    assert_eq!(
        texts("func let if else while return print true false foo _bar x1"),
        vec![
            "FUNC", "LET", "IF", "ELSE", "WHILE", "RETURN", "PRINT", "BOOL(true)", "BOOL(false)",
            "ID(\"foo\")", "ID(\"_bar\")", "ID(\"x1\")", "EOI"
        ]
    );
}

#[test]
fn tokenize_operators_longest_match() {
    assert_eq!(
        texts("= == ! != < > + - * / & | ( ) [ ] ; ,"),
        vec![
            "=", "==", "!", "!=", "<", ">", "+", "-", "*", "/", "&", "|", "(", ")", "[", "]", ";",
            ",", "EOI"
        ]
    );
    assert_eq!(texts("a==b"), vec!["ID(\"a\")", "==", "ID(\"b\")", "EOI"]);
    assert_eq!(texts("=== !=="), vec!["==", "=", "!=", "=", "EOI"]);
}

#[test]
fn tokenize_integers() {
    let tokens = tokenize_source("0 42 9223372036854775807");
    assert!(matches!(tokens[0].code, TCode::INT(0)));
    assert!(matches!(tokens[1].code, TCode::INT(42)));
    assert!(matches!(tokens[2].code, TCode::INT(9223372036854775807)));
    assert!(matches!(tokens[3].code, TCode::EOI));
}

#[test]
fn tokenize_integer_too_large_is_error() {
    let tokens = tokenize_source("9223372036854775808 1");
    assert!(matches!(tokens[0].code, TCode::ERROR));
    assert!(matches!(tokens[1].code, TCode::INT(1)));
    let tokens = tokenize_source("99999999999999999999999999");
    assert!(matches!(tokens[0].code, TCode::ERROR));
    assert!(matches!(tokens[1].code, TCode::EOI));
}

#[test]
fn tokenize_unknown_character_is_error_and_is_skipped() {
    let tokens = tokenize_source("a # b");
    assert_eq!(tokens.len(), 4);
    assert!(matches!(tokens[1].code, TCode::ERROR));
    assert_eq!(tokens[1].loc, TLoc::empty());
    assert!(matches!(&tokens[2].code, TCode::ID(n) if n == "b"));
}

#[test]
fn identifier_continues_with_unicode_alphanumerics() {
    let tokens = tokenize_source("caf\u{e9}9_ x");
    assert!(matches!(&tokens[0].code, TCode::ID(n) if n == "caf\u{e9}9_"));
    assert!(matches!(&tokens[1].code, TCode::ID(n) if n == "x"));
    // a letter outside ASCII begins no identifier
    let tokens = tokenize_source("\u{e9}a");
    assert!(matches!(tokens[0].code, TCode::ERROR));
    assert!(matches!(&tokens[1].code, TCode::ID(n) if n == "a"));
}

#[test]
fn token_locations_count_rows_and_columns_from_one() {
    let tokens = tokenize_source("let x;\n  print  x1 == 10;");
    assert_eq!(tokens[0].loc, TLoc { first: TPos::new(1, 1, 3), last: TPos::new(1, 3, 1) });
    assert_eq!(tokens[1].loc, TLoc { first: TPos::new(1, 5, 1), last: TPos::new(1, 5, 1) });
    assert_eq!(tokens[2].loc, TLoc { first: TPos::new(1, 6, 1), last: TPos::new(1, 6, 1) });
    assert_eq!(tokens[3].loc, TLoc { first: TPos::new(2, 3, 5), last: TPos::new(2, 7, 1) });
    assert_eq!(tokens[4].loc, TLoc { first: TPos::new(2, 10, 2), last: TPos::new(2, 11, 1) });
    assert_eq!(tokens[5].loc, TLoc { first: TPos::new(2, 13, 2), last: TPos::new(2, 14, 1) });
    assert_eq!(tokens[6].loc, TLoc { first: TPos::new(2, 16, 2), last: TPos::new(2, 17, 1) });
}

#[test]
fn next_token_repeats_end_of_input() {
    let mut lexer = Lexer::new("x");
    assert!(matches!(lexer.next_token().code, TCode::ID(_)));
    assert!(matches!(lexer.next_token().code, TCode::EOI));
    assert!(matches!(lexer.next_token().code, TCode::EOI));
}

#[test]
fn token_equality_is_by_kind_only() {
    assert!(TCode::ID("a".to_string()) == TCode::ID("b".to_string()));
    assert!(TCode::INT(1) == TCode::INT(2));
    assert!(TCode::BOOL(true) == TCode::BOOL(false));
    assert!(TCode::INT(1) != TCode::BOOL(true));
    assert!(TCode::OP_ADD != TCode::OP_SUB);
    assert!(TCode::EOI == TCode::EOI);
}

#[test]
fn token_constructors() {
    let t = Token::from(TCode::COMMA);
    assert!(matches!(t.code, TCode::COMMA));
    assert_eq!(t.loc, TLoc::empty());
    let e = Token::error();
    assert!(matches!(e.code, TCode::ERROR));
    let i = Token::id("abc");
    assert!(matches!(&i.code, TCode::ID(n) if n == "abc"));
    assert_eq!(i.code.text(), "ID(\"abc\")");
    assert_eq!(TCode::INT(-12).text(), "INT(-12)");
    assert_eq!(TCode::INT(i64::MIN).text(), "INT(-9223372036854775808)");
    assert_eq!(TCode::INT(0).text(), "INT(0)");
    assert_eq!(TLoc::empty().first, TPos::new(0, 0, 0));
}

#[test]
fn token_clone_keeps_payload() {
    let t = Token::id("name");
    let c = t.clone();
    assert!(matches!(&c.code, TCode::ID(n) if n == "name"));
    assert_eq!(c.loc, t.loc);
}
