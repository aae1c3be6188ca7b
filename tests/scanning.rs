use topaz::{scan, Continuation, Number, ScanError, Scanner, Type};

fn num(t: &str) -> Type {
    Type::Integer(Number::parse(t).unwrap())
}

fn ident(t: &str) -> Type {
    Type::Identifier(String::from(t))
}

fn text(t: &str) -> Type {
    Type::String(String::from(t))
}

#[test]
fn numeric_fidelity() {
    let tokens = scan("15.2 + 6 - (2 * 7)").unwrap();
    assert_eq!(
        tokens,
        vec![
            num("15.2"),
            Type::Plus,
            num("6"),
            Type::Dash,
            Type::LParen,
            num("2"),
            Type::Star,
            num("7"),
            Type::RParen,
            Type::Eof,
        ]
    );
    let values: Vec<f64> = tokens
        .iter()
        .filter_map(|t| match t {
            Type::Integer(n) => Some(n.text().parse::<f64>().unwrap()),
            _ => None,
        })
        .collect();
    assert_eq!(values, vec![15.2, 6.0, 2.0, 7.0]);
}

#[test]
fn identifier_stops_before_digits() {
    assert_eq!(
        scan("foo_bar123").unwrap(),
        vec![ident("foo_bar"), num("123"), Type::Eof]
    );
    assert_eq!(scan("a1").unwrap(), vec![ident("a"), num("1"), Type::Eof]);
}

#[test]
fn string_keeps_its_quotes() {
    assert_eq!(scan("\"hi\"").unwrap(), vec![text("\"hi\""), Type::Eof]);
    assert_eq!(scan("\"\"").unwrap(), vec![text("\"\""), Type::Eof]);
}

#[test]
fn adjacent_strings_are_separate() {
    assert_eq!(
        scan("\"a\"\"b\" x").unwrap(),
        vec![text("\"a\""), text("\"b\""), ident("x"), Type::Eof]
    );
}

#[test]
fn unterminated_string_runs_to_end() {
    assert_eq!(scan("\"abc def").unwrap(), vec![text("\"abc def"), Type::Eof]);
    assert_eq!(scan("x \"").unwrap(), vec![ident("x"), text("\""), Type::Eof]);
}

#[test]
fn string_may_hold_any_character() {
    assert_eq!(scan("\"# 1.2.3\"").unwrap(), vec![text("\"# 1.2.3\""), Type::Eof]);
}

#[test]
fn keywords_take_precedence() {
    assert_eq!(scan("struct").unwrap(), vec![Type::Struct, Type::Eof]);
    assert_eq!(
        scan("true false").unwrap(),
        vec![Type::Boolean(true), Type::Boolean(false), Type::Eof]
    );
    assert_eq!(
        scan("struct extend func if else while for import return").unwrap(),
        vec![
            Type::Struct,
            Type::Extend,
            Type::Func,
            Type::If,
            Type::Else,
            Type::While,
            Type::For,
            Type::Import,
            Type::Return,
            Type::Eof,
        ]
    );
}

#[test]
fn near_keywords_are_identifiers() {
    assert_eq!(
        scan("structs Struct _if truth").unwrap(),
        vec![ident("structs"), ident("Struct"), ident("_if"), ident("truth"), Type::Eof]
    );
}

#[test]
fn operators_and_parentheses() {
    assert_eq!(
        scan("()+-*/=").unwrap(),
        vec![
            Type::LParen,
            Type::RParen,
            Type::Plus,
            Type::Dash,
            Type::Star,
            Type::Slash,
            Type::Equals,
            Type::Eof,
        ]
    );
}

#[test]
fn unexpected_character_is_fatal() {
    assert_eq!(scan("a # b"), Err(ScanError::UnexpectedChar { ch: '#', pos: 2 }));
    assert_eq!(scan("#"), Err(ScanError::UnexpectedChar { ch: '#', pos: 0 }));
    assert_eq!(scan("x = 1;"), Err(ScanError::UnexpectedChar { ch: ';', pos: 5 }));
}

#[test]
fn first_error_wins() {
    assert_eq!(scan("1.2.3 #"), Err(ScanError::MalformedNumber { start: 0, end: 5 }));
    assert_eq!(scan("# 1.2.3"), Err(ScanError::UnexpectedChar { ch: '#', pos: 0 }));
}

#[test]
fn malformed_number_is_fatal() {
    assert_eq!(scan("x 1..2"), Err(ScanError::MalformedNumber { start: 2, end: 6 }));
}

#[test]
fn trailing_point_is_a_number() {
    assert_eq!(scan("7.").unwrap(), vec![num("7."), Type::Eof]);
    assert_eq!(Number::parse("7.").unwrap().text(), "7.");
}

#[test]
fn empty_and_blank_input() {
    assert_eq!(scan("").unwrap(), vec![Type::Eof]);
    assert_eq!(scan(" \t\r\n\x0C").unwrap(), vec![Type::Eof]);
}

#[test]
fn whitespace_between_tokens_is_inert() {
    let tight = scan("x=(a+1.5)*\"s\"").unwrap();
    let loose = scan("  x =\t( a\n+ 1.5 ) *  \"s\"  ").unwrap();
    assert_eq!(tight, loose);
}

#[test]
fn whitespace_inside_a_word_splits_it() {
    assert_eq!(scan("foobar").unwrap(), vec![ident("foobar"), Type::Eof]);
    assert_eq!(scan("foo bar").unwrap(), vec![ident("foo"), ident("bar"), Type::Eof]);
}

#[test]
fn scanning_twice_agrees() {
    let src = "func f ( x ) = x * 2";
    assert_eq!(scan(src), scan(src));
}

#[test]
fn eof_comes_once_and_last() {
    let tokens = scan("if a else b").unwrap();
    assert_eq!(tokens.last(), Some(&Type::Eof));
    assert_eq!(tokens.iter().filter(|t| **t == Type::Eof).count(), 1);
}

#[test]
fn number_parse_accepts_and_refuses() {
    assert_eq!(Number::parse("0.25").unwrap().text(), "0.25");
    assert!(Number::parse("1.2.3").is_none());
    assert!(Number::parse(".5").is_none());
    assert!(Number::parse("").is_none());
    assert!(Number::parse("12a").is_none());
}

#[test]
fn consume_takes_a_word() {
    let mut scanner = Scanner::new("abc1");
    scanner.pos = 1;
    let word = scanner.consume('a', Continuation::Word);
    assert_eq!(word, "abc");
    assert_eq!(scanner.pos, 3);
}

#[test]
fn consume_stops_after_closing_quote() {
    let mut scanner = Scanner::new("\"ab\"cd");
    scanner.pos = 1;
    let s = scanner.consume('"', Continuation::Quoted);
    assert_eq!(s, "\"ab\"");
    assert_eq!(scanner.pos, 4);
}

#[test]
fn consume_takes_digits_and_points() {
    let mut scanner = Scanner::new("12.5+");
    scanner.pos = 1;
    let s = scanner.consume('1', Continuation::Number);
    assert_eq!(s, "12.5");
    assert_eq!(scanner.pos, 4);
}
