use rscheme::equal::equal;
use rscheme::expr::Expr;
use rscheme::float::FloatFacts;
use rscheme::lexer::{char_is_space, paren_counts, Lexer, ReadError, Token};
use rscheme::read::{read, read_str};
use std::rc::Rc;

fn facts() -> FloatFacts {
    let mut f = FloatFacts::new();
    for text in ["1.5", ".5", "2.", "10.25", "3.0"] {
        f.learn_literal(text.to_string(), Some(text.parse::<f64>().unwrap().to_bits()));
    }
    f.learn_literal(".".to_string(), None);
    f
}

fn tokens(s: &str) -> Vec<Token> {
    let mut l = Lexer::new(s);
    l.tokenize(&facts()).unwrap();
    l.tokens
}

fn shapes(s: &str) -> Vec<String> {
    tokens(s).iter().map(|t| format!("{:?}", t)).collect()
}

fn one(s: &str) -> Rc<Expr> {
    let forms = read_str(s, &facts()).unwrap();
    assert_eq!(forms.len(), 1, "{}", s);
    forms[0].clone()
}

fn num(i: i64) -> Rc<Expr> {
    Rc::new(Expr::Integer(i))
}

fn ident(s: &str) -> Rc<Expr> {
    Rc::new(Expr::Ident(s.to_string()))
}

fn list(items: Vec<Rc<Expr>>) -> Rc<Expr> {
    let mut l = Rc::new(Expr::Nil);
    for e in items.into_iter().rev() {
        l = Rc::new(Expr::Cons(e, l));
    }
    l
}

fn is_parse_failure(s: &str) {
    match read_str(s, &facts()) {
        Err(ReadError::Parse) => (),
        other => panic!("{}: {:?}", s, other),
    }
}

#[test]
fn white_space_is_what_unicode_says() {
    let mut c = 0u32;
    while c <= 0x10ffff {
        if let Some(ch) = char::from_u32(c) {
            assert_eq!(char_is_space(ch), ch.is_whitespace(), "U+{:04X}", c);
        }
        c += 1;
    }
}

#[test]
fn marks_and_parentheses() {
    assert_eq!(
        shapes("( ) ' \\ ` ,"),
        vec!["OpeningParen", "ClosingParen", "Quote", "Quote", "Quasiquote", "Unquote"]
    );
    assert_eq!(shapes(""), Vec::<String>::new());
    assert_eq!(shapes("  \n\t "), Vec::<String>::new());
}

#[test]
fn identifiers_end_at_white_space_or_a_parenthesis() {
    assert_eq!(
        shapes("abc d-e? (f)g"),
        vec![
            "Ident(\"abc\")",
            "Ident(\"d-e?\")",
            "OpeningParen",
            "Ident(\"f\")",
            "ClosingParen",
            "Ident(\"g\")"
        ]
    );
    assert_eq!(shapes("a'b\"c"), vec!["Ident(\"a'b\\\"c\")"]);
    assert_eq!(shapes("-5"), vec!["Ident(\"-5\")"]);
    assert_eq!(shapes("&"), vec!["Ident(\"&\")"]);
}

#[test]
fn integers() {
    assert_eq!(shapes("0 7 0042"), vec!["Integer(0)", "Integer(7)", "Integer(42)"]);
    assert_eq!(shapes("9223372036854775807"), vec!["Integer(9223372036854775807)"]);
    assert_eq!(shapes("(12)"), vec!["OpeningParen", "Integer(12)", "ClosingParen"]);
    is_parse_failure("9223372036854775808");
    is_parse_failure("99999999999999999999999999");
    is_parse_failure("12a");
    is_parse_failure("12'a");
    is_parse_failure("1\"a\"");
}

#[test]
fn floats_have_exactly_one_dot() {
    let ts = tokens("1.5 .5 2. (10.25)");
    assert!(matches!(ts[0], Token::Float(b) if b == 1.5f64.to_bits()));
    assert!(matches!(ts[1], Token::Float(b) if b == 0.5f64.to_bits()));
    assert!(matches!(ts[2], Token::Float(b) if b == 2.0f64.to_bits()));
    assert!(matches!(ts[4], Token::Float(b) if b == 10.25f64.to_bits()));
    is_parse_failure("1.2.3");
    is_parse_failure("1..2");
    is_parse_failure(".");
    is_parse_failure("1.5x");
}

#[test]
fn an_unknown_literal_is_asked_for() {
    match read_str("(a 7.75)", &facts()) {
        Err(ReadError::Literal(t)) => assert_eq!(t, "7.75"),
        other => panic!("{:?}", other),
    }
    let mut l = Lexer::new("1 7.75 2");
    let mut f = facts();
    match l.tokenize(&f) {
        Err(ReadError::Literal(t)) => {
            assert_eq!(l.tokens.len(), 1);
            f.learn_literal(t, Some(7.75f64.to_bits()));
        }
        other => panic!("{:?}", other),
    }
    l.tokenize(&f).unwrap();
    assert_eq!(l.tokens.len(), 3);
    assert!(matches!(l.tokens[1], Token::Float(b) if b == 7.75f64.to_bits()));
}

#[test]
fn strings_and_their_escapes() {
    assert_eq!(shapes("\"\""), vec!["String(\"\")"]);
    assert_eq!(shapes("\"a b\"c"), vec!["String(\"a b\")", "Ident(\"c\")"]);
    assert_eq!(shapes("\"a\\\"b\\\\c\""), vec!["String(\"a\\\"b\\\\c\")"]);
    assert_eq!(shapes("\"(1 2)\""), vec!["String(\"(1 2)\")"]);
    is_parse_failure("\"abc");
    is_parse_failure("\"abc\\");
    is_parse_failure("\"a\\nb\"");
}

#[test]
fn read_single_token_reads_one_token() {
    let mut l = Lexer::new("  (a 12)");
    let f = facts();
    l.read_single_token(&f).unwrap();
    assert_eq!(l.tokens.len(), 1);
    l.read_single_token(&f).unwrap();
    assert_eq!(l.tokens.len(), 2);
    l.read_single_token(&f).unwrap();
    l.read_single_token(&f).unwrap();
    assert_eq!(l.tokens.len(), 4);
    l.read_single_token(&f).unwrap();
    assert_eq!(l.tokens.len(), 4);
    assert_eq!(
        l.tokens.iter().map(|t| format!("{:?}", t)).collect::<Vec<_>>(),
        vec!["OpeningParen", "Ident(\"a\")", "Integer(12)", "ClosingParen"]
    );
}

#[test]
fn parentheses_are_counted() {
    assert_eq!(paren_counts(&tokens("(a (b) (")), (3, 1));
    assert_eq!(paren_counts(&tokens("a b")), (0, 0));
    assert_eq!(paren_counts(&tokens(")) (")), (1, 2));
}

#[test]
fn forms_are_read_in_order() {
    let forms = read_str("1 (a b) 'c", &facts()).unwrap();
    assert_eq!(forms.len(), 3);
    assert!(equal(&forms[0], &num(1)));
    assert!(equal(&forms[1], &list(vec![ident("a"), ident("b")])));
    assert!(equal(&forms[2], &Expr::Quote(ident("c"))));
    assert_eq!(read_str("", &facts()).unwrap().len(), 0);
    assert_eq!(read_str("   ", &facts()).unwrap().len(), 0);
}

#[test]
fn lists_nest() {
    assert!(equal(&one("()"), &Expr::Nil));
    assert!(equal(&one("(())"), &list(vec![Rc::new(Expr::Nil)])));
    assert!(equal(
        &one("(a (b (c 1.5)) \"s\")"),
        &list(vec![
            ident("a"),
            list(vec![ident("b"), list(vec![ident("c"), Rc::new(Expr::Float(1.5f64.to_bits()))])]),
            Rc::new(Expr::String("s".to_string())),
        ])
    ));
}

#[test]
fn quote_marks_wrap_the_next_form() {
    assert!(equal(&one("'(1 2)"), &Expr::Quote(list(vec![num(1), num(2)]))));
    assert!(equal(&one("`(a ,b)"), &Expr::Quasiquote(list(vec![
        ident("a"),
        Rc::new(Expr::Unquote(ident("b"))),
    ]))));
    assert!(equal(&one("''a"), &Expr::Quote(Rc::new(Expr::Quote(ident("a"))))));
}

#[test]
fn malformed_text_is_no_sequence_of_forms() {
    is_parse_failure("(");
    is_parse_failure("(a (b)");
    is_parse_failure(")");
    is_parse_failure("(a))");
    is_parse_failure("'");
    is_parse_failure("(a ')");
    is_parse_failure("1 2 `");
}

#[test]
fn read_takes_tokens() {
    let forms = read(&tokens("(a) b")).unwrap();
    assert_eq!(forms.len(), 2);
    assert!(read(&tokens("(a")).is_none());
    assert_eq!(read(&vec![]).unwrap().len(), 0);
}
