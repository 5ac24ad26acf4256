use tinyscript::lexer::lex;
use tinyscript::token::{keyword, CheckChar, CheckStr, Keyword, Lexeme, Token};

fn chars(s: &str) -> Vec<char> {
    s.chars().collect()
}

#[test]
fn lex_declaration() {
    let t = lex("int x = 5 + 2;");
    let expected: Vec<Token> = vec![
        Lexeme::Keyword(Keyword::Int),
        Lexeme::Identifier(chars("x")),
        Lexeme::Assign,
        Lexeme::Number(5),
        Lexeme::Plus,
        Lexeme::Number(2),
        Lexeme::Semicolon,
    ];
    assert_eq!(t, expected);
}

#[test]
fn lex_two_character_operators() {
    let t = lex("== <= >= && || < > = & |");
    let expected: Vec<Token> = vec![
        Lexeme::EqualTo,
        Lexeme::LessThanEqual,
        Lexeme::GreaterThanEqual,
        Lexeme::And,
        Lexeme::Or,
        Lexeme::LessThan,
        Lexeme::GreaterThan,
        Lexeme::Assign,
    ];
    assert_eq!(t, expected);
}

#[test]
fn lex_words() {
    let t = lex("true false while input_ _a1 println");
    let expected: Vec<Token> = vec![
        Lexeme::True,
        Lexeme::False,
        Lexeme::Keyword(Keyword::While),
        Lexeme::Keyword(Keyword::Input),
        Lexeme::Identifier(chars("_a1")),
        Lexeme::Keyword(Keyword::Println),
    ];
    assert_eq!(t, expected);
}

#[test]
fn lex_string_literals() {
    let t = lex("\"a b\" \"unterminated");
    let expected: Vec<Token> = vec![Lexeme::Text(chars("a b")), Lexeme::Text(chars("unterminated"))];
    assert_eq!(t, expected);
}

#[test]
fn lex_punctuation_and_unknown_characters() {
    let t = lex("( ) { } [ ] - * / ; @ #");
    let expected: Vec<Token> = vec![
        Lexeme::OpenParen,
        Lexeme::CloseParen,
        Lexeme::OpenBrace,
        Lexeme::CloseBrace,
        Lexeme::OpenBracket,
        Lexeme::CloseBracket,
        Lexeme::Minus,
        Lexeme::Asterisk,
        Lexeme::Slash,
        Lexeme::Semicolon,
    ];
    assert_eq!(t, expected);
}

#[test]
fn lex_number_wraps_on_overflow() {
    let t = lex("4294967297");
    let expected: Vec<Token> = vec![Lexeme::Number(1)];
    assert_eq!(t, expected);
}

#[test]
fn lex_digits_then_letters() {
    let t = lex("12ab");
    let expected: Vec<Token> = vec![Lexeme::Number(12), Lexeme::Identifier(chars("ab"))];
    assert_eq!(t, expected);
}

#[test]
fn lex_unicode_letters() {
    let t = lex("é1");
    let expected: Vec<Token> = vec![Lexeme::Identifier(chars("é1"))];
    assert_eq!(t, expected);
}

#[test]
fn lex_twice_gives_the_same_tokens() {
    let src = "int i = 0; while (i < 3) { println(i); i = i + 1; }";
    assert_eq!(lex(src), lex(src));
}

#[test]
fn char_classes() {
    assert!('a'.is_letter());
    assert!('_'.is_letter());
    assert!('ß'.is_letter());
    assert!(!'1'.is_letter());
    assert!('7'.is_number());
    assert!(!'x'.is_number());
}

#[test]
fn keywords() {
    assert!("string".is_keyword());
    assert!("input_".is_keyword());
    assert!(!"strings".is_keyword());
    assert!(!"true".is_keyword());
    assert_eq!(keyword(&chars("else")), Some(Keyword::Else));
    assert_eq!(keyword(&chars("x")), None);
}
