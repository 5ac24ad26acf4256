use vstd::prelude::*;

verus! {

/// The reserved words of the language.
#[derive(Clone, Copy, Debug, PartialEq, Eq, Structural)]
pub enum Keyword {
    If,
    Else,
    While,
    Print,
    Println,
    Int,
    Str,
    Bool,
    Input,
}

/// A lexical token, generic over the type of its text payloads: `Token` holds
/// `Vec<char>`, and its view `Tok` holds `Seq<char>`.
#[derive(Clone, Debug, PartialEq, Eq)]
pub enum Lexeme<S> {
    Identifier(S),
    Keyword(Keyword),
    Text(S),
    Number(i32),
    True,
    False,
    Or,
    And,
    Plus,
    Minus,
    Asterisk,
    Slash,
    Assign,
    Semicolon,
    OpenParen,
    CloseParen,
    OpenBrace,
    CloseBrace,
    LessThan,
    LessThanEqual,
    GreaterThan,
    GreaterThanEqual,
    EqualTo,
    OpenBracket,
    CloseBracket,
}

pub type Token = Lexeme<Vec<char>>;

pub type Tok = Lexeme<Seq<char>>;

impl View for Lexeme<Vec<char>> {
    type V = Lexeme<Seq<char>>;

    open spec fn view(&self) -> Tok {
        match self {
            Lexeme::Identifier(s) => Lexeme::Identifier(s@),
            Lexeme::Keyword(k) => Lexeme::Keyword(*k),
            Lexeme::Text(s) => Lexeme::Text(s@),
            Lexeme::Number(n) => Lexeme::Number(*n),
            Lexeme::True => Lexeme::True,
            Lexeme::False => Lexeme::False,
            Lexeme::Or => Lexeme::Or,
            Lexeme::And => Lexeme::And,
            Lexeme::Plus => Lexeme::Plus,
            Lexeme::Minus => Lexeme::Minus,
            Lexeme::Asterisk => Lexeme::Asterisk,
            Lexeme::Slash => Lexeme::Slash,
            Lexeme::Assign => Lexeme::Assign,
            Lexeme::Semicolon => Lexeme::Semicolon,
            Lexeme::OpenParen => Lexeme::OpenParen,
            Lexeme::CloseParen => Lexeme::CloseParen,
            Lexeme::OpenBrace => Lexeme::OpenBrace,
            Lexeme::CloseBrace => Lexeme::CloseBrace,
            Lexeme::LessThan => Lexeme::LessThan,
            Lexeme::LessThanEqual => Lexeme::LessThanEqual,
            Lexeme::GreaterThan => Lexeme::GreaterThan,
            Lexeme::GreaterThanEqual => Lexeme::GreaterThanEqual,
            Lexeme::EqualTo => Lexeme::EqualTo,
            Lexeme::OpenBracket => Lexeme::OpenBracket,
            Lexeme::CloseBracket => Lexeme::CloseBracket,
        }
    }
}

/// The view of a token vector.
pub open spec fn toks(v: Seq<Token>) -> Seq<Tok> {
    v.map_values(|t: Token| t@)
}

/// What `char::is_alphabetic` returns for a character (the Unicode
/// `Alphabetic` property).
pub uninterp spec fn alphabetic(c: char) -> bool;

pub open spec fn is_ascii_letter(c: char) -> bool {
    ('a' <= c && c <= 'z') || ('A' <= c && c <= 'Z')
}

/// Relies on `char::is_alphabetic`: the result depends on the character alone,
/// and the ASCII characters with the `Alphabetic` property are the 52 letters.
#[verifier::external_body]
fn char_is_alphabetic(c: char) -> (r: bool)
    ensures
        r == alphabetic(c),
        (c as u32) < 128 ==> (r == is_ascii_letter(c)),
{
    c.is_alphabetic()
}

/// A character that may start an identifier: an alphabetic character or
/// `_`. Among ASCII characters these are the 52 letters and `_`.
pub open spec fn letter(c: char) -> bool {
    if (c as u32) < 128 {
        is_ascii_letter(c) || c == '_'
    } else {
        alphabetic(c)
    }
}

/// A decimal digit.
pub open spec fn digit(c: char) -> bool {
    '0' <= c && c <= '9'
}

/// Character classes used by the tokenizer.
pub trait CheckChar {
    spec fn letter_spec(&self) -> bool;

    spec fn digit_spec(&self) -> bool;

    fn is_letter(&self) -> (r: bool)
        ensures
            r == self.letter_spec(),
    ;

    fn is_number(&self) -> (r: bool)
        ensures
            r == self.digit_spec(),
    ;
}

impl CheckChar for char {
    open spec fn letter_spec(&self) -> bool {
        letter(*self)
    }

    open spec fn digit_spec(&self) -> bool {
        digit(*self)
    }

    fn is_letter(&self) -> (r: bool) {
        char_is_alphabetic(*self) || *self == '_'
    }

    fn is_number(&self) -> (r: bool) {
        '0' <= *self && *self <= '9'
    }
}

/// The keyword that a word spells, if any.
pub open spec fn keyword_of(w: Seq<char>) -> Option<Keyword> {
    if w == seq!['i', 'f'] {
        Some(Keyword::If)
    } else if w == seq!['e', 'l', 's', 'e'] {
        Some(Keyword::Else)
    } else if w == seq!['w', 'h', 'i', 'l', 'e'] {
        Some(Keyword::While)
    } else if w == seq!['p', 'r', 'i', 'n', 't'] {
        Some(Keyword::Print)
    } else if w == seq!['p', 'r', 'i', 'n', 't', 'l', 'n'] {
        Some(Keyword::Println)
    } else if w == seq!['i', 'n', 't'] {
        Some(Keyword::Int)
    } else if w == seq!['s', 't', 'r', 'i', 'n', 'g'] {
        Some(Keyword::Str)
    } else if w == seq!['b', 'o', 'o', 'l'] {
        Some(Keyword::Bool)
    } else if w == seq!['i', 'n', 'p', 'u', 't', '_'] {
        Some(Keyword::Input)
    } else {
        None
    }
}

/// Whether a word equals a literal spelling.
pub fn spells(w: &Vec<char>, lit: &[char]) -> (r: bool)
    ensures
        r == (w@ == lit@),
{
    if w.len() != lit.len() {
        return false;
    }
    let mut i: usize = 0;
    while i < w.len()
        invariant
            w.len() == lit@.len(),
            i <= w.len(),
            forall|j: int| 0 <= j < i ==> w@[j] == lit@[j],
        decreases w.len() - i,
    {
        if w[i] != lit[i] {
            return false;
        }
        i = i + 1;
    }
    assert(w@ =~= lit@);
    true
}

/// Looks a word up among the keywords.
pub fn keyword(w: &Vec<char>) -> (r: Option<Keyword>)
    ensures
        r == keyword_of(w@),
{
    if spells(w, &['i', 'f']) {
        Some(Keyword::If)
    } else if spells(w, &['e', 'l', 's', 'e']) {
        Some(Keyword::Else)
    } else if spells(w, &['w', 'h', 'i', 'l', 'e']) {
        Some(Keyword::While)
    } else if spells(w, &['p', 'r', 'i', 'n', 't']) {
        Some(Keyword::Print)
    } else if spells(w, &['p', 'r', 'i', 'n', 't', 'l', 'n']) {
        Some(Keyword::Println)
    } else if spells(w, &['i', 'n', 't']) {
        Some(Keyword::Int)
    } else if spells(w, &['s', 't', 'r', 'i', 'n', 'g']) {
        Some(Keyword::Str)
    } else if spells(w, &['b', 'o', 'o', 'l']) {
        Some(Keyword::Bool)
    } else if spells(w, &['i', 'n', 'p', 'u', 't', '_']) {
        Some(Keyword::Input)
    } else {
        None
    }
}

/// Keyword recognition on words.
pub trait CheckStr {
    spec fn keyword_spec(&self) -> bool;

    fn is_keyword(&self) -> (r: bool)
        ensures
            r == self.keyword_spec(),
    ;
}

impl CheckStr for str {
    open spec fn keyword_spec(&self) -> bool {
        keyword_of(self@) is Some
    }

    fn is_keyword(&self) -> (r: bool) {
        let w = crate::lexer::chars_of(self);
        keyword(&w).is_some()
    }
}

} // verus!
