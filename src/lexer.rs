use vstd::prelude::*;
use vstd::string::*;
use crate::token::{keyword, keyword_of, letter, digit, spells, toks, CheckChar, Keyword, Lexeme, Tok, Token};

verus! {

/// The value of a decimal digit character.
pub open spec fn digit_value(c: char) -> i32 {
    (c as u32 - '0' as u32) as i32
}

/// The token that a word of letters, digits and underscores stands for.
pub open spec fn word_token(w: Seq<char>) -> Tok {
    if w == seq!['t', 'r', 'u', 'e'] {
        Lexeme::True
    } else if w == seq!['f', 'a', 'l', 's', 'e'] {
        Lexeme::False
    } else {
        match keyword_of(w) {
            Some(k) => Lexeme::Keyword(k),
            None => Lexeme::Identifier(w),
        }
    }
}

/// The tokens of `s` from index `i` on.
pub open spec fn lex_from(s: Seq<char>, i: int) -> Seq<Tok>
    decreases s.len() - i, 0int,
{
    if i < 0 || i >= s.len() {
        seq![]
    } else {
        let c = s[i];
        let next_is = |d: char| i + 1 < s.len() && s[i + 1] == d;
        if c == '+' {
            seq![Lexeme::Plus] + lex_from(s, i + 1)
        } else if c == '-' {
            seq![Lexeme::Minus] + lex_from(s, i + 1)
        } else if c == '*' {
            seq![Lexeme::Asterisk] + lex_from(s, i + 1)
        } else if c == '/' {
            seq![Lexeme::Slash] + lex_from(s, i + 1)
        } else if c == ';' {
            seq![Lexeme::Semicolon] + lex_from(s, i + 1)
        } else if c == '(' {
            seq![Lexeme::OpenParen] + lex_from(s, i + 1)
        } else if c == ')' {
            seq![Lexeme::CloseParen] + lex_from(s, i + 1)
        } else if c == '{' {
            seq![Lexeme::OpenBrace] + lex_from(s, i + 1)
        } else if c == '}' {
            seq![Lexeme::CloseBrace] + lex_from(s, i + 1)
        } else if c == '[' {
            seq![Lexeme::OpenBracket] + lex_from(s, i + 1)
        } else if c == ']' {
            seq![Lexeme::CloseBracket] + lex_from(s, i + 1)
        } else if c == '=' {
            if next_is('=') {
                seq![Lexeme::EqualTo] + lex_from(s, i + 2)
            } else {
                seq![Lexeme::Assign] + lex_from(s, i + 1)
            }
        } else if c == '<' {
            if next_is('=') {
                seq![Lexeme::LessThanEqual] + lex_from(s, i + 2)
            } else {
                seq![Lexeme::LessThan] + lex_from(s, i + 1)
            }
        } else if c == '>' {
            if next_is('=') {
                seq![Lexeme::GreaterThanEqual] + lex_from(s, i + 2)
            } else {
                seq![Lexeme::GreaterThan] + lex_from(s, i + 1)
            }
        } else if c == '"' {
            lex_text(s, i + 1, i + 1)
        } else if letter(c) {
            lex_word(s, i, i + 1)
        } else if digit(c) {
            lex_number(s, i + 1, digit_value(c))
        } else if c == '&' && next_is('&') {
            seq![Lexeme::And] + lex_from(s, i + 2)
        } else if c == '|' && next_is('|') {
            seq![Lexeme::Or] + lex_from(s, i + 2)
        } else {
            lex_from(s, i + 1)
        }
    }
}

/// Tokens of `s` while inside a word that began at `start`; `j` is the next
/// character to look at.
pub open spec fn lex_word(s: Seq<char>, start: int, j: int) -> Seq<Tok>
    decreases s.len() - j, 1int,
{
    if 0 <= j < s.len() && (letter(s[j]) || digit(s[j])) {
        lex_word(s, start, j + 1)
    } else {
        seq![word_token(s.subrange(start, j))] + lex_from(s, j)
    }
}

/// Tokens of `s` while inside a number whose digits so far give `acc`
/// (accumulated with wrap-around on overflow).
pub open spec fn lex_number(s: Seq<char>, j: int, acc: i32) -> Seq<Tok>
    decreases s.len() - j, 1int,
{
    if 0 <= j < s.len() && digit(s[j]) {
        lex_number(s, j + 1, acc.wrapping_mul(10).wrapping_add(digit_value(s[j])))
    } else {
        seq![Lexeme::Number(acc)] + lex_from(s, j)
    }
}

/// Tokens of `s` while inside a string literal whose text began at `start`.
pub open spec fn lex_text(s: Seq<char>, start: int, j: int) -> Seq<Tok>
    decreases s.len() - j, 1int,
{
    if j < 0 || j >= s.len() {
        seq![Lexeme::Text(s.subrange(start, s.len() as int))]
    } else if s[j] == '"' {
        seq![Lexeme::Text(s.subrange(start, j))] + lex_from(s, j + 1)
    } else {
        lex_text(s, start, j + 1)
    }
}

/// The token sequence of a source text.
pub open spec fn lex_tokens(s: Seq<char>) -> Seq<Tok> {
    lex_from(s, 0)
}

proof fn lemma_push_then(a: Seq<Tok>, x: Tok, b: Seq<Tok>)
    ensures
        a.push(x) + b == a + (seq![x] + b),
{
    assert(a.push(x) + b =~= a + (seq![x] + b));
}

fn push_tok(tokens: &mut Vec<Token>, t: Token)
    ensures
        toks(final(tokens)@) == toks(old(tokens)@).push(t@),
{
    tokens.push(t);
    assert(toks(tokens@) =~= toks(old(tokens)@).push(t@));
}

/// The characters of a text.
pub fn chars_of(text: &str) -> (r: Vec<char>)
    ensures
        r@ == text@,
{
    let n = text.unicode_len();
    let mut r: Vec<char> = Vec::new();
    let mut i: usize = 0;
    while i < n
        invariant
            n == text@.len(),
            i <= n,
            r@ == text@.subrange(0, i as int),
        decreases n - i,
    {
        r.push(text.get_char(i));
        i = i + 1;
        assert(r@ =~= text@.subrange(0, i as int));
    }
    assert(r@ =~= text@);
    r
}

/// Scans a word that begins at `start`; returns its end and its token.
fn scan_word(s: &Vec<char>, start: usize) -> (r: (usize, Token))
    requires
        start < s@.len(),
    ensures
        start < r.0 <= s@.len(),
        lex_word(s@, start as int, start + 1) == seq![r.1@] + lex_from(s@, r.0 as int),
{
    let n = s.len();
    let mut j: usize = start + 1;
    while j < s.len() && (s[j].is_letter() || s[j].is_number())
        invariant
            start < j <= s@.len(),
            lex_word(s@, start as int, j as int) == lex_word(s@, start as int, start + 1),
        decreases s@.len() - j,
    {
        j = j + 1;
    }
    let mut w: Vec<char> = Vec::new();
    let mut k: usize = start;
    while k < j
        invariant
            start <= k <= j <= s@.len(),
            w@ == s@.subrange(start as int, k as int),
        decreases j - k,
    {
        w.push(s[k]);
        k = k + 1;
        assert(w@ =~= s@.subrange(start as int, k as int));
    }
    let t = if spells(&w, &['t', 'r', 'u', 'e']) {
        Lexeme::True
    } else if spells(&w, &['f', 'a', 'l', 's', 'e']) {
        Lexeme::False
    } else {
        match keyword(&w) {
            Some(kw) => Lexeme::Keyword(kw),
            None => Lexeme::Identifier(w),
        }
    };
    (j, t)
}

/// Scans the digits after the first one, at `start - 1`, whose value is `first`.
fn scan_number(s: &Vec<char>, start: usize, first: i32) -> (r: (usize, i32))
    requires
        start <= s@.len(),
    ensures
        start <= r.0 <= s@.len(),
        lex_number(s@, start as int, first) == seq![Lexeme::Number(r.1)] + lex_from(
            s@,
            r.0 as int,
        ),
{
    let mut j: usize = start;
    let mut acc: i32 = first;
    while j < s.len() && s[j].is_number()
        invariant
            start <= j <= s@.len(),
            lex_number(s@, j as int, acc) == lex_number(s@, start as int, first),
        decreases s@.len() - j,
    {
        let d = (s[j] as u32 - '0' as u32) as i32;
        acc = acc.wrapping_mul(10).wrapping_add(d);
        j = j + 1;
    }
    (j, acc)
}

/// Scans a string literal whose text begins at `start`; returns the index
/// after its closing quote (or the end) and its text.
fn scan_text(s: &Vec<char>, start: usize) -> (r: (usize, Vec<char>))
    requires
        start <= s@.len(),
    ensures
        start <= r.0 <= s@.len(),
        lex_text(s@, start as int, start as int) == seq![Lexeme::Text(r.1@)] + lex_from(
            s@,
            r.0 as int,
        ),
{
    let mut j: usize = start;
    let mut w: Vec<char> = Vec::new();
    while j < s.len() && s[j] != '"'
        invariant
            start <= j <= s@.len(),
            w@ == s@.subrange(start as int, j as int),
            lex_text(s@, start as int, j as int) == lex_text(s@, start as int, start as int),
        decreases s@.len() - j,
    {
        w.push(s[j]);
        j = j + 1;
        assert(w@ =~= s@.subrange(start as int, j as int));
    }
    if j < s.len() {
        (j + 1, w)
    } else {
        (j, w)
    }
}

/// Whether the character after index `i` is `d`.
fn next_is(s: &Vec<char>, i: usize, d: char) -> (r: bool)
    requires
        i < s@.len(),
    ensures
        r == (i + 1 < s@.len() && s@[i + 1] == d),
{
    let n = s.len();
    i + 1 < n && s[i + 1] == d
}

/// Splits a source text into tokens.
pub fn lex(input: &str) -> (r: Vec<Token>)
    ensures
        toks(r@) == lex_tokens(input@),
{
    let s = chars_of(input);
    lex_chars(&s)
}

/// Splits a character sequence into tokens.
pub fn lex_chars(s: &Vec<char>) -> (r: Vec<Token>)
    ensures
        toks(r@) == lex_tokens(s@),
{
    let mut tokens: Vec<Token> = Vec::new();
    let mut i: usize = 0;
    assert(toks(tokens@) + lex_from(s@, 0) =~= lex_from(s@, 0));
    while i < s.len()
        invariant
            i <= s@.len(),
            toks(tokens@) + lex_from(s@, i as int) == lex_from(s@, 0),
        decreases s@.len() - i,
    {
        let c = s[i];
        let ghost before = toks(tokens@);
        let mut t: Option<Token> = None;
        let mut next: usize = i + 1;
        if c == '+' {
            t = Some(Lexeme::Plus);
        } else if c == '-' {
            t = Some(Lexeme::Minus);
        } else if c == '*' {
            t = Some(Lexeme::Asterisk);
        } else if c == '/' {
            t = Some(Lexeme::Slash);
        } else if c == ';' {
            t = Some(Lexeme::Semicolon);
        } else if c == '(' {
            t = Some(Lexeme::OpenParen);
        } else if c == ')' {
            t = Some(Lexeme::CloseParen);
        } else if c == '{' {
            t = Some(Lexeme::OpenBrace);
        } else if c == '}' {
            t = Some(Lexeme::CloseBrace);
        } else if c == '[' {
            t = Some(Lexeme::OpenBracket);
        } else if c == ']' {
            t = Some(Lexeme::CloseBracket);
        } else if c == '=' {
            if next_is(s, i, '=') {
                t = Some(Lexeme::EqualTo);
                next = i + 2;
            } else {
                t = Some(Lexeme::Assign);
            }
        } else if c == '<' {
            if next_is(s, i, '=') {
                t = Some(Lexeme::LessThanEqual);
                next = i + 2;
            } else {
                t = Some(Lexeme::LessThan);
            }
        } else if c == '>' {
            if next_is(s, i, '=') {
                t = Some(Lexeme::GreaterThanEqual);
                next = i + 2;
            } else {
                t = Some(Lexeme::GreaterThan);
            }
        } else if c == '"' {
            let (j, w) = scan_text(s, i + 1);
            t = Some(Lexeme::Text(w));
            next = j;
        } else if c.is_letter() {
            let (j, w) = scan_word(s, i);
            t = Some(w);
            next = j;
        } else if c.is_number() {
            let (j, v) = scan_number(s, i + 1, (c as u32 - '0' as u32) as i32);
            t = Some(Lexeme::Number(v));
            next = j;
        } else if c == '&' && next_is(s, i, '&') {
            t = Some(Lexeme::And);
            next = i + 2;
        } else if c == '|' && next_is(s, i, '|') {
            t = Some(Lexeme::Or);
            next = i + 2;
        }
        match t {
            Some(tok) => {
                assert(lex_from(s@, i as int) == seq![tok@] + lex_from(s@, next as int));
                push_tok(&mut tokens, tok);
                proof {
                    lemma_push_then(before, tok@, lex_from(s@, next as int));
                }
            },
            None => {
                assert(lex_from(s@, i as int) == lex_from(s@, next as int));
            },
        }
        i = next;
    }
    assert(toks(tokens@) + lex_from(s@, i as int) =~= toks(tokens@));
    tokens
}

} // verus!
