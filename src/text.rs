use vstd::prelude::*;
use crate::token::digit;

verus! {

/// The character of a decimal digit value below ten.
pub open spec fn digit_char(d: nat) -> char {
    ((d + 48) as u8) as char
}

/// The decimal text of a natural number.
pub open spec fn nat_text(n: nat) -> Seq<char>
    decreases n,
{
    if n < 10 {
        seq![digit_char(n)]
    } else {
        nat_text(n / 10).push(digit_char(n % 10))
    }
}

/// The decimal text of an integer, with a leading `-` when negative.
pub open spec fn int_text(n: int) -> Seq<char> {
    if n < 0 {
        seq!['-'] + nat_text((-n) as nat)
    } else {
        nat_text(n as nat)
    }
}

/// The text of a boolean.
pub open spec fn bool_text(b: bool) -> Seq<char> {
    if b {
        seq!['t', 'r', 'u', 'e']
    } else {
        seq!['f', 'a', 'l', 's', 'e']
    }
}

/// What `char::is_whitespace` returns for a character (the Unicode
/// `White_Space` property).
pub uninterp spec fn white_space(c: char) -> bool;

/// Relies on `char::is_whitespace`: the result depends on the character alone;
/// among ASCII characters it holds of space, tab, line feed, vertical tab,
/// form feed and carriage return.
#[verifier::external_body]
fn char_is_whitespace(c: char) -> (r: bool)
    ensures
        r == white_space(c),
        r == is_white(c),
        (c as u32) < 128 ==> (r == (c == ' ' || c == '\t' || c == '\n' || c == '\x0B' || c
            == '\x0C' || c == '\r')),
{
    c.is_whitespace()
}

/// A white-space character. Among ASCII characters these are space, tab,
/// line feed, vertical tab, form feed and carriage return.
pub open spec fn is_white(c: char) -> bool {
    if (c as u32) < 128 {
        c == ' ' || c == '\t' || c == '\n' || c == '\x0B' || c == '\x0C' || c == '\r'
    } else {
        white_space(c)
    }
}

/// `s` without its leading white space.
pub open spec fn trim_start(s: Seq<char>) -> Seq<char>
    decreases s.len(),
{
    if s.len() > 0 && is_white(s[0]) {
        trim_start(s.drop_first())
    } else {
        s
    }
}

/// `s` without its trailing white space.
pub open spec fn trim_end(s: Seq<char>) -> Seq<char>
    decreases s.len(),
{
    if s.len() > 0 && is_white(s.last()) {
        trim_end(s.drop_last())
    } else {
        s
    }
}

/// The value of a sequence of decimal digits.
pub open spec fn digits_value(s: Seq<char>) -> int
    decreases s.len(),
{
    if s.len() == 0 {
        0
    } else {
        digits_value(s.drop_last()) * 10 + (s.last() as int - '0' as int)
    }
}

pub open spec fn all_digits(s: Seq<char>) -> bool {
    s.len() > 0 && forall|i: int| 0 <= i < s.len() ==> digit(#[trigger] s[i])
}

/// The integer that a text spells: an optional sign and one or more digits.
pub open spec fn signed_value(t: Seq<char>) -> Option<int> {
    if t.len() > 0 && t[0] == '-' {
        if all_digits(t.drop_first()) {
            Some(-digits_value(t.drop_first()))
        } else {
            None
        }
    } else if t.len() > 0 && t[0] == '+' {
        if all_digits(t.drop_first()) {
            Some(digits_value(t.drop_first()))
        } else {
            None
        }
    } else if all_digits(t) {
        Some(digits_value(t))
    } else {
        None
    }
}

/// The 32-bit integer that a line holds once its surrounding white space is
/// removed, if it holds one.
pub open spec fn int_of_line(line: Seq<char>) -> Option<i32> {
    match signed_value(trim_end(trim_start(line))) {
        Some(v) => if i32::MIN <= v <= i32::MAX {
            Some(v as i32)
        } else {
            None
        },
        None => None,
    }
}

/// A copy of a text.
pub fn copy_text(v: &Vec<char>) -> (r: Vec<char>)
    ensures
        r@ == v@,
{
    let mut r: Vec<char> = Vec::new();
    let mut i: usize = 0;
    while i < v.len()
        invariant
            i <= v@.len(),
            r@ == v@.subrange(0, i as int),
        decreases v@.len() - i,
    {
        r.push(v[i]);
        i = i + 1;
        assert(r@ =~= v@.subrange(0, i as int));
    }
    assert(r@ =~= v@);
    r
}

/// Appends `t` to `out`.
pub fn append_text(out: &mut Vec<char>, t: &Vec<char>)
    ensures
        final(out)@ == old(out)@ + t@,
{
    let mut i: usize = 0;
    while i < t.len()
        invariant
            i <= t@.len(),
            out@ == old(out)@ + t@.subrange(0, i as int),
        decreases t@.len() - i,
    {
        out.push(t[i]);
        i = i + 1;
        assert(out@ =~= old(out)@ + t@.subrange(0, i as int));
    }
    assert(t@.subrange(0, t@.len() as int) =~= t@);
}

fn push_nat(out: &mut Vec<char>, n: u32)
    ensures
        final(out)@ == old(out)@ + nat_text(n as nat),
    decreases n,
{
    if n >= 10 {
        push_nat(out, n / 10);
    }
    let d = n % 10;
    out.push(((d + 48) as u8) as char);
    assert(out@ =~= old(out)@ + nat_text(n as nat));
}

/// Appends the decimal text of `n` to `out`.
pub fn push_int(out: &mut Vec<char>, n: i32)
    ensures
        final(out)@ == old(out)@ + int_text(n as int),
{
    if n < 0 {
        out.push('-');
        let m = (-(n as i64)) as u32;
        push_nat(out, m);
        assert(out@ =~= old(out)@ + int_text(n as int));
    } else {
        push_nat(out, n as u32);
    }
}

/// Appends the text of `b` to `out`.
pub fn push_bool(out: &mut Vec<char>, b: bool)
    ensures
        final(out)@ == old(out)@ + bool_text(b),
{
    if b {
        out.push('t');
        out.push('r');
        out.push('u');
        out.push('e');
    } else {
        out.push('f');
        out.push('a');
        out.push('l');
        out.push('s');
        out.push('e');
    }
    assert(out@ =~= old(out)@ + bool_text(b));
}

/// The bounds of `line` without its leading and trailing white space.
fn trim_bounds(line: &Vec<char>) -> (r: (usize, usize))
    ensures
        r.0 <= r.1 <= line@.len(),
        line@.subrange(r.0 as int, r.1 as int) == trim_end(trim_start(line@)),
{
    let n = line.len();
    let mut a: usize = 0;
    assert(line@.subrange(0, n as int) =~= line@);
    while a < n && char_is_whitespace(line[a])
        invariant
            n == line@.len(),
            a <= n,
            trim_start(line@.subrange(a as int, n as int)) == trim_start(line@),
        decreases n - a,
    {
        assert(line@.subrange(a as int, n as int).drop_first() =~= line@.subrange(
            a + 1,
            n as int,
        ));
        a = a + 1;
    }
    let mut b: usize = n;
    assert(line@.subrange(a as int, n as int) == trim_start(line@));
    while b > a && char_is_whitespace(line[b - 1])
        invariant
            n == line@.len(),
            a <= b <= n,
            trim_end(line@.subrange(a as int, b as int)) == trim_end(trim_start(line@)),
        decreases b,
    {
        assert(line@.subrange(a as int, b as int).drop_last() =~= line@.subrange(
            a as int,
            b - 1,
        ));
        b = b - 1;
    }
    (a, b)
}

/// Reads the digits of `line[a..b]`; the value when all are digits and it is
/// at most 2^31.
fn digits_in(line: &Vec<char>, a: usize, b: usize) -> (r: Option<i64>)
    requires
        a <= b <= line@.len(),
    ensures
        match r {
            Some(v) => all_digits(line@.subrange(a as int, b as int)) && v == digits_value(
                line@.subrange(a as int, b as int),
            ) && 0 <= v <= 2147483648,
            None => !all_digits(line@.subrange(a as int, b as int)) || digits_value(
                line@.subrange(a as int, b as int),
            ) > 2147483648,
        },
{
    if a == b {
        return None;
    }
    let mut k: usize = a;
    let mut acc: i64 = 0;
    let mut big = false;
    assert(line@.subrange(a as int, a as int) =~= Seq::<char>::empty());
    while k < b
        invariant
            a <= k <= b <= line@.len(),
            forall|i: int| a <= i < k ==> digit(#[trigger] line@[i]),
            !big ==> acc == digits_value(line@.subrange(a as int, k as int)) && 0 <= acc
                <= 2147483648,
            big ==> digits_value(line@.subrange(a as int, k as int)) > 2147483648,
        decreases b - k,
    {
        let c = line[k];
        if !('0' <= c && c <= '9') {
            assert(line@.subrange(a as int, b as int)[k - a] == c);
            return None;
        }
        assert(line@.subrange(a as int, k + 1).drop_last() =~= line@.subrange(a as int, k as int));
        if !big {
            let d = (c as u32 - '0' as u32) as i64;
            acc = acc * 10 + d;
            if acc > 2147483648 {
                big = true;
            }
        }
        k = k + 1;
    }
    assert(line@.subrange(a as int, b as int).len() > 0);
    assert forall|i: int| 0 <= i < line@.subrange(a as int, b as int).len() implies digit(
        #[trigger] line@.subrange(a as int, b as int)[i],
    ) by {
        assert(line@.subrange(a as int, b as int)[i] == line@[a + i]);
    }
    if big {
        None
    } else {
        Some(acc)
    }
}

/// Parses a line of input as a 32-bit integer, ignoring surrounding white
/// space; `None` when it holds no such integer.
pub fn parse_int(line: &Vec<char>) -> (r: Option<i32>)
    ensures
        r == int_of_line(line@),
{
    let (a, b) = trim_bounds(line);
    let ghost t = line@.subrange(a as int, b as int);
    assert(a < b ==> t[0] == line@[a as int]);
    if a < b && (line[a] == '-' || line[a] == '+') {
        let neg = line[a] == '-';
        assert(t.drop_first() =~= line@.subrange(a + 1, b as int));
        match digits_in(line, a + 1, b) {
            Some(v) => {
                if neg {
                    Some((-v) as i32)
                } else if v <= 2147483647 {
                    Some(v as i32)
                } else {
                    None
                }
            },
            None => None,
        }
    } else {
        match digits_in(line, a, b) {
            Some(v) => {
                if v <= 2147483647 {
                    Some(v as i32)
                } else {
                    None
                }
            },
            None => None,
        }
    }
}

} // verus!
