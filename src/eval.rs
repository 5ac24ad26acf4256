use vstd::prelude::*;
use crate::env::{line_at, next_at, resolve, Env, EnvModel, Fault, Lines, Variable};
use crate::text::{append_text, bool_text, int_of_line, int_text, parse_int, push_bool, push_int};
use crate::token::{toks, Keyword, Lexeme, Tok, Token};

verus! {

/// What the evaluators read: the tokens, the end of the range being read,
/// the variables and the input lines.
pub struct Ctx {
    pub ts: Seq<Tok>,
    pub end: int,
    pub env: EnvModel,
    pub lines: Seq<Seq<char>>,
    /// More lines may still be supplied after `lines`.
    pub open: bool,
}

pub open spec fn ctx(
    ts: &Vec<Token>,
    end: usize,
    env: &Env,
    lines: Seq<Seq<char>>,
    open: bool,
) -> Ctx {
    Ctx { ts: toks(ts@), end: end as int, env: env@, lines, open }
}

/// Reading line `at` must wait: the source is open and has no such line yet.
pub open spec fn awaiting(c: Ctx, at: int) -> bool {
    c.open && at >= c.lines.len()
}

/// The token at `p`, if `p` lies before the end of the range.
pub open spec fn tok_at(c: Ctx, p: int) -> Option<Tok> {
    if 0 <= p < c.end {
        Some(c.ts[p])
    } else {
        None
    }
}

/// The position after consuming one token, or `p` itself at the end.
pub open spec fn advance(c: Ctx, p: int) -> int {
    if p < c.end {
        p + 1
    } else {
        p
    }
}

/// The outcome of an evaluation: a value, the position after it and the index
/// of the next input line; or the fault that stopped it.
pub type Eval<T> = Result<(T, int, int), Fault>;

// ---------------------------------------------------------------------------
// Arithmetic
//
// Each definition below that goes on from the position an operand ended at
// first checks that the operand moved forward within the range. An operand
// always consumes at least one token (the evaluators further down prove it),
// so that check never fails; it is what makes the recursion well founded.
// ---------------------------------------------------------------------------
/// `expression := term (('+' | '-') term)*`
pub open spec fn sum_of(c: Ctx, pos: int, at: int) -> Eval<i32>
    decreases c.end - pos, 4int,
{
    match product_of(c, pos, at) {
        Err(e) => Err(e),
        Ok((v, p, a)) => if p <= pos || p > c.end {
            Err(Fault::UnexpectedToken)
        } else {
            sum_rest(c, p, a, v)
        },
    }
}

/// The `(('+' | '-') term)*` part of an expression, with `acc` so far.
pub open spec fn sum_rest(c: Ctx, pos: int, at: int, acc: i32) -> Eval<i32>
    decreases c.end - pos, 2int,
{
    match tok_at(c, pos) {
        Some(Lexeme::Plus) => match product_of(c, pos + 1, at) {
            Err(e) => Err(e),
            Ok((v, p, a)) => if p <= pos || p > c.end {
                Err(Fault::UnexpectedToken)
            } else {
                match acc.checked_add(v) {
                    Some(s) => sum_rest(c, p, a, s),
                    None => Err(Fault::Overflow),
                }
            },
        },
        Some(Lexeme::Minus) => match product_of(c, pos + 1, at) {
            Err(e) => Err(e),
            Ok((v, p, a)) => if p <= pos || p > c.end {
                Err(Fault::UnexpectedToken)
            } else {
                match acc.checked_sub(v) {
                    Some(s) => sum_rest(c, p, a, s),
                    None => Err(Fault::Overflow),
                }
            },
        },
        _ => Ok((acc, pos, at)),
    }
}

/// `term := factor (('*' | '/') factor)*`
pub open spec fn product_of(c: Ctx, pos: int, at: int) -> Eval<i32>
    decreases c.end - pos, 3int,
{
    match factor_of(c, pos, at) {
        Err(e) => Err(e),
        Ok((v, p, a)) => if p <= pos || p > c.end {
            Err(Fault::UnexpectedToken)
        } else {
            product_rest(c, p, a, v)
        },
    }
}

/// The `(('*' | '/') factor)*` part of a term, with `acc` so far. Division
/// truncates toward zero.
pub open spec fn product_rest(c: Ctx, pos: int, at: int, acc: i32) -> Eval<i32>
    decreases c.end - pos, 0int,
{
    match tok_at(c, pos) {
        Some(Lexeme::Asterisk) => match factor_of(c, pos + 1, at) {
            Err(e) => Err(e),
            Ok((v, p, a)) => if p <= pos || p > c.end {
                Err(Fault::UnexpectedToken)
            } else {
                match acc.checked_mul(v) {
                    Some(s) => product_rest(c, p, a, s),
                    None => Err(Fault::Overflow),
                }
            },
        },
        Some(Lexeme::Slash) => match factor_of(c, pos + 1, at) {
            Err(e) => Err(e),
            Ok((v, p, a)) => if p <= pos || p > c.end {
                Err(Fault::UnexpectedToken)
            } else if v == 0 {
                Err(Fault::DivisionByZero)
            } else {
                match acc.checked_div(v) {
                    Some(s) => product_rest(c, p, a, s),
                    None => Err(Fault::Overflow),
                }
            },
        },
        _ => Ok((acc, pos, at)),
    }
}

/// `factor := number | name | 'input_' | '(' expression ')'`. A name bound to
/// a string or a boolean counts as zero.
pub open spec fn factor_of(c: Ctx, pos: int, at: int) -> Eval<i32>
    decreases c.end - pos, 1int,
{
    match tok_at(c, pos) {
        None => Err(Fault::UnexpectedEnd),
        Some(Lexeme::Number(n)) => Ok((n, pos + 1, at)),
        Some(Lexeme::Identifier(x)) => match resolve(c.env, x) {
            Err(e) => Err(e),
            Ok(Variable::Int(z)) => Ok((z, pos + 1, at)),
            Ok(_) => Ok((0, pos + 1, at)),
        },
        Some(Lexeme::Keyword(Keyword::Input)) => if awaiting(c, at) {
            Err(Fault::AwaitingInput)
        } else {
            match int_of_line(line_at(c.lines, at)) {
                Some(v) => Ok((v, pos + 1, next_at(c.lines, at))),
                None => Err(Fault::InvalidInput),
            }
        },
        Some(Lexeme::OpenParen) => match sum_of(c, pos + 1, at) {
            Err(e) => Err(e),
            Ok((v, p, a)) => if tok_at(c, p) == Some(Lexeme::<Seq<char>>::CloseParen) {
                Ok((v, p + 1, a))
            } else {
                Err(Fault::MissingCloseParen)
            },
        },
        Some(_) => Err(Fault::UnexpectedToken),
    }
}

// ---------------------------------------------------------------------------
// Booleans
// ---------------------------------------------------------------------------
/// `or := and ('||' and)*`
pub open spec fn disjunction_of(c: Ctx, pos: int, at: int) -> Eval<bool>
    decreases c.end - pos, 4int,
{
    match conjunction_of(c, pos, at) {
        Err(e) => Err(e),
        Ok((v, p, a)) => if p <= pos || p > c.end {
            Err(Fault::UnexpectedToken)
        } else {
            or_rest(c, p, a, v)
        },
    }
}

pub open spec fn or_rest(c: Ctx, pos: int, at: int, acc: bool) -> Eval<bool>
    decreases c.end - pos, 2int,
{
    match tok_at(c, pos) {
        Some(Lexeme::Or) => match conjunction_of(c, pos + 1, at) {
            Err(e) => Err(e),
            Ok((v, p, a)) => if p <= pos || p > c.end {
                Err(Fault::UnexpectedToken)
            } else {
                or_rest(c, p, a, acc || v)
            },
        },
        _ => Ok((acc, pos, at)),
    }
}

/// `and := comparison ('&&' comparison)*`
pub open spec fn conjunction_of(c: Ctx, pos: int, at: int) -> Eval<bool>
    decreases c.end - pos, 3int,
{
    match comparison_of(c, pos, at) {
        Err(e) => Err(e),
        Ok((v, p, a)) => if p <= pos || p > c.end {
            Err(Fault::UnexpectedToken)
        } else {
            and_rest(c, p, a, v)
        },
    }
}

pub open spec fn and_rest(c: Ctx, pos: int, at: int, acc: bool) -> Eval<bool>
    decreases c.end - pos, 0int,
{
    match tok_at(c, pos) {
        Some(Lexeme::And) => match comparison_of(c, pos + 1, at) {
            Err(e) => Err(e),
            Ok((v, p, a)) => if p <= pos || p > c.end {
                Err(Fault::UnexpectedToken)
            } else {
                and_rest(c, p, a, acc && v)
            },
        },
        _ => Ok((acc, pos, at)),
    }
}

/// A comparison of two integer expressions when the next token is a number
/// or a name bound in the integer namespace; a boolean atom otherwise.
pub open spec fn comparison_of(c: Ctx, pos: int, at: int) -> Eval<bool>
    decreases c.end - pos, 1int,
{
    match tok_at(c, pos) {
        Some(Lexeme::Number(_)) => int_comparison_of(c, pos, at),
        Some(Lexeme::Identifier(x)) => if c.env.ints.contains_key(x) {
            int_comparison_of(c, pos, at)
        } else {
            bool_atom_of(c, pos, at)
        },
        _ => bool_atom_of(c, pos, at),
    }
}

/// `atom := 'true' | 'false' | '(' or ')' | name`
pub open spec fn bool_atom_of(c: Ctx, pos: int, at: int) -> Eval<bool>
    decreases c.end - pos, 0int,
{
    match tok_at(c, pos) {
        None => Err(Fault::UnexpectedEnd),
        Some(Lexeme::False) => Ok((false, pos + 1, at)),
        Some(Lexeme::True) => Ok((true, pos + 1, at)),
        Some(Lexeme::OpenParen) => match disjunction_of(c, pos + 1, at) {
            Err(e) => Err(e),
            Ok((v, p, a)) => if tok_at(c, p) == Some(Lexeme::<Seq<char>>::CloseParen) {
                Ok((v, p + 1, a))
            } else {
                Err(Fault::MissingCloseParen)
            },
        },
        Some(Lexeme::Identifier(x)) => if c.env.bools.contains_key(x) {
            Ok((c.env.bools[x], pos + 1, at))
        } else {
            Err(Fault::UnknownIdentifier)
        },
        Some(_) => Err(Fault::UnexpectedToken),
    }
}

/// The truth of `a op b` for a comparison token.
pub open spec fn compare(op: Tok, a: i32, b: i32) -> Option<bool> {
    match op {
        Lexeme::LessThan => Some(a < b),
        Lexeme::GreaterThan => Some(a > b),
        Lexeme::EqualTo => Some(a == b),
        Lexeme::LessThanEqual => Some(a <= b),
        Lexeme::GreaterThanEqual => Some(a >= b),
        _ => None,
    }
}

/// `expression op expression`, with `op` one of `< > <= >= ==`.
pub open spec fn int_comparison_of(c: Ctx, pos: int, at: int) -> Eval<bool> {
    match sum_of(c, pos, at) {
        Err(e) => Err(e),
        Ok((x, p, a)) => match tok_at(c, p) {
            None => Err(Fault::UnexpectedEnd),
            Some(op) => match sum_of(c, p + 1, a) {
                Err(e) => Err(e),
                Ok((y, q, b)) => match compare(op, x, y) {
                    Some(v) => Ok((v, q, b)),
                    None => Err(Fault::UnexpectedToken),
                },
            },
        },
    }
}

// ---------------------------------------------------------------------------
// Strings and printing
// ---------------------------------------------------------------------------
/// Concatenates string literals, string variables and input lines, skipping
/// `+`, until a token of another kind; `acc` is the text so far.
pub open spec fn concat_of(c: Ctx, pos: int, at: int, acc: Seq<char>) -> Eval<Seq<char>>
    decreases c.end - pos,
{
    match tok_at(c, pos) {
        Some(Lexeme::Text(s)) => concat_of(c, pos + 1, at, acc + s),
        Some(Lexeme::Plus) => concat_of(c, pos + 1, at, acc),
        Some(Lexeme::Keyword(Keyword::Input)) => if awaiting(c, at) {
            Err(Fault::AwaitingInput)
        } else {
            concat_of(c, pos + 1, next_at(c.lines, at), acc + line_at(c.lines, at))
        },
        Some(Lexeme::Identifier(x)) => match resolve(c.env, x) {
            Ok(Variable::Str(s)) => concat_of(c, pos + 1, at, acc + s),
            Ok(_) => Err(Fault::TypeMismatch),
            Err(e) => Err(e),
        },
        _ => Ok((acc, pos, at)),
    }
}

/// The text of a variable's value.
pub open spec fn var_text(v: Variable<Seq<char>>) -> Seq<char> {
    match v {
        Variable::Str(s) => s,
        Variable::Int(n) => int_text(n as int),
        Variable::Bool(b) => bool_text(b),
    }
}

/// The operands of a print statement from `pos` up to and including the
/// closing `)`, with `acc` the text so far.
pub open spec fn print_rest(c: Ctx, pos: int, at: int, acc: Seq<char>) -> Eval<Seq<char>>
    decreases c.end - pos,
{
    match tok_at(c, pos) {
        None => Ok((acc, pos, at)),
        Some(Lexeme::Keyword(Keyword::Input)) => if awaiting(c, at) {
            Err(Fault::AwaitingInput)
        } else {
            print_rest(c, pos + 1, next_at(c.lines, at), acc + line_at(c.lines, at))
        },
        Some(Lexeme::Number(n)) => print_rest(c, pos + 1, at, acc + int_text(n as int)),
        Some(Lexeme::Text(s)) => print_rest(c, pos + 1, at, acc + s),
        Some(Lexeme::True) => print_rest(c, pos + 1, at, acc + bool_text(true)),
        Some(Lexeme::False) => print_rest(c, pos + 1, at, acc + bool_text(false)),
        Some(Lexeme::Identifier(x)) => match resolve(c.env, x) {
            Ok(v) => print_rest(c, pos + 1, at, acc + var_text(v)),
            Err(e) => Err(e),
        },
        Some(Lexeme::Plus) => print_rest(c, pos + 1, at, acc),
        Some(Lexeme::CloseParen) => Ok((acc, pos + 1, at)),
        Some(_) => Err(Fault::UnexpectedToken),
    }
}

/// The text that a print statement's operands give, starting at its `(`.
pub open spec fn print_text(c: Ctx, pos: int, at: int) -> Eval<Seq<char>> {
    print_rest(c, advance(c, pos), at, seq![])
}

// ---------------------------------------------------------------------------
// Evaluators
// ---------------------------------------------------------------------------
/// The input source is positioned within its lines.
pub open spec fn input_ok(i: Lines) -> bool {
    0 <= i.at() <= i.all().len()
}

/// `after` holds the same lines as `before`, and is positioned within them.
pub open spec fn kept(before: Lines, after: Lines) -> bool {
    after.all() == before.all() && after.more() == before.more() && input_ok(after)
}

/// An executable outcome in the shape of `Eval`, with `at` the next line.
pub open spec fn out_of<T>(r: Result<(T, usize), Fault>, at: int) -> Eval<T> {
    match r {
        Ok((v, p)) => Ok((v, p as int, at)),
        Err(e) => Err(e),
    }
}

/// An executable text outcome in the shape of `Eval`.
pub open spec fn text_out_of(r: Result<(Vec<char>, usize), Fault>, at: int) -> Eval<Seq<char>> {
    match r {
        Ok((v, p)) => Ok((v@, p as int, at)),
        Err(e) => Err(e),
    }
}

proof fn lemma_tok_at(
    ts: &Vec<Token>,
    end: usize,
    env: &Env,
    lines: Seq<Seq<char>>,
    open: bool,
    p: usize,
)
    requires
        p < end <= ts@.len(),
    ensures
        tok_at(ctx(ts, end, env, lines, open), p as int) == Some(ts@[p as int]@),
{
}

/// Evaluates an integer expression at `pos`: `+` and `-` over terms, left
/// to right.
pub fn expression(ts: &Vec<Token>, end: usize, env: &Env, input: &mut Lines, pos: usize) -> (r:
    Result<(i32, usize), Fault>)
    requires
        end <= ts@.len(),
        pos <= end,
        input_ok(*old(input)),
    ensures
        kept(*old(input), *final(input)),
        out_of(r, final(input).at()) == sum_of(
            ctx(ts, end, env, old(input).all(), old(input).more()),
            pos as int,
            old(input).at(),
        ),
        r is Ok ==> pos < r->Ok_0.1 <= end,
    decreases end - pos, 4int,
{
    let ghost c = ctx(ts, end, env, old(input).all(), old(input).more());
    let (first, mut p) = match term(ts, end, env, input, pos) {
        Ok(x) => x,
        Err(e) => return Err(e),
    };
    let mut acc = first;
    loop
        invariant
            pos < p <= end,
            end <= ts@.len(),
            kept(*old(input), *input),
            c == ctx(ts, end, env, old(input).all(), old(input).more()),
            sum_rest(c, p as int, input.at(), acc) == sum_of(c, pos as int, old(input).at()),
        decreases end - p,
    {
        if p >= end {
            return Ok((acc, p));
        }
        proof {
            lemma_tok_at(ts, end, env, old(input).all(), old(input).more(), p);
        }
        match &ts[p] {
            Lexeme::Plus => {
                let (v, q) = match term(ts, end, env, input, p + 1) {
                    Ok(x) => x,
                    Err(e) => return Err(e),
                };
                match acc.checked_add(v) {
                    Some(s) => {
                        acc = s;
                    },
                    None => return Err(Fault::Overflow),
                }
                p = q;
            },
            Lexeme::Minus => {
                let (v, q) = match term(ts, end, env, input, p + 1) {
                    Ok(x) => x,
                    Err(e) => return Err(e),
                };
                match acc.checked_sub(v) {
                    Some(s) => {
                        acc = s;
                    },
                    None => return Err(Fault::Overflow),
                }
                p = q;
            },
            _ => {
                return Ok((acc, p));
            },
        }
    }
}

/// Evaluates a term at `pos`: `*` and `/` over factors, left to right.
pub fn term(ts: &Vec<Token>, end: usize, env: &Env, input: &mut Lines, pos: usize) -> (r: Result<
    (i32, usize),
    Fault,
>)
    requires
        end <= ts@.len(),
        pos <= end,
        input_ok(*old(input)),
    ensures
        kept(*old(input), *final(input)),
        out_of(r, final(input).at()) == product_of(
            ctx(ts, end, env, old(input).all(), old(input).more()),
            pos as int,
            old(input).at(),
        ),
        r is Ok ==> pos < r->Ok_0.1 <= end,
    decreases end - pos, 3int,
{
    let ghost c = ctx(ts, end, env, old(input).all(), old(input).more());
    let (first, mut p) = match factor(ts, end, env, input, pos) {
        Ok(x) => x,
        Err(e) => return Err(e),
    };
    let mut acc = first;
    loop
        invariant
            pos < p <= end,
            end <= ts@.len(),
            kept(*old(input), *input),
            c == ctx(ts, end, env, old(input).all(), old(input).more()),
            product_rest(c, p as int, input.at(), acc) == product_of(
                c,
                pos as int,
                old(input).at(),
            ),
        decreases end - p,
    {
        if p >= end {
            return Ok((acc, p));
        }
        proof {
            lemma_tok_at(ts, end, env, old(input).all(), old(input).more(), p);
        }
        match &ts[p] {
            Lexeme::Asterisk => {
                let (v, q) = match factor(ts, end, env, input, p + 1) {
                    Ok(x) => x,
                    Err(e) => return Err(e),
                };
                match acc.checked_mul(v) {
                    Some(s) => {
                        acc = s;
                    },
                    None => return Err(Fault::Overflow),
                }
                p = q;
            },
            Lexeme::Slash => {
                let (v, q) = match factor(ts, end, env, input, p + 1) {
                    Ok(x) => x,
                    Err(e) => return Err(e),
                };
                if v == 0 {
                    return Err(Fault::DivisionByZero);
                }
                match acc.checked_div(v) {
                    Some(s) => {
                        acc = s;
                    },
                    None => return Err(Fault::Overflow),
                }
                p = q;
            },
            _ => {
                return Ok((acc, p));
            },
        }
    }
}

/// Evaluates a factor at `pos`: a number, a name, an input line, or a
/// parenthesised expression.
pub fn factor(ts: &Vec<Token>, end: usize, env: &Env, input: &mut Lines, pos: usize) -> (r: Result<
    (i32, usize),
    Fault,
>)
    requires
        end <= ts@.len(),
        pos <= end,
        input_ok(*old(input)),
    ensures
        kept(*old(input), *final(input)),
        out_of(r, final(input).at()) == factor_of(
            ctx(ts, end, env, old(input).all(), old(input).more()),
            pos as int,
            old(input).at(),
        ),
        r is Ok ==> pos < r->Ok_0.1 <= end,
    decreases end - pos, 1int,
{
    if pos >= end {
        return Err(Fault::UnexpectedEnd);
    }
    proof {
        lemma_tok_at(ts, end, env, old(input).all(), old(input).more(), pos);
    }
    match &ts[pos] {
        Lexeme::Number(n) => Ok((*n, pos + 1)),
        Lexeme::Identifier(x) => match env.get_var(x) {
            Ok(Variable::Int(z)) => Ok((z, pos + 1)),
            Ok(_) => Ok((0, pos + 1)),
            Err(e) => Err(e),
        },
        Lexeme::Keyword(Keyword::Input) => {
            if input.awaiting() {
                return Err(Fault::AwaitingInput);
            }
            let line = input.read_line();
            match parse_int(&line) {
                Some(v) => Ok((v, pos + 1)),
                None => Err(Fault::InvalidInput),
            }
        },
        Lexeme::OpenParen => {
            let (v, p) = match expression(ts, end, env, input, pos + 1) {
                Ok(x) => x,
                Err(e) => return Err(e),
            };
            if p < end && matches!(ts[p], Lexeme::CloseParen) {
                proof {
                    lemma_tok_at(ts, end, env, old(input).all(), old(input).more(), p);
                }
                Ok((v, p + 1))
            } else {
                proof {
                    if p < end {
                        lemma_tok_at(ts, end, env, old(input).all(), old(input).more(), p);
                    }
                }
                Err(Fault::MissingCloseParen)
            }
        },
        _ => Err(Fault::UnexpectedToken),
    }
}

/// Evaluates a boolean expression at `pos`.
pub fn boolean_expr(ts: &Vec<Token>, end: usize, env: &Env, input: &mut Lines, pos: usize) -> (r:
    Result<(bool, usize), Fault>)
    requires
        end <= ts@.len(),
        pos <= end,
        input_ok(*old(input)),
    ensures
        kept(*old(input), *final(input)),
        out_of(r, final(input).at()) == disjunction_of(
            ctx(ts, end, env, old(input).all(), old(input).more()),
            pos as int,
            old(input).at(),
        ),
        r is Ok ==> pos < r->Ok_0.1 <= end,
{
    boolean_or(ts, end, env, input, pos)
}

/// Evaluates `and ('||' and)*` at `pos`. Every operand is evaluated, whatever
/// the ones before it gave.
pub fn boolean_or(ts: &Vec<Token>, end: usize, env: &Env, input: &mut Lines, pos: usize) -> (r:
    Result<(bool, usize), Fault>)
    requires
        end <= ts@.len(),
        pos <= end,
        input_ok(*old(input)),
    ensures
        kept(*old(input), *final(input)),
        out_of(r, final(input).at()) == disjunction_of(
            ctx(ts, end, env, old(input).all(), old(input).more()),
            pos as int,
            old(input).at(),
        ),
        r is Ok ==> pos < r->Ok_0.1 <= end,
    decreases end - pos, 4int,
{
    let ghost c = ctx(ts, end, env, old(input).all(), old(input).more());
    let (first, mut p) = match boolean_and(ts, end, env, input, pos) {
        Ok(x) => x,
        Err(e) => return Err(e),
    };
    let mut acc = first;
    loop
        invariant
            pos < p <= end,
            end <= ts@.len(),
            kept(*old(input), *input),
            c == ctx(ts, end, env, old(input).all(), old(input).more()),
            or_rest(c, p as int, input.at(), acc) == disjunction_of(c, pos as int, old(input).at()),
        decreases end - p,
    {
        if p >= end {
            return Ok((acc, p));
        }
        proof {
            lemma_tok_at(ts, end, env, old(input).all(), old(input).more(), p);
        }
        match &ts[p] {
            Lexeme::Or => {
                let (v, q) = match boolean_and(ts, end, env, input, p + 1) {
                    Ok(x) => x,
                    Err(e) => return Err(e),
                };
                acc = acc || v;
                p = q;
            },
            _ => {
                return Ok((acc, p));
            },
        }
    }
}

/// Evaluates `comparison ('&&' comparison)*` at `pos`. Every operand is
/// evaluated, whatever the ones before it gave.
pub fn boolean_and(ts: &Vec<Token>, end: usize, env: &Env, input: &mut Lines, pos: usize) -> (r:
    Result<(bool, usize), Fault>)
    requires
        end <= ts@.len(),
        pos <= end,
        input_ok(*old(input)),
    ensures
        kept(*old(input), *final(input)),
        out_of(r, final(input).at()) == conjunction_of(
            ctx(ts, end, env, old(input).all(), old(input).more()),
            pos as int,
            old(input).at(),
        ),
        r is Ok ==> pos < r->Ok_0.1 <= end,
    decreases end - pos, 3int,
{
    let ghost c = ctx(ts, end, env, old(input).all(), old(input).more());
    let (first, mut p) = match bool_comp(ts, end, env, input, pos) {
        Ok(x) => x,
        Err(e) => return Err(e),
    };
    let mut acc = first;
    loop
        invariant
            pos < p <= end,
            end <= ts@.len(),
            kept(*old(input), *input),
            c == ctx(ts, end, env, old(input).all(), old(input).more()),
            and_rest(c, p as int, input.at(), acc) == conjunction_of(
                c,
                pos as int,
                old(input).at(),
            ),
        decreases end - p,
    {
        if p >= end {
            return Ok((acc, p));
        }
        proof {
            lemma_tok_at(ts, end, env, old(input).all(), old(input).more(), p);
        }
        match &ts[p] {
            Lexeme::And => {
                let (v, q) = match bool_comp(ts, end, env, input, p + 1) {
                    Ok(x) => x,
                    Err(e) => return Err(e),
                };
                acc = acc && v;
                p = q;
            },
            _ => {
                return Ok((acc, p));
            },
        }
    }
}

/// Evaluates a comparison or a boolean atom at `pos`, chosen by the next token.
pub fn bool_comp(ts: &Vec<Token>, end: usize, env: &Env, input: &mut Lines, pos: usize) -> (r:
    Result<(bool, usize), Fault>)
    requires
        end <= ts@.len(),
        pos <= end,
        input_ok(*old(input)),
    ensures
        kept(*old(input), *final(input)),
        out_of(r, final(input).at()) == comparison_of(
            ctx(ts, end, env, old(input).all(), old(input).more()),
            pos as int,
            old(input).at(),
        ),
        r is Ok ==> pos < r->Ok_0.1 <= end,
    decreases end - pos, 1int,
{
    if pos >= end {
        return bool_factor(ts, end, env, input, pos);
    }
    proof {
        lemma_tok_at(ts, end, env, old(input).all(), old(input).more(), pos);
    }
    match &ts[pos] {
        Lexeme::Number(_) => int_comp(ts, end, env, input, pos),
        Lexeme::Identifier(x) => {
            if env.ints.contains(x) {
                int_comp(ts, end, env, input, pos)
            } else {
                bool_factor(ts, end, env, input, pos)
            }
        },
        _ => bool_factor(ts, end, env, input, pos),
    }
}

/// Evaluates a boolean atom at `pos`: `true`, `false`, a parenthesised
/// boolean expression, or a name bound in the boolean namespace.
pub fn bool_factor(ts: &Vec<Token>, end: usize, env: &Env, input: &mut Lines, pos: usize) -> (r:
    Result<(bool, usize), Fault>)
    requires
        end <= ts@.len(),
        pos <= end,
        input_ok(*old(input)),
    ensures
        kept(*old(input), *final(input)),
        out_of(r, final(input).at()) == bool_atom_of(
            ctx(ts, end, env, old(input).all(), old(input).more()),
            pos as int,
            old(input).at(),
        ),
        r is Ok ==> pos < r->Ok_0.1 <= end,
    decreases end - pos, 0int,
{
    if pos >= end {
        return Err(Fault::UnexpectedEnd);
    }
    proof {
        lemma_tok_at(ts, end, env, old(input).all(), old(input).more(), pos);
    }
    match &ts[pos] {
        Lexeme::False => Ok((false, pos + 1)),
        Lexeme::True => Ok((true, pos + 1)),
        Lexeme::OpenParen => {
            let (v, p) = match boolean_or(ts, end, env, input, pos + 1) {
                Ok(x) => x,
                Err(e) => return Err(e),
            };
            if p < end && matches!(ts[p], Lexeme::CloseParen) {
                proof {
                    lemma_tok_at(ts, end, env, old(input).all(), old(input).more(), p);
                }
                Ok((v, p + 1))
            } else {
                proof {
                    if p < end {
                        lemma_tok_at(ts, end, env, old(input).all(), old(input).more(), p);
                    }
                }
                Err(Fault::MissingCloseParen)
            }
        },
        Lexeme::Identifier(x) => match env.bools.get(x) {
            Some(b) => Ok((*b, pos + 1)),
            None => Err(Fault::UnknownIdentifier),
        },
        _ => Err(Fault::UnexpectedToken),
    }
}

/// The comparison that a token stands for, applied to `a` and `b`.
fn apply_comparison(op: &Token, a: i32, b: i32) -> (r: Option<bool>)
    ensures
        r == compare(op@, a, b),
{
    match op {
        Lexeme::LessThan => Some(a < b),
        Lexeme::GreaterThan => Some(a > b),
        Lexeme::EqualTo => Some(a == b),
        Lexeme::LessThanEqual => Some(a <= b),
        Lexeme::GreaterThanEqual => Some(a >= b),
        _ => None,
    }
}

/// Evaluates `expression op expression` at `pos`.
pub fn int_comp(ts: &Vec<Token>, end: usize, env: &Env, input: &mut Lines, pos: usize) -> (r:
    Result<(bool, usize), Fault>)
    requires
        end <= ts@.len(),
        pos <= end,
        input_ok(*old(input)),
    ensures
        kept(*old(input), *final(input)),
        out_of(r, final(input).at()) == int_comparison_of(
            ctx(ts, end, env, old(input).all(), old(input).more()),
            pos as int,
            old(input).at(),
        ),
        r is Ok ==> pos < r->Ok_0.1 <= end,
{
    let (a, p) = match expression(ts, end, env, input, pos) {
        Ok(x) => x,
        Err(e) => return Err(e),
    };
    if p >= end {
        return Err(Fault::UnexpectedEnd);
    }
    proof {
        lemma_tok_at(ts, end, env, old(input).all(), old(input).more(), p);
    }
    let (b, q) = match expression(ts, end, env, input, p + 1) {
        Ok(x) => x,
        Err(e) => return Err(e),
    };
    match apply_comparison(&ts[p], a, b) {
        Some(v) => Ok((v, q)),
        None => Err(Fault::UnexpectedToken),
    }
}

/// Concatenates the string operands at `pos`: string literals, string
/// variables and input lines, with `+` between them. Stops at the first token
/// of another kind.
pub fn concatination(ts: &Vec<Token>, end: usize, env: &Env, input: &mut Lines, pos: usize) -> (r:
    Result<(Vec<char>, usize), Fault>)
    requires
        end <= ts@.len(),
        pos <= end,
        input_ok(*old(input)),
    ensures
        kept(*old(input), *final(input)),
        text_out_of(r, final(input).at()) == concat_of(
            ctx(ts, end, env, old(input).all(), old(input).more()),
            pos as int,
            old(input).at(),
            seq![],
        ),
        r is Ok ==> pos <= r->Ok_0.1 <= end,
{
    let ghost c = ctx(ts, end, env, old(input).all(), old(input).more());
    let mut acc: Vec<char> = Vec::new();
    let mut p = pos;
    loop
        invariant
            pos <= p <= end,
            end <= ts@.len(),
            kept(*old(input), *input),
            c == ctx(ts, end, env, old(input).all(), old(input).more()),
            concat_of(c, p as int, input.at(), acc@) == concat_of(
                c,
                pos as int,
                old(input).at(),
                seq![],
            ),
        decreases end - p,
    {
        if p >= end {
            return Ok((acc, p));
        }
        proof {
            lemma_tok_at(ts, end, env, old(input).all(), old(input).more(), p);
        }
        match &ts[p] {
            Lexeme::Text(s) => {
                append_text(&mut acc, s);
            },
            Lexeme::Plus => {},
            Lexeme::Keyword(Keyword::Input) => {
                if input.awaiting() {
                    return Err(Fault::AwaitingInput);
                }
                let line = input.read_line();
                append_text(&mut acc, &line);
            },
            Lexeme::Identifier(x) => match env.get_var(x) {
                Ok(Variable::Str(s)) => {
                    append_text(&mut acc, &s);
                },
                Ok(_) => {
                    return Err(Fault::TypeMismatch);
                },
                Err(e) => {
                    return Err(e);
                },
            },
            _ => {
                return Ok((acc, p));
            },
        }
        p = p + 1;
    }
}

/// The text of a print statement's operands, starting at its `(` and
/// consuming up to and including the closing `)`.
pub fn to_print(ts: &Vec<Token>, end: usize, env: &Env, input: &mut Lines, pos: usize) -> (r:
    Result<(Vec<char>, usize), Fault>)
    requires
        end <= ts@.len(),
        pos <= end,
        input_ok(*old(input)),
    ensures
        kept(*old(input), *final(input)),
        text_out_of(r, final(input).at()) == print_text(
            ctx(ts, end, env, old(input).all(), old(input).more()),
            pos as int,
            old(input).at(),
        ),
        r is Ok ==> pos <= r->Ok_0.1 <= end,
{
    let ghost c = ctx(ts, end, env, old(input).all(), old(input).more());
    let mut acc: Vec<char> = Vec::new();
    let mut p = if pos < end {
        pos + 1
    } else {
        pos
    };
    loop
        invariant
            pos <= p <= end,
            end <= ts@.len(),
            kept(*old(input), *input),
            c == ctx(ts, end, env, old(input).all(), old(input).more()),
            print_rest(c, p as int, input.at(), acc@) == print_text(
                c,
                pos as int,
                old(input).at(),
            ),
        decreases end - p,
    {
        if p >= end {
            return Ok((acc, p));
        }
        proof {
            lemma_tok_at(ts, end, env, old(input).all(), old(input).more(), p);
        }
        match &ts[p] {
            Lexeme::Keyword(Keyword::Input) => {
                if input.awaiting() {
                    return Err(Fault::AwaitingInput);
                }
                let line = input.read_line();
                append_text(&mut acc, &line);
            },
            Lexeme::Number(n) => {
                push_int(&mut acc, *n);
            },
            Lexeme::Text(s) => {
                append_text(&mut acc, s);
            },
            Lexeme::True => {
                push_bool(&mut acc, true);
            },
            Lexeme::False => {
                push_bool(&mut acc, false);
            },
            Lexeme::Identifier(x) => match env.get_var(x) {
                Ok(Variable::Str(s)) => {
                    append_text(&mut acc, &s);
                },
                Ok(Variable::Int(n)) => {
                    push_int(&mut acc, n);
                },
                Ok(Variable::Bool(b)) => {
                    push_bool(&mut acc, b);
                },
                Err(e) => {
                    return Err(e);
                },
            },
            Lexeme::Plus => {},
            Lexeme::CloseParen => {
                return Ok((acc, p + 1));
            },
            _ => {
                return Err(Fault::UnexpectedToken);
            },
        }
        p = p + 1;
    }
}

} // verus!
