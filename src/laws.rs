use vstd::prelude::*;
use crate::env::Fault;
use crate::eval::{
    and_rest, bool_atom_of, comparison_of, compare, conjunction_of, disjunction_of, factor_of,
    int_comparison_of, or_rest, product_of, product_rest, sum_of, sum_rest, tok_at, Ctx, Eval,
};
use crate::interp::{loop_test, model_ok, ParserModel};
use crate::lexer::lex_tokens;
use crate::token::{toks, Lexeme, Tok, Token};

verus! {

/// An arithmetic expression of literals and parentheses, as the standard
/// grammar derives it: sums of terms and terms of factors, both grouping to
/// the left.
pub enum SumExpr {
    Term(Box<TermExpr>),
    Add(Box<SumExpr>, Box<TermExpr>),
    Sub(Box<SumExpr>, Box<TermExpr>),
}

pub enum TermExpr {
    Factor(Box<FactorExpr>),
    Mul(Box<TermExpr>, Box<FactorExpr>),
    Div(Box<TermExpr>, Box<FactorExpr>),
}

pub enum FactorExpr {
    Lit(i32),
    Group(Box<SumExpr>),
}

/// The tokens that spell a sum.
pub open spec fn sum_tokens(s: SumExpr) -> Seq<Tok>
    decreases s,
{
    match s {
        SumExpr::Term(t) => term_tokens(*t),
        SumExpr::Add(a, t) => sum_tokens(*a) + seq![Lexeme::Plus] + term_tokens(*t),
        SumExpr::Sub(a, t) => sum_tokens(*a) + seq![Lexeme::Minus] + term_tokens(*t),
    }
}

pub open spec fn term_tokens(t: TermExpr) -> Seq<Tok>
    decreases t,
{
    match t {
        TermExpr::Factor(f) => factor_tokens(*f),
        TermExpr::Mul(a, f) => term_tokens(*a) + seq![Lexeme::Asterisk] + factor_tokens(*f),
        TermExpr::Div(a, f) => term_tokens(*a) + seq![Lexeme::Slash] + factor_tokens(*f),
    }
}

pub open spec fn factor_tokens(f: FactorExpr) -> Seq<Tok>
    decreases f,
{
    match f {
        FactorExpr::Lit(n) => seq![Lexeme::Number(n)],
        FactorExpr::Group(s) => seq![Lexeme::OpenParen] + sum_tokens(*s) + seq![
            Lexeme::CloseParen,
        ],
    }
}

/// The value of a sum in 32-bit integer arithmetic, with division truncating
/// toward zero; `None` when a division by zero occurs or a result does not
/// fit.
pub open spec fn sum_value(s: SumExpr) -> Option<i32>
    decreases s,
{
    match s {
        SumExpr::Term(t) => term_value(*t),
        SumExpr::Add(a, t) => match (sum_value(*a), term_value(*t)) {
            (Some(x), Some(y)) => x.checked_add(y),
            _ => None,
        },
        SumExpr::Sub(a, t) => match (sum_value(*a), term_value(*t)) {
            (Some(x), Some(y)) => x.checked_sub(y),
            _ => None,
        },
    }
}

pub open spec fn term_value(t: TermExpr) -> Option<i32>
    decreases t,
{
    match t {
        TermExpr::Factor(f) => factor_value(*f),
        TermExpr::Mul(a, f) => match (term_value(*a), factor_value(*f)) {
            (Some(x), Some(y)) => x.checked_mul(y),
            _ => None,
        },
        TermExpr::Div(a, f) => match (term_value(*a), factor_value(*f)) {
            (Some(x), Some(y)) => if y == 0 {
                None
            } else {
                x.checked_div(y)
            },
            _ => None,
        },
    }
}

pub open spec fn factor_value(f: FactorExpr) -> Option<i32>
    decreases f,
{
    match f {
        FactorExpr::Lit(n) => Some(n),
        FactorExpr::Group(s) => sum_value(*s),
    }
}

/// `r` stands in `c`'s range at `pos`.
pub open spec fn spelled_at(c: Ctx, pos: int, r: Seq<Tok>) -> bool {
    &&& 0 <= pos
    &&& pos + r.len() <= c.end <= c.ts.len()
    &&& c.ts.subrange(pos, pos + r.len()) == r
}

proof fn lemma_split3(c: Ctx, pos: int, x: Seq<Tok>, t: Tok, y: Seq<Tok>)
    requires
        spelled_at(c, pos, x + seq![t] + y),
    ensures
        spelled_at(c, pos, x),
        c.ts[pos + x.len()] == t,
        spelled_at(c, pos + x.len() + 1, y),
{
    let r = x + seq![t] + y;
    assert(c.ts.subrange(pos, pos + x.len()) =~= r.subrange(0, x.len() as int));
    assert(r.subrange(0, x.len() as int) =~= x);
    assert(c.ts[pos + x.len()] == r[x.len() as int]);
    assert(c.ts.subrange(pos + x.len() + 1, pos + r.len()) =~= r.subrange(
        x.len() + 1int,
        r.len() as int,
    ));
    assert(r.subrange(x.len() + 1int, r.len() as int) =~= y);
}

/// Whether a token may follow a term without continuing it.
pub open spec fn ends_term(c: Ctx, p: int) -> bool {
    tok_at(c, p) != Some(Lexeme::<Seq<char>>::Asterisk) && tok_at(c, p) != Some(
        Lexeme::<Seq<char>>::Slash,
    )
}

proof fn lemma_term_nonempty(t: TermExpr)
    ensures
        term_tokens(t).len() >= 1,
{
    match t {
        TermExpr::Factor(f) => {
            assert(factor_tokens(*f).len() >= 1);
        },
        _ => {},
    }
}

proof fn lemma_sum(c: Ctx, s: SumExpr, pos: int, at: int)
    requires
        spelled_at(c, pos, sum_tokens(s)),
        ends_term(c, pos + sum_tokens(s).len()),
    ensures
        match sum_value(s) {
            Some(v) => sum_of(c, pos, at) == sum_rest(c, pos + sum_tokens(s).len(), at, v),
            None => sum_of(c, pos, at) is Err,
        },
    decreases s,
{
    match s {
        SumExpr::Term(t) => {
            lemma_term(c, *t, pos, at);
            let n = term_tokens(*t).len();
            lemma_term_nonempty(*t);
            if let Some(v) = term_value(*t) {
                assert(product_rest(c, pos + n, at, v) == Ok::<(i32, int, int), Fault>(
                    (v, pos + n, at),
                ));
            }
        },
        SumExpr::Add(a, t) => {
            lemma_split3(c, pos, sum_tokens(*a), Lexeme::Plus, term_tokens(*t));
            let na = sum_tokens(*a).len();
            let n = sum_tokens(s).len();
            lemma_sum(c, *a, pos, at);
            lemma_term(c, *t, pos + na + 1, at);
            if let Some(y) = term_value(*t) {
                assert(product_rest(c, pos + n, at, y) == Ok::<(i32, int, int), Fault>(
                    (y, pos + n, at),
                ));
            }
        },
        SumExpr::Sub(a, t) => {
            lemma_split3(c, pos, sum_tokens(*a), Lexeme::Minus, term_tokens(*t));
            let na = sum_tokens(*a).len();
            let n = sum_tokens(s).len();
            lemma_sum(c, *a, pos, at);
            lemma_term(c, *t, pos + na + 1, at);
            if let Some(y) = term_value(*t) {
                assert(product_rest(c, pos + n, at, y) == Ok::<(i32, int, int), Fault>(
                    (y, pos + n, at),
                ));
            }
        },
    }
}

proof fn lemma_term(c: Ctx, t: TermExpr, pos: int, at: int)
    requires
        spelled_at(c, pos, term_tokens(t)),
    ensures
        match term_value(t) {
            Some(v) => product_of(c, pos, at) == product_rest(
                c,
                pos + term_tokens(t).len(),
                at,
                v,
            ),
            None => product_of(c, pos, at) is Err,
        },
    decreases t,
{
    match t {
        TermExpr::Factor(f) => {
            lemma_factor(c, *f, pos, at);
        },
        TermExpr::Mul(a, f) => {
            lemma_split3(c, pos, term_tokens(*a), Lexeme::Asterisk, factor_tokens(*f));
            let na = term_tokens(*a).len();
            lemma_term(c, *a, pos, at);
            lemma_factor(c, *f, pos + na + 1, at);
        },
        TermExpr::Div(a, f) => {
            lemma_split3(c, pos, term_tokens(*a), Lexeme::Slash, factor_tokens(*f));
            let na = term_tokens(*a).len();
            lemma_term(c, *a, pos, at);
            lemma_factor(c, *f, pos + na + 1, at);
        },
    }
}

proof fn lemma_factor(c: Ctx, f: FactorExpr, pos: int, at: int)
    requires
        spelled_at(c, pos, factor_tokens(f)),
    ensures
        match factor_value(f) {
            Some(v) => factor_of(c, pos, at) == Ok::<(i32, int, int), Fault>(
                (v, pos + factor_tokens(f).len(), at),
            ),
            None => factor_of(c, pos, at) is Err,
        },
    decreases f,
{
    match f {
        FactorExpr::Lit(n) => {
            assert(c.ts[pos] == c.ts.subrange(pos, pos + 1)[0]);
        },
        FactorExpr::Group(s) => {
            let inner = sum_tokens(*s);
            lemma_split3(c, pos, seq![Lexeme::OpenParen] + inner, Lexeme::CloseParen, seq![]);
            lemma_split3(c, pos, seq![], Lexeme::OpenParen, inner);
            assert(seq![Lexeme::<Seq<char>>::OpenParen] + inner == seq![] + seq![
                Lexeme::<Seq<char>>::OpenParen,
            ] + inner);
            lemma_sum(c, *s, pos + 1, at);
            if let Some(v) = sum_value(*s) {
                assert(sum_rest(c, pos + 1 + inner.len(), at, v) == Ok::<(i32, int, int), Fault>(
                    (v, pos + 1 + inner.len(), at),
                ));
            }
        },
    }
}

/// Arithmetic follows the standard grammar: an expression of literals and
/// parentheses, followed by a token that does not continue it, evaluates to
/// its value with `*` and `/` binding tighter than `+` and `-`, and each of
/// them grouping to the left. Where that value is undefined (a division by
/// zero, a result outside 32 bits) the evaluation fails.
pub proof fn law_arithmetic(c: Ctx, s: SumExpr, pos: int, at: int)
    requires
        spelled_at(c, pos, sum_tokens(s)),
        !(tok_at(c, pos + sum_tokens(s).len()) matches Some(
            Lexeme::Plus | Lexeme::Minus | Lexeme::Asterisk | Lexeme::Slash,
        )),
    ensures
        match sum_value(s) {
            Some(v) => sum_of(c, pos, at) == Ok::<(i32, int, int), Fault>(
                (v, pos + sum_tokens(s).len(), at),
            ),
            None => sum_of(c, pos, at) is Err,
        },
{
    lemma_sum(c, s, pos, at);
}

/// A boolean expression of literals and parentheses, as the standard grammar
/// derives it: disjunctions of conjunctions, both grouping to the left.
pub enum OrExpr {
    Conj(Box<AndExpr>),
    Or(Box<OrExpr>, Box<AndExpr>),
}

pub enum AndExpr {
    Atom(Box<BoolAtom>),
    And(Box<AndExpr>, Box<BoolAtom>),
}

pub enum BoolAtom {
    Lit(bool),
    Group(Box<OrExpr>),
}

pub open spec fn or_tokens(e: OrExpr) -> Seq<Tok>
    decreases e,
{
    match e {
        OrExpr::Conj(a) => and_tokens(*a),
        OrExpr::Or(a, b) => or_tokens(*a) + seq![Lexeme::Or] + and_tokens(*b),
    }
}

pub open spec fn and_tokens(e: AndExpr) -> Seq<Tok>
    decreases e,
{
    match e {
        AndExpr::Atom(x) => atom_tokens(*x),
        AndExpr::And(a, x) => and_tokens(*a) + seq![Lexeme::And] + atom_tokens(*x),
    }
}

pub open spec fn atom_tokens(x: BoolAtom) -> Seq<Tok>
    decreases x,
{
    match x {
        BoolAtom::Lit(b) => seq![
            if b {
                Lexeme::True
            } else {
                Lexeme::False
            },
        ],
        BoolAtom::Group(e) => seq![Lexeme::OpenParen] + or_tokens(*e) + seq![Lexeme::CloseParen],
    }
}

pub open spec fn or_value(e: OrExpr) -> bool
    decreases e,
{
    match e {
        OrExpr::Conj(a) => and_value(*a),
        OrExpr::Or(a, b) => or_value(*a) || and_value(*b),
    }
}

pub open spec fn and_value(e: AndExpr) -> bool
    decreases e,
{
    match e {
        AndExpr::Atom(x) => atom_value(*x),
        AndExpr::And(a, x) => and_value(*a) && atom_value(*x),
    }
}

pub open spec fn atom_value(x: BoolAtom) -> bool
    decreases x,
{
    match x {
        BoolAtom::Lit(b) => b,
        BoolAtom::Group(e) => or_value(*e),
    }
}

/// Whether a token may follow a conjunction without continuing it.
pub open spec fn ends_conj(c: Ctx, p: int) -> bool {
    tok_at(c, p) != Some(Lexeme::<Seq<char>>::And)
}

proof fn lemma_and_nonempty(e: AndExpr)
    ensures
        and_tokens(e).len() >= 1,
{
    match e {
        AndExpr::Atom(x) => {
            assert(atom_tokens(*x).len() >= 1);
        },
        _ => {},
    }
}

proof fn lemma_or(c: Ctx, e: OrExpr, pos: int, at: int)
    requires
        spelled_at(c, pos, or_tokens(e)),
        ends_conj(c, pos + or_tokens(e).len()),
    ensures
        disjunction_of(c, pos, at) == or_rest(c, pos + or_tokens(e).len(), at, or_value(e)),
    decreases e,
{
    match e {
        OrExpr::Conj(a) => {
            lemma_and(c, *a, pos, at);
            lemma_and_nonempty(*a);
            let n = and_tokens(*a).len();
            assert(and_rest(c, pos + n, at, and_value(*a)) == Ok::<(bool, int, int), Fault>(
                (and_value(*a), pos + n, at),
            ));
        },
        OrExpr::Or(a, b) => {
            lemma_split3(c, pos, or_tokens(*a), Lexeme::Or, and_tokens(*b));
            let na = or_tokens(*a).len();
            let n = or_tokens(e).len();
            lemma_or(c, *a, pos, at);
            lemma_and(c, *b, pos + na + 1, at);
            assert(and_rest(c, pos + n, at, and_value(*b)) == Ok::<(bool, int, int), Fault>(
                (and_value(*b), pos + n, at),
            ));
        },
    }
}

proof fn lemma_and(c: Ctx, e: AndExpr, pos: int, at: int)
    requires
        spelled_at(c, pos, and_tokens(e)),
    ensures
        conjunction_of(c, pos, at) == and_rest(c, pos + and_tokens(e).len(), at, and_value(e)),
    decreases e,
{
    match e {
        AndExpr::Atom(x) => {
            lemma_atom(c, *x, pos, at);
        },
        AndExpr::And(a, x) => {
            lemma_split3(c, pos, and_tokens(*a), Lexeme::And, atom_tokens(*x));
            let na = and_tokens(*a).len();
            lemma_and(c, *a, pos, at);
            lemma_atom(c, *x, pos + na + 1, at);
        },
    }
}

proof fn lemma_atom(c: Ctx, x: BoolAtom, pos: int, at: int)
    requires
        spelled_at(c, pos, atom_tokens(x)),
    ensures
        comparison_of(c, pos, at) == Ok::<(bool, int, int), Fault>(
            (atom_value(x), pos + atom_tokens(x).len(), at),
        ),
    decreases x,
{
    match x {
        BoolAtom::Lit(b) => {
            assert(c.ts[pos] == c.ts.subrange(pos, pos + 1)[0]);
        },
        BoolAtom::Group(e) => {
            let inner = or_tokens(*e);
            lemma_split3(c, pos, seq![Lexeme::OpenParen] + inner, Lexeme::CloseParen, seq![]);
            lemma_split3(c, pos, seq![], Lexeme::OpenParen, inner);
            assert(seq![Lexeme::<Seq<char>>::OpenParen] + inner == seq![] + seq![
                Lexeme::<Seq<char>>::OpenParen,
            ] + inner);
            lemma_or(c, *e, pos + 1, at);
            assert(or_rest(c, pos + 1 + inner.len(), at, or_value(*e)) == Ok::<
                (bool, int, int),
                Fault,
            >((or_value(*e), pos + 1 + inner.len(), at)));
        },
    }
}

/// Booleans follow the standard grammar: an expression of `true`, `false`
/// and parentheses, followed by a token that does not continue it, evaluates
/// to its value with `&&` binding tighter than `||`, both grouping to the
/// left.
pub proof fn law_boolean(c: Ctx, e: OrExpr, pos: int, at: int)
    requires
        spelled_at(c, pos, or_tokens(e)),
        !(tok_at(c, pos + or_tokens(e).len()) matches Some(Lexeme::Or | Lexeme::And)),
    ensures
        disjunction_of(c, pos, at) == Ok::<(bool, int, int), Fault>(
            (or_value(e), pos + or_tokens(e).len(), at),
        ),
{
    lemma_or(c, e, pos, at);
}

/// A comparison token.
pub open spec fn is_comparison(op: Tok) -> bool {
    ||| op == Lexeme::<Seq<char>>::LessThan
    ||| op == Lexeme::<Seq<char>>::GreaterThan
    ||| op == Lexeme::<Seq<char>>::LessThanEqual
    ||| op == Lexeme::<Seq<char>>::GreaterThanEqual
    ||| op == Lexeme::<Seq<char>>::EqualTo
}

/// Comparing two arithmetic expressions gives the comparison of their values:
/// `<`, `>`, `<=`, `>=` and `==` on the integers. The left expression begins
/// with a number, which is what makes the evaluator read a comparison.
pub proof fn law_comparison(c: Ctx, x: SumExpr, op: Tok, y: SumExpr, pos: int, at: int)
    requires
        spelled_at(c, pos, sum_tokens(x) + seq![op] + sum_tokens(y)),
        sum_tokens(x)[0] is Number,
        is_comparison(op),
        sum_value(x) is Some,
        sum_value(y) is Some,
        !(tok_at(c, pos + sum_tokens(x).len() + 1 + sum_tokens(y).len()) matches Some(
            Lexeme::Plus | Lexeme::Minus | Lexeme::Asterisk | Lexeme::Slash | Lexeme::Or
            | Lexeme::And,
        )),
    ensures
        disjunction_of(c, pos, at) == Ok::<(bool, int, int), Fault>(
            (
                compare(op, sum_value(x)->Some_0, sum_value(y)->Some_0)->Some_0,
                pos + sum_tokens(x).len() + 1 + sum_tokens(y).len(),
                at,
            ),
        ),
        compare(op, sum_value(x)->Some_0, sum_value(y)->Some_0) is Some,
        op == Lexeme::<Seq<char>>::LessThan ==> compare(
            op,
            sum_value(x)->Some_0,
            sum_value(y)->Some_0,
        ) == Some(sum_value(x)->Some_0 < sum_value(y)->Some_0),
        op == Lexeme::<Seq<char>>::EqualTo ==> compare(
            op,
            sum_value(x)->Some_0,
            sum_value(y)->Some_0,
        ) == Some(sum_value(x)->Some_0 == sum_value(y)->Some_0),
        op == Lexeme::<Seq<char>>::LessThanEqual ==> compare(
            op,
            sum_value(x)->Some_0,
            sum_value(y)->Some_0,
        ) == Some(sum_value(x)->Some_0 <= sum_value(y)->Some_0),
        op == Lexeme::<Seq<char>>::GreaterThan ==> compare(
            op,
            sum_value(x)->Some_0,
            sum_value(y)->Some_0,
        ) == Some(sum_value(x)->Some_0 > sum_value(y)->Some_0),
        op == Lexeme::<Seq<char>>::GreaterThanEqual ==> compare(
            op,
            sum_value(x)->Some_0,
            sum_value(y)->Some_0,
        ) == Some(sum_value(x)->Some_0 >= sum_value(y)->Some_0),
{
    let nx = sum_tokens(x).len();
    let ny = sum_tokens(y).len();
    let n = nx + 1 + ny;
    lemma_split3(c, pos, sum_tokens(x), op, sum_tokens(y));
    lemma_sum(c, x, pos, at);
    lemma_sum(c, y, pos + nx + 1, at);
    let vx = sum_value(x)->Some_0;
    let vy = sum_value(y)->Some_0;
    assert(sum_rest(c, pos + nx, at, vx) == Ok::<(i32, int, int), Fault>((vx, pos + nx, at)));
    assert(sum_rest(c, pos + n, at, vy) == Ok::<(i32, int, int), Fault>((vy, pos + n, at)));
    assert(c.ts[pos] == c.ts.subrange(pos, pos + nx)[0]);
    let v = compare(op, vx, vy)->Some_0;
    assert(comparison_of(c, pos, at) == Ok::<(bool, int, int), Fault>((v, pos + n, at)));
    assert(and_rest(c, pos + n, at, v) == Ok::<(bool, int, int), Fault>((v, pos + n, at)));
    assert(or_rest(c, pos + n, at, v) == Ok::<(bool, int, int), Fault>((v, pos + n, at)));
}

/// The tokens of `c`'s range from `s` on, read by a cursor of their own.
pub open spec fn sliced(c: Ctx, s: int) -> Ctx {
    Ctx {
        ts: c.ts.subrange(s, c.end),
        end: c.end - s,
        env: c.env,
        lines: c.lines,
        open: c.open,
    }
}

/// An outcome with its position moved by `d`.
pub open spec fn shifted<T>(r: Eval<T>, d: int) -> Eval<T> {
    match r {
        Ok((v, p, a)) => Ok((v, p + d, a)),
        Err(e) => Err(e),
    }
}

proof fn lemma_tok_sliced(c: Ctx, s: int, p: int)
    requires
        0 <= s <= p,
        s <= c.end <= c.ts.len(),
    ensures
        tok_at(sliced(c, s), p - s) == tok_at(c, p),
        tok_at(sliced(c, s), p - s + 1) == tok_at(c, p + 1),
{
}

proof fn lemma_sum_rest_pos(c: Ctx, pos: int, at: int, acc: i32)
    ensures
        sum_rest(c, pos, at, acc) matches Ok((_, p, _)) ==> p >= pos,
    decreases c.end - pos,
{
    if let Ok((v, p, a)) = product_of(c, pos + 1, at) {
        if !(p <= pos || p > c.end) {
            if let Some(x) = acc.checked_add(v) {
                lemma_sum_rest_pos(c, p, a, x);
            }
            if let Some(x) = acc.checked_sub(v) {
                lemma_sum_rest_pos(c, p, a, x);
            }
        }
    }
}

proof fn lemma_sum_pos(c: Ctx, pos: int, at: int)
    ensures
        sum_of(c, pos, at) matches Ok((_, p, _)) ==> p > pos,
{
    if let Ok((v, p, a)) = product_of(c, pos, at) {
        lemma_sum_rest_pos(c, p, a, v);
    }
}

proof fn lemma_or_rest_pos(c: Ctx, pos: int, at: int, acc: bool)
    ensures
        or_rest(c, pos, at, acc) matches Ok((_, p, _)) ==> p >= pos,
    decreases c.end - pos,
{
    if let Ok((v, p, a)) = conjunction_of(c, pos + 1, at) {
        if !(p <= pos || p > c.end) {
            lemma_or_rest_pos(c, p, a, acc || v);
        }
    }
}

proof fn lemma_or_pos(c: Ctx, pos: int, at: int)
    ensures
        disjunction_of(c, pos, at) matches Ok((_, p, _)) ==> p > pos,
{
    if let Ok((v, p, a)) = conjunction_of(c, pos, at) {
        lemma_or_rest_pos(c, p, a, v);
    }
}

proof fn shift_sum(c: Ctx, s: int, pos: int, at: int)
    requires
        0 <= s <= pos,
        s <= c.end <= c.ts.len(),
    ensures
        sum_of(c, pos, at) == shifted(sum_of(sliced(c, s), pos - s, at), s),
    decreases c.end - pos, 4int,
{
    let ghost sl = sliced(c, s);
    lemma_tok_sliced(c, s, pos);
    shift_product(c, s, pos, at);
    if let Ok((v, p, a)) = product_of(c, pos, at) {
        if !(p <= pos || p > c.end) {
            shift_sum_rest(c, s, p, a, v);
        }
    }
}

proof fn shift_sum_rest(c: Ctx, s: int, pos: int, at: int, acc: i32)
    requires
        0 <= s <= pos,
        s <= c.end <= c.ts.len(),
    ensures
        sum_rest(c, pos, at, acc) == shifted(sum_rest(sliced(c, s), pos - s, at, acc), s),
    decreases c.end - pos, 2int,
{
    let ghost sl = sliced(c, s);
    lemma_tok_sliced(c, s, pos);
    if tok_at(c, pos) == Some(Lexeme::<Seq<char>>::Plus) || tok_at(c, pos) == Some(
        Lexeme::<Seq<char>>::Minus,
    ) {
        shift_product(c, s, pos + 1, at);
        if let Ok((v, p, a)) = product_of(c, pos + 1, at) {
            if !(p <= pos || p > c.end) {
                if let Some(x) = acc.checked_add(v) {
                    shift_sum_rest(c, s, p, a, x);
                }
                if let Some(x) = acc.checked_sub(v) {
                    shift_sum_rest(c, s, p, a, x);
                }
            }
        }
    }
}

proof fn shift_product(c: Ctx, s: int, pos: int, at: int)
    requires
        0 <= s <= pos,
        s <= c.end <= c.ts.len(),
    ensures
        product_of(c, pos, at) == shifted(product_of(sliced(c, s), pos - s, at), s),
    decreases c.end - pos, 3int,
{
    let ghost sl = sliced(c, s);
    lemma_tok_sliced(c, s, pos);
    shift_factor(c, s, pos, at);
    if let Ok((v, p, a)) = factor_of(c, pos, at) {
        if !(p <= pos || p > c.end) {
            shift_product_rest(c, s, p, a, v);
        }
    }
}

proof fn shift_product_rest(c: Ctx, s: int, pos: int, at: int, acc: i32)
    requires
        0 <= s <= pos,
        s <= c.end <= c.ts.len(),
    ensures
        product_rest(c, pos, at, acc) == shifted(product_rest(sliced(c, s), pos - s, at, acc), s),
    decreases c.end - pos, 0int,
{
    let ghost sl = sliced(c, s);
    lemma_tok_sliced(c, s, pos);
    if tok_at(c, pos) == Some(Lexeme::<Seq<char>>::Asterisk) || tok_at(c, pos) == Some(
        Lexeme::<Seq<char>>::Slash,
    ) {
        shift_factor(c, s, pos + 1, at);
        if let Ok((v, p, a)) = factor_of(c, pos + 1, at) {
            if !(p <= pos || p > c.end) {
                if let Some(x) = acc.checked_mul(v) {
                    shift_product_rest(c, s, p, a, x);
                }
                if v != 0 {
                    if let Some(x) = acc.checked_div(v) {
                        shift_product_rest(c, s, p, a, x);
                    }
                }
            }
        }
    }
}

proof fn shift_factor(c: Ctx, s: int, pos: int, at: int)
    requires
        0 <= s <= pos,
        s <= c.end <= c.ts.len(),
    ensures
        factor_of(c, pos, at) == shifted(factor_of(sliced(c, s), pos - s, at), s),
    decreases c.end - pos, 1int,
{
    let ghost sl = sliced(c, s);
    lemma_tok_sliced(c, s, pos);
    if tok_at(c, pos) == Some(Lexeme::<Seq<char>>::OpenParen) {
        shift_sum(c, s, pos + 1, at);
        lemma_sum_pos(c, pos + 1, at);
        if let Ok((v, p, a)) = sum_of(c, pos + 1, at) {
            if p >= s {
                lemma_tok_sliced(c, s, p);
            }
        }
    }
}

proof fn shift_or(c: Ctx, s: int, pos: int, at: int)
    requires
        0 <= s <= pos,
        s <= c.end <= c.ts.len(),
    ensures
        disjunction_of(c, pos, at) == shifted(disjunction_of(sliced(c, s), pos - s, at), s),
    decreases c.end - pos, 4int,
{
    let ghost sl = sliced(c, s);
    lemma_tok_sliced(c, s, pos);
    shift_and(c, s, pos, at);
    if let Ok((v, p, a)) = conjunction_of(c, pos, at) {
        if !(p <= pos || p > c.end) {
            shift_or_rest(c, s, p, a, v);
        }
    }
}

#[verifier::rlimit(40)]
proof fn shift_or_rest(c: Ctx, s: int, pos: int, at: int, acc: bool)
    requires
        0 <= s <= pos,
        s <= c.end <= c.ts.len(),
    ensures
        or_rest(c, pos, at, acc) == shifted(or_rest(sliced(c, s), pos - s, at, acc), s),
    decreases c.end - pos, 2int,
{
    let ghost sl = sliced(c, s);
    lemma_tok_sliced(c, s, pos);
    if tok_at(c, pos) == Some(Lexeme::<Seq<char>>::Or) {
        shift_and(c, s, pos + 1, at);
        if let Ok((v, p, a)) = conjunction_of(c, pos + 1, at) {
            if !(p <= pos || p > c.end) {
                shift_or_rest(c, s, p, a, acc || v);
            }
        }
    }
}

proof fn shift_and(c: Ctx, s: int, pos: int, at: int)
    requires
        0 <= s <= pos,
        s <= c.end <= c.ts.len(),
    ensures
        conjunction_of(c, pos, at) == shifted(conjunction_of(sliced(c, s), pos - s, at), s),
    decreases c.end - pos, 3int,
{
    let ghost sl = sliced(c, s);
    lemma_tok_sliced(c, s, pos);
    shift_comparison(c, s, pos, at);
    if let Ok((v, p, a)) = comparison_of(c, pos, at) {
        if !(p <= pos || p > c.end) {
            shift_and_rest(c, s, p, a, v);
        }
    }
}

proof fn shift_and_rest(c: Ctx, s: int, pos: int, at: int, acc: bool)
    requires
        0 <= s <= pos,
        s <= c.end <= c.ts.len(),
    ensures
        and_rest(c, pos, at, acc) == shifted(and_rest(sliced(c, s), pos - s, at, acc), s),
    decreases c.end - pos, 0int,
{
    let ghost sl = sliced(c, s);
    lemma_tok_sliced(c, s, pos);
    if tok_at(c, pos) == Some(Lexeme::<Seq<char>>::And) {
        shift_comparison(c, s, pos + 1, at);
        if let Ok((v, p, a)) = comparison_of(c, pos + 1, at) {
            if !(p <= pos || p > c.end) {
                shift_and_rest(c, s, p, a, acc && v);
            }
        }
    }
}

proof fn shift_comparison(c: Ctx, s: int, pos: int, at: int)
    requires
        0 <= s <= pos,
        s <= c.end <= c.ts.len(),
    ensures
        comparison_of(c, pos, at) == shifted(comparison_of(sliced(c, s), pos - s, at), s),
    decreases c.end - pos, 1int,
{
    let ghost sl = sliced(c, s);
    lemma_tok_sliced(c, s, pos);
    shift_int_comparison(c, s, pos, at);
    shift_atom(c, s, pos, at);
}

#[verifier::rlimit(40)]
proof fn shift_atom(c: Ctx, s: int, pos: int, at: int)
    requires
        0 <= s <= pos,
        s <= c.end <= c.ts.len(),
    ensures
        bool_atom_of(c, pos, at) == shifted(bool_atom_of(sliced(c, s), pos - s, at), s),
    decreases c.end - pos, 0int,
{
    let ghost sl = sliced(c, s);
    lemma_tok_sliced(c, s, pos);
    if tok_at(c, pos) == Some(Lexeme::<Seq<char>>::OpenParen) {
        shift_or(c, s, pos + 1, at);
        lemma_or_pos(c, pos + 1, at);
        if let Ok((v, p, a)) = disjunction_of(c, pos + 1, at) {
            if p >= s {
                lemma_tok_sliced(c, s, p);
            }
        }
    }
}

proof fn shift_int_comparison(c: Ctx, s: int, pos: int, at: int)
    requires
        0 <= s <= pos,
        s <= c.end <= c.ts.len(),
    ensures
        int_comparison_of(c, pos, at) == shifted(int_comparison_of(sliced(c, s), pos - s, at), s),
{
    let ghost sl = sliced(c, s);
    lemma_tok_sliced(c, s, pos);
    shift_sum(c, s, pos, at);
    lemma_sum_pos(c, pos, at);
    if let Ok((x, p, a)) = sum_of(c, pos, at) {
        if p >= s {
            lemma_tok_sliced(c, s, p);
            shift_sum(c, s, p + 1, a);
        }
    }
}

/// A captured condition is read as the same tokens on a cursor of their own
/// would be: evaluating the range from `s` on gives the value, the fault and
/// the input use that a fresh sequence of just those tokens gives, with
/// positions moved by `s`. So replaying a loop's condition range on every
/// pass evaluates as re-reading it anew.
pub proof fn law_captured_condition(c: Ctx, s: int, at: int)
    requires
        0 <= s <= c.end <= c.ts.len(),
    ensures
        disjunction_of(c, s, at) == shifted(disjunction_of(sliced(c, s), 0, at), s),
{
    shift_or(c, s, s, at);
}

/// Tokenizing is a function of the text alone: two token vectors that `lex`
/// returned for the same text are the same tokens.
pub proof fn law_tokenize_twice(text: Seq<char>, first: Seq<Token>, second: Seq<Token>)
    requires
        toks(first) == lex_tokens(text),
        toks(second) == lex_tokens(text),
    ensures
        toks(first) == toks(second),
        first.len() == second.len(),
        forall|i: int| 0 <= i < first.len() ==> first[i]@ == second[i]@,
{
    assert(toks(first).len() == first.len());
    assert(toks(second).len() == second.len());
    assert forall|i: int| 0 <= i < first.len() implies first[i]@ == second[i]@ by {
        assert(toks(first)[i] == first[i]@);
        assert(toks(second)[i] == second[i]@);
    }
}

/// Loop ranges are replayed, never consumed: each loop test evaluates the
/// condition range that the `while` captured, as a cursor of its own; when it
/// holds, the next pass runs exactly the captured body range and the captured
/// ranges stay as they were; when it fails, the loop is dropped and the run
/// resumes after it.
pub proof fn law_loop_replays_captured_ranges(m: ParserModel)
    requires
        model_ok(m),
        m.loops.len() > 0,
    ensures
        ({
            let f = m.loops.last();
            let c = Ctx {
        ts: m.ts,
        end: f.cond_end as int,
        env: m.env,
        lines: m.lines,
        open: m.open,
    };
            &&& disjunction_of(c, f.cond_start as int, m.at) == shifted(
                disjunction_of(sliced(c, f.cond_start as int), 0, m.at),
                f.cond_start as int,
            )
            &&& match disjunction_of(c, f.cond_start as int, m.at) {
                Ok((true, _, a)) => loop_test(m) == Ok::<ParserModel, Fault>(
                    ParserModel {
                        pos: f.body_start as int,
                        end: f.body_end as int,
                        at: a,
                        ..m
                    },
                ),
                Ok((false, _, a)) => loop_test(m) == Ok::<ParserModel, Fault>(
                    ParserModel {
                        loops: m.loops.drop_last(),
                        pos: f.resume_pos as int,
                        end: f.resume_end as int,
                        at: a,
                        ..m
                    },
                ),
                Err(e) => loop_test(m) == Err::<ParserModel, Fault>(e),
            }
        }),
{
    let f = m.loops.last();
    assert(crate::interp::frame_ok(m.loops[m.loops.len() - 1], m.ts.len() as int));
    let c = Ctx {
        ts: m.ts,
        end: f.cond_end as int,
        env: m.env,
        lines: m.lines,
        open: m.open,
    };
    law_captured_condition(c, f.cond_start as int, m.at);
}

} // verus!
