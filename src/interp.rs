use vstd::prelude::*;
use crate::env::{line_at, next_at, resolve, Env, EnvModel, Fault, Lines, Variable};
use crate::eval::{
    advance, bool_atom_of, boolean_expr, comparison_of, concat_of, concatination, conjunction_of,
    disjunction_of, expression, factor_of, int_comparison_of, print_text,
    product_of, sum_of, to_print, tok_at, Ctx, Eval,
};
use crate::lexer::{lex, lex_tokens};
use crate::text::{copy_text, int_of_line, parse_int};
use crate::token::{toks, Keyword, Lexeme, Tok, Token};

verus! {

/// A running `while` loop: its condition and body as token ranges, and where
/// to go on when it ends.
#[derive(Clone, Copy, Debug)]
pub struct LoopFrame {
    pub cond_start: usize,
    pub cond_end: usize,
    pub body_start: usize,
    pub body_end: usize,
    pub resume_pos: usize,
    pub resume_end: usize,
}

/// The state of a run: tokens, variables, output, input, the cursor over the
/// range being run, and the loops that are running, innermost last.
pub struct ParserModel {
    pub ts: Seq<Tok>,
    pub env: EnvModel,
    pub out: Seq<char>,
    pub lines: Seq<Seq<char>>,
    pub open: bool,
    pub at: int,
    pub pos: int,
    pub end: int,
    pub loops: Seq<LoopFrame>,
}

pub open spec fn frame_ok(f: LoopFrame, n: int) -> bool {
    &&& f.cond_start <= f.cond_end <= n
    &&& f.body_start <= f.body_end <= n
    &&& f.resume_pos <= f.resume_end <= n
}

/// Every range of the state lies within the tokens.
pub open spec fn model_ok(m: ParserModel) -> bool {
    &&& 0 <= m.pos <= m.end <= m.ts.len()
    &&& 0 <= m.at <= m.lines.len()
    &&& forall|i: int| 0 <= i < m.loops.len() ==> frame_ok(#[trigger] m.loops[i], m.ts.len() as int)
}

/// Two states that differ at most in how much input was read.
pub open spec fn agrees(a: ParserModel, b: ParserModel) -> bool {
    &&& a.ts == b.ts
    &&& a.env == b.env
    &&& a.out == b.out
    &&& a.lines == b.lines
    &&& a.open == b.open
    &&& a.pos == b.pos
    &&& a.end == b.end
    &&& a.loops == b.loops
}

pub open spec fn ctx_of(m: ParserModel) -> Ctx {
    Ctx { ts: m.ts, end: m.end, env: m.env, lines: m.lines, open: m.open }
}

/// The position after the `}` that closes a block, scanning from `pos` with
/// `depth` blocks open inside it; the end when there is none.
pub open spec fn block_end(ts: Seq<Tok>, pos: int, end: int, depth: nat) -> int
    decreases end - pos,
{
    if pos >= end {
        end
    } else {
        match ts[pos] {
            Lexeme::OpenBrace => block_end(ts, pos + 1, end, depth + 1),
            Lexeme::CloseBrace => if depth == 0 {
                pos + 1
            } else {
                block_end(ts, pos + 1, end, (depth - 1) as nat)
            },
            _ => block_end(ts, pos + 1, end, depth),
        }
    }
}

/// The position after a block that begins with `{` at `p`; `p` itself when
/// no `{` stands there.
pub open spec fn skip_block(c: Ctx, p: int) -> int {
    if tok_at(c, p) == Some(Lexeme::<Seq<char>>::OpenBrace) {
        block_end(c.ts, p + 1, c.end, 0)
    } else {
        p
    }
}

/// The position of the first `{` at or after `p`, or the end.
pub open spec fn brace_from(ts: Seq<Tok>, p: int, end: int) -> int
    decreases end - p,
{
    if p >= end {
        end
    } else if ts[p] == Lexeme::<Seq<char>>::OpenBrace {
        p
    } else {
        brace_from(ts, p + 1, end)
    }
}

/// `int x = ...;`, `string x = ...;` or `bool x = ...;` at the cursor.
pub open spec fn declaration(m: ParserModel, kw: Keyword) -> Result<ParserModel, Fault> {
    let c = ctx_of(m);
    match tok_at(c, m.pos + 1) {
        Some(Lexeme::Identifier(x)) => {
            let p = advance(c, m.pos + 2);
            if kw == Keyword::Int {
                match sum_of(c, p, m.at) {
                    Ok((v, q, a)) => Ok(
                        ParserModel {
                            env: EnvModel { ints: m.env.ints.insert(x, v), ..m.env },
                            pos: advance(c, q),
                            at: a,
                            ..m
                        },
                    ),
                    Err(e) => Err(e),
                }
            } else if kw == Keyword::Str {
                match concat_of(c, p, m.at, seq![]) {
                    Ok((v, q, a)) => Ok(
                        ParserModel {
                            env: EnvModel { strings: m.env.strings.insert(x, v), ..m.env },
                            pos: advance(c, q),
                            at: a,
                            ..m
                        },
                    ),
                    Err(e) => Err(e),
                }
            } else {
                match disjunction_of(c, p, m.at) {
                    Ok((v, q, a)) => Ok(
                        ParserModel {
                            env: EnvModel { bools: m.env.bools.insert(x, v), ..m.env },
                            pos: advance(c, q),
                            at: a,
                            ..m
                        },
                    ),
                    Err(e) => Err(e),
                }
            }
        },
        _ => Err(Fault::ExpectedIdentifier),
    }
}

/// `print(...);` or `println(...);` at the cursor.
pub open spec fn print_stmt(m: ParserModel, newline: bool) -> Result<ParserModel, Fault> {
    let c = ctx_of(m);
    match print_text(c, m.pos + 1, m.at) {
        Ok((s, p, a)) => Ok(
            ParserModel {
                out: if newline {
                    m.out + s + seq!['\n']
                } else {
                    m.out + s
                },
                pos: advance(c, p),
                at: a,
                ..m
            },
        ),
        Err(e) => Err(e),
    }
}

/// `if cond {...} else {...}` at the cursor: a true condition goes on into
/// the `if` block; a false one skips it and goes on into the `else` block.
pub open spec fn if_stmt(m: ParserModel) -> Result<ParserModel, Fault> {
    let c = ctx_of(m);
    match disjunction_of(c, m.pos + 1, m.at) {
        Ok((b, p, a)) => if b {
            Ok(ParserModel { pos: p, at: a, ..m })
        } else {
            let q = skip_block(c, p);
            Ok(
                ParserModel {
                    pos: if tok_at(c, q) == Some(Lexeme::<Seq<char>>::Keyword(Keyword::Else)) {
                        q + 1
                    } else {
                        q
                    },
                    at: a,
                    ..m
                },
            )
        },
        Err(e) => Err(e),
    }
}

/// `else {...}` reached after an `if` block that ran: the block is skipped.
pub open spec fn else_stmt(m: ParserModel) -> ParserModel {
    ParserModel { pos: skip_block(ctx_of(m), m.pos + 1), ..m }
}

/// The loop that `while` at the cursor begins: the condition runs up to the
/// first `{`, the body from there to its matching `}`.
pub open spec fn while_frame(m: ParserModel) -> LoopFrame {
    let cs = m.pos + 1;
    let ce = brace_from(m.ts, cs, m.end);
    let bs = if ce < m.end {
        ce + 1
    } else {
        m.end
    };
    let be = block_end(m.ts, bs, m.end, 0);
    LoopFrame {
        cond_start: cs as usize,
        cond_end: ce as usize,
        body_start: bs as usize,
        body_end: be as usize,
        resume_pos: be as usize,
        resume_end: m.end as usize,
    }
}

/// `while cond {...}` at the cursor: the loop is pushed, and its condition is
/// tested at the next step.
pub open spec fn while_stmt(m: ParserModel) -> ParserModel {
    let f = while_frame(m);
    ParserModel {
        loops: m.loops.push(f),
        pos: f.body_end as int,
        end: f.body_end as int,
        ..m
    }
}

/// An integer assignment whose right-hand side begins at `p`.
pub open spec fn assign_int(m: ParserModel, x: Seq<char>, p: int) -> Result<ParserModel, Fault> {
    let c = ctx_of(m);
    match sum_of(c, p, m.at) {
        Ok((v, q, a)) => Ok(
            ParserModel {
                env: EnvModel { ints: m.env.ints.insert(x, v), ..m.env },
                pos: advance(c, q),
                at: a,
                ..m
            },
        ),
        Err(e) => Err(e),
    }
}

/// A string assignment whose right-hand side begins at `p`.
pub open spec fn assign_text(m: ParserModel, x: Seq<char>, p: int) -> Result<ParserModel, Fault> {
    let c = ctx_of(m);
    match concat_of(c, p, m.at, seq![]) {
        Ok((v, q, a)) => Ok(
            ParserModel {
                env: EnvModel { strings: m.env.strings.insert(x, v), ..m.env },
                pos: advance(c, q),
                at: a,
                ..m
            },
        ),
        Err(e) => Err(e),
    }
}

/// `x = ...;` at the cursor: the first token of the right-hand side decides
/// whether it is a string or an integer.
pub open spec fn assignment(m: ParserModel, x: Seq<char>) -> Result<ParserModel, Fault> {
    let c = ctx_of(m);
    let p = advance(c, m.pos + 1);
    match tok_at(c, p) {
        None => Err(Fault::UnexpectedEnd),
        Some(Lexeme::Text(_)) => assign_text(m, x, p),
        Some(Lexeme::Number(_)) => assign_int(m, x, p),
        Some(Lexeme::Identifier(n)) => if m.env.ints.contains_key(n) {
            assign_int(m, x, p)
        } else if m.env.strings.contains_key(n) {
            assign_text(m, x, p)
        } else {
            Err(Fault::UnsupportedAssignment)
        },
        Some(_) => Err(Fault::UnexpectedToken),
    }
}

/// The statement at the cursor; any other token is passed over.
pub open spec fn statement(m: ParserModel) -> Result<ParserModel, Fault> {
    match m.ts[m.pos] {
        Lexeme::Keyword(Keyword::Int) => declaration(m, Keyword::Int),
        Lexeme::Keyword(Keyword::Str) => declaration(m, Keyword::Str),
        Lexeme::Keyword(Keyword::Bool) => declaration(m, Keyword::Bool),
        Lexeme::Keyword(Keyword::Print) => print_stmt(m, false),
        Lexeme::Keyword(Keyword::Println) => print_stmt(m, true),
        Lexeme::Keyword(Keyword::If) => if_stmt(m),
        Lexeme::Keyword(Keyword::Else) => Ok(else_stmt(m)),
        Lexeme::Keyword(Keyword::While) => Ok(while_stmt(m)),
        Lexeme::Identifier(x) => assignment(m, x),
        _ => Ok(ParserModel { pos: m.pos + 1, ..m }),
    }
}

/// The test of the innermost loop once its range is run: a true condition
/// runs the body again, a false one ends the loop.
pub open spec fn loop_test(m: ParserModel) -> Result<ParserModel, Fault> {
    let f = m.loops.last();
    let c = Ctx {
        ts: m.ts,
        end: f.cond_end as int,
        env: m.env,
        lines: m.lines,
        open: m.open,
    };
    match disjunction_of(c, f.cond_start as int, m.at) {
        Ok((b, _, a)) => if b {
            Ok(ParserModel { pos: f.body_start as int, end: f.body_end as int, at: a, ..m })
        } else {
            Ok(
                ParserModel {
                    loops: m.loops.drop_last(),
                    pos: f.resume_pos as int,
                    end: f.resume_end as int,
                    at: a,
                    ..m
                },
            )
        },
        Err(e) => Err(e),
    }
}

/// The run is over: the range is run and no loop is running.
pub open spec fn finished(m: ParserModel) -> bool {
    m.pos >= m.end && m.loops.len() == 0
}

/// One step of a run that is not finished.
pub open spec fn step(m: ParserModel) -> Result<ParserModel, Fault> {
    if m.pos < m.end {
        statement(m)
    } else {
        loop_test(m)
    }
}

/// A run of at most `fuel` steps: the last state, and the fault that stopped
/// it, if any. A fault leaves the state as it was before the failing step.
pub open spec fn run(m: ParserModel, fuel: nat) -> (ParserModel, Option<Fault>)
    decreases fuel,
{
    if finished(m) {
        (m, None)
    } else if fuel == 0 {
        (m, Some(Fault::OutOfFuel))
    } else {
        match step(m) {
            Ok(n) => run(n, (fuel - 1) as nat),
            Err(e) => (m, Some(e)),
        }
    }
}

/// How the state after a step relates to `s`, the step's outcome.
pub open spec fn follows(
    before: ParserModel,
    after: ParserModel,
    r: Result<(), Fault>,
    s: Result<ParserModel, Fault>,
) -> bool {
    &&& model_ok(after)
    &&& match s {
        Ok(n) => r is Ok && after == n,
        Err(e) => r == Err::<(), Fault>(e) && agrees(after, before),
    }
}

/// The state after an evaluation at the cursor with outcome `e`: the cursor
/// and the input moved on, and `r` holds the value or the fault.
pub open spec fn moved<T>(before: ParserModel, after: ParserModel, r: Result<T, Fault>, e: Eval<T>) -> bool {
    &&& model_ok(after)
    &&& match e {
        Ok((v, p, a)) => r == Ok::<T, Fault>(v) && after == (ParserModel { pos: p, at: a, ..before }),
        Err(f) => r == Err::<T, Fault>(f) && agrees(after, before),
    }
}

/// `moved` for a text result.
pub open spec fn moved_text(
    before: ParserModel,
    after: ParserModel,
    r: Result<Vec<char>, Fault>,
    e: Eval<Seq<char>>,
) -> bool {
    &&& model_ok(after)
    &&& match e {
        Ok((v, p, a)) => r is Ok && r->Ok_0@ == v && after == (ParserModel { pos: p, at: a, ..before }),
        Err(f) => r == Err::<Vec<char>, Fault>(f) && agrees(after, before),
    }
}

/// Counts the tokens of a block from `pos`, just after its `{`, up to and
/// including the matching `}` (or to `end` when there is none).
pub fn flow_end(ts: &Vec<Token>, pos: usize, end: usize) -> (r: usize)
    requires
        pos <= end <= ts@.len(),
    ensures
        pos + r == block_end(toks(ts@), pos as int, end as int, 0),
        pos + r <= end,
{
    let ghost s = toks(ts@);
    let mut p = pos;
    let mut depth: usize = 0;
    while p < end
        invariant
            pos <= p <= end <= ts@.len(),
            s == toks(ts@),
            depth <= p - pos,
            block_end(s, p as int, end as int, depth as nat) == block_end(
                s,
                pos as int,
                end as int,
                0,
            ),
        decreases end - p,
    {
        assert(s[p as int] == ts@[p as int]@);
        match &ts[p] {
            Lexeme::OpenBrace => {
                depth = depth + 1;
            },
            Lexeme::CloseBrace => {
                if depth == 0 {
                    return p + 1 - pos;
                }
                depth = depth - 1;
            },
            _ => {},
        }
        p = p + 1;
    }
    p - pos
}

/// The position of the first `{` at or after `p`, or `end`.
fn find_brace(ts: &Vec<Token>, p: usize, end: usize) -> (r: usize)
    requires
        p <= end <= ts@.len(),
    ensures
        r == brace_from(toks(ts@), p as int, end as int),
        p <= r <= end,
{
    let ghost s = toks(ts@);
    let mut q = p;
    while q < end
        invariant
            p <= q <= end <= ts@.len(),
            s == toks(ts@),
            brace_from(s, q as int, end as int) == brace_from(s, p as int, end as int),
        decreases end - q,
    {
        assert(s[q as int] == ts@[q as int]@);
        if matches!(ts[q], Lexeme::OpenBrace) {
            return q;
        }
        q = q + 1;
    }
    q
}

/// The position after a block that begins with `{` at `p`, or `p`.
fn skip(ts: &Vec<Token>, p: usize, end: usize) -> (r: usize)
    requires
        p <= end <= ts@.len(),
    ensures
        forall|env: EnvModel, lines: Seq<Seq<char>>, open: bool|
            r == skip_block(Ctx { ts: toks(ts@), end: end as int, env, lines, open }, p as int),
        p <= r <= end,
{
    if p < end && matches!(ts[p], Lexeme::OpenBrace) {
        p + 1 + flow_end(ts, p + 1, end)
    } else {
        p
    }
}

/// An interpreter over the tokens of one program: its variables, the text
/// printed so far, its input lines, and where it stands.
pub struct Parser {
    tokens: Vec<Token>,
    pub env: Env,
    pub output: Vec<char>,
    input: Lines,
    pos: usize,
    end: usize,
    loops: Vec<LoopFrame>,
}

impl View for Parser {
    type V = ParserModel;

    closed spec fn view(&self) -> ParserModel {
        ParserModel {
            ts: toks(self.tokens@),
            env: self.env@,
            out: self.output@,
            lines: self.input.all(),
            open: self.input.more(),
            at: self.input.at(),
            pos: self.pos as int,
            end: self.end as int,
            loops: self.loops@,
        }
    }
}

/// The state in which a program starts.
pub open spec fn start(ts: Seq<Tok>, lines: Seq<Seq<char>>) -> ParserModel {
    ParserModel {
        ts,
        env: EnvModel {
            ints: Map::empty(),
            strings: Map::empty(),
            bools: Map::empty(),
        },
        out: seq![],
        lines,
        open: false,
        at: 0,
        pos: 0,
        end: ts.len() as int,
        loops: seq![],
    }
}

impl Parser {
    /// An interpreter for a source text, with the lines that `input_` reads.
    pub fn new(input: &str, lines: Vec<Vec<char>>) -> (r: Parser)
        ensures
            r@ == start(lex_tokens(input@), lines@.map_values(|l: Vec<char>| l@)),
            r.wf(),
    {
        let tokens = lex(input);
        let end = tokens.len();
        Parser {
            tokens,
            env: Env::new(),
            output: Vec::new(),
            input: Lines::new(lines),
            pos: 0,
            end,
            loops: Vec::new(),
        }
    }

    /// The state is within its tokens and each namespace binds each name
    /// once.
    pub closed spec fn wf(&self) -> bool {
        model_ok(self@) && self.env.wf()
    }

    /// Only the cursor and the input position differ between `before` and
    /// `self`, both within range: then `self` is well formed if `before` is.
    proof fn lemma_cursor_moved(&self, before: &Parser)
        requires
            before.wf(),
            self.env == before.env,
            self@.ts == before@.ts,
            self@.lines == before@.lines,
            self@.open == before@.open,
            0 <= self@.at <= self@.lines.len(),
            0 <= self@.pos <= self@.end,
            self@.end == before@.end,
            self@.loops == before@.loops,
        ensures
            self.wf(),
    {
    }

    /// An interpreter whose input lines are supplied as they are needed: a
    /// step that would read a line not supplied yet fails with
    /// `AwaitingInput` and changes nothing.
    pub fn interactive(input: &str) -> (r: Parser)
        ensures
            r@ == (ParserModel { open: true, ..start(lex_tokens(input@), seq![]) }),
            r.wf(),
    {
        let tokens = lex(input);
        let end = tokens.len();
        Parser {
            tokens,
            env: Env::new(),
            output: Vec::new(),
            input: Lines::waiting(),
            pos: 0,
            end,
            loops: Vec::new(),
        }
    }

    /// Supplies the next input line.
    pub fn supply_line(&mut self, line: Vec<char>)
        requires
            old(self).wf(),
        ensures
            final(self).wf(),
            final(self)@ == (ParserModel { lines: old(self)@.lines.push(line@), ..old(self)@ }),
    {
        self.input.supply(line);
    }

    /// Ends the input: from now on every line past those supplied is empty.
    pub fn close_input(&mut self)
        requires
            old(self).wf(),
        ensures
            final(self).wf(),
            final(self)@ == (ParserModel { open: false, ..old(self)@ }),
    {
        self.input.close();
    }

    /// Whether the run is over.
    pub fn finished(&self) -> (r: bool)
        ensures
            r == finished(self@),
    {
        self.pos >= self.end && self.loops.len() == 0
    }

    /// Evaluates an integer expression at the cursor. The cursor moves past what was read.
    pub fn expression(&mut self) -> (r: Result<i32, Fault>)
        requires
            old(self).wf(),
        ensures
            final(self).wf(),
            moved(old(self)@, final(self)@, r, sum_of(ctx_of(old(self)@), old(self)@.pos, old(self)@.at)),
    {
        let r = match crate::eval::expression(&self.tokens, self.end, &self.env, &mut self.input, self.pos) {
            Ok((v, p)) => {
                self.pos = p;
                Ok(v)
            },
            Err(e) => Err(e),
        };
        proof {
            self.lemma_cursor_moved(old(self));
        }
        r
    }

    /// Evaluates a term (`*` and `/` over factors) at the cursor. The cursor moves past what was read.
    pub fn term(&mut self) -> (r: Result<i32, Fault>)
        requires
            old(self).wf(),
        ensures
            final(self).wf(),
            moved(old(self)@, final(self)@, r, product_of(ctx_of(old(self)@), old(self)@.pos, old(self)@.at)),
    {
        let r = match crate::eval::term(&self.tokens, self.end, &self.env, &mut self.input, self.pos) {
            Ok((v, p)) => {
                self.pos = p;
                Ok(v)
            },
            Err(e) => Err(e),
        };
        proof {
            self.lemma_cursor_moved(old(self));
        }
        r
    }

    /// Evaluates a factor at the cursor. The cursor moves past what was read.
    pub fn factor(&mut self) -> (r: Result<i32, Fault>)
        requires
            old(self).wf(),
        ensures
            final(self).wf(),
            moved(old(self)@, final(self)@, r, factor_of(ctx_of(old(self)@), old(self)@.pos, old(self)@.at)),
    {
        let r = match crate::eval::factor(&self.tokens, self.end, &self.env, &mut self.input, self.pos) {
            Ok((v, p)) => {
                self.pos = p;
                Ok(v)
            },
            Err(e) => Err(e),
        };
        proof {
            self.lemma_cursor_moved(old(self));
        }
        r
    }

    /// Evaluates a boolean expression at the cursor. The cursor moves past what was read.
    pub fn boolean_expr(&mut self) -> (r: Result<bool, Fault>)
        requires
            old(self).wf(),
        ensures
            final(self).wf(),
            moved(old(self)@, final(self)@, r, disjunction_of(ctx_of(old(self)@), old(self)@.pos, old(self)@.at)),
    {
        let r = match crate::eval::boolean_expr(&self.tokens, self.end, &self.env, &mut self.input, self.pos) {
            Ok((v, p)) => {
                self.pos = p;
                Ok(v)
            },
            Err(e) => Err(e),
        };
        proof {
            self.lemma_cursor_moved(old(self));
        }
        r
    }

    /// Evaluates `and ('||' and)*` at the cursor. The cursor moves past what was read.
    pub fn boolean_or(&mut self) -> (r: Result<bool, Fault>)
        requires
            old(self).wf(),
        ensures
            final(self).wf(),
            moved(old(self)@, final(self)@, r, disjunction_of(ctx_of(old(self)@), old(self)@.pos, old(self)@.at)),
    {
        let r = match crate::eval::boolean_or(&self.tokens, self.end, &self.env, &mut self.input, self.pos) {
            Ok((v, p)) => {
                self.pos = p;
                Ok(v)
            },
            Err(e) => Err(e),
        };
        proof {
            self.lemma_cursor_moved(old(self));
        }
        r
    }

    /// Evaluates `comparison ('&&' comparison)*` at the cursor. The cursor moves past what was read.
    pub fn boolean_and(&mut self) -> (r: Result<bool, Fault>)
        requires
            old(self).wf(),
        ensures
            final(self).wf(),
            moved(old(self)@, final(self)@, r, conjunction_of(ctx_of(old(self)@), old(self)@.pos, old(self)@.at)),
    {
        let r = match crate::eval::boolean_and(&self.tokens, self.end, &self.env, &mut self.input, self.pos) {
            Ok((v, p)) => {
                self.pos = p;
                Ok(v)
            },
            Err(e) => Err(e),
        };
        proof {
            self.lemma_cursor_moved(old(self));
        }
        r
    }

    /// Evaluates a comparison or a boolean atom at the cursor. The cursor moves past what was read.
    pub fn bool_comp(&mut self) -> (r: Result<bool, Fault>)
        requires
            old(self).wf(),
        ensures
            final(self).wf(),
            moved(old(self)@, final(self)@, r, comparison_of(ctx_of(old(self)@), old(self)@.pos, old(self)@.at)),
    {
        let r = match crate::eval::bool_comp(&self.tokens, self.end, &self.env, &mut self.input, self.pos) {
            Ok((v, p)) => {
                self.pos = p;
                Ok(v)
            },
            Err(e) => Err(e),
        };
        proof {
            self.lemma_cursor_moved(old(self));
        }
        r
    }

    /// Evaluates a boolean atom at the cursor. The cursor moves past what was read.
    pub fn bool_factor(&mut self) -> (r: Result<bool, Fault>)
        requires
            old(self).wf(),
        ensures
            final(self).wf(),
            moved(old(self)@, final(self)@, r, bool_atom_of(ctx_of(old(self)@), old(self)@.pos, old(self)@.at)),
    {
        let r = match crate::eval::bool_factor(&self.tokens, self.end, &self.env, &mut self.input, self.pos) {
            Ok((v, p)) => {
                self.pos = p;
                Ok(v)
            },
            Err(e) => Err(e),
        };
        proof {
            self.lemma_cursor_moved(old(self));
        }
        r
    }

    /// Evaluates `expression op expression` at the cursor. The cursor moves past what was read.
    pub fn int_comp(&mut self) -> (r: Result<bool, Fault>)
        requires
            old(self).wf(),
        ensures
            final(self).wf(),
            moved(old(self)@, final(self)@, r, int_comparison_of(ctx_of(old(self)@), old(self)@.pos, old(self)@.at)),
    {
        let r = match crate::eval::int_comp(&self.tokens, self.end, &self.env, &mut self.input, self.pos) {
            Ok((v, p)) => {
                self.pos = p;
                Ok(v)
            },
            Err(e) => Err(e),
        };
        proof {
            self.lemma_cursor_moved(old(self));
        }
        r
    }

    /// Concatenates the string operands at the cursor. The cursor moves past what was read.
    pub fn concatination(&mut self) -> (r: Result<Vec<char>, Fault>)
        requires
            old(self).wf(),
        ensures
            final(self).wf(),
            moved_text(old(self)@, final(self)@, r, concat_of(ctx_of(old(self)@), old(self)@.pos, old(self)@.at, seq![])),
    {
        let r = match crate::eval::concatination(&self.tokens, self.end, &self.env, &mut self.input, self.pos) {
            Ok((v, p)) => {
                self.pos = p;
                Ok(v)
            },
            Err(e) => Err(e),
        };
        proof {
            self.lemma_cursor_moved(old(self));
        }
        r
    }

    /// The text of a print statement's operands, from the `(` at the cursor through the closing `)`. The cursor moves past what was read.
    pub fn to_print(&mut self) -> (r: Result<Vec<char>, Fault>)
        requires
            old(self).wf(),
        ensures
            final(self).wf(),
            moved_text(old(self)@, final(self)@, r, print_text(ctx_of(old(self)@), old(self)@.pos, old(self)@.at)),
    {
        let r = match crate::eval::to_print(&self.tokens, self.end, &self.env, &mut self.input, self.pos) {
            Ok((v, p)) => {
                self.pos = p;
                Ok(v)
            },
            Err(e) => Err(e),
        };
        proof {
            self.lemma_cursor_moved(old(self));
        }
        r
    }

    /// The current value of a name: strings first, then integers, then booleans.
    pub fn get_var(&self, name: &Vec<char>) -> (r: Result<Variable<Vec<char>>, Fault>)
        ensures
            match r {
                Ok(v) => resolve(self@.env, name@) == Ok::<Variable<Seq<char>>, Fault>(v@),
                Err(e) => resolve(self@.env, name@) == Err::<Variable<Seq<char>>, Fault>(e),
            },
    {
        self.env.get_var(name)
    }

    /// Reads the next input line as an integer.
    pub fn int_input(&mut self) -> (r: Result<i32, Fault>)
        requires
            old(self).wf(),
        ensures
            final(self).wf(),
            model_ok(final(self)@),
            final(self)@ == (ParserModel {
                at: next_at(old(self)@.lines, old(self)@.at),
                ..old(self)@
            }),
            match int_of_line(line_at(old(self)@.lines, old(self)@.at)) {
                Some(v) => r == Ok::<i32, Fault>(v),
                None => r == Err::<i32, Fault>(Fault::InvalidInput),
            },
    {
        let line = self.input.read_line();
        match parse_int(&line) {
            Some(v) => Ok(v),
            None => Err(Fault::InvalidInput),
        }
    }

    /// Skips a block whose `{` was just consumed: moves the cursor past the
    /// matching `}`, and returns how many tokens it passed.
    pub fn flow_end(&mut self) -> (r: usize)
        requires
            old(self).wf(),
        ensures
            final(self).wf(),
            model_ok(final(self)@),
            final(self)@ == (ParserModel {
                pos: block_end(old(self)@.ts, old(self)@.pos, old(self)@.end, 0),
                ..old(self)@
            }),
            old(self)@.pos + r == final(self)@.pos,
    {
        let n = flow_end(&self.tokens, self.pos, self.end);
        self.pos = self.pos + n;
        n
    }

    /// Runs a declaration of the type that `kw` names.
    #[verifier::rlimit(40)]
    fn declaration(&mut self, kw: Keyword) -> (r: Result<(), Fault>)
        requires
            old(self).wf(),
            old(self)@.pos < old(self)@.end,
        ensures
            final(self).wf(),
            follows(old(self)@, final(self)@, r, declaration(old(self)@, kw)),
    {
        let name_at = self.pos + 1;
        if name_at >= self.end {
            return Err(Fault::ExpectedIdentifier);
        }
        assert(toks(self.tokens@)[name_at as int] == self.tokens@[name_at as int]@);
        let name = match &self.tokens[name_at] {
            Lexeme::Identifier(x) => copy_text(x),
            _ => {
                return Err(Fault::ExpectedIdentifier);
            },
        };
        let p = if name_at + 1 < self.end {
            name_at + 2
        } else {
            name_at + 1
        };
        match kw {
            Keyword::Int => match expression(&self.tokens, self.end, &self.env, &mut self.input, p) {
                Ok((v, q)) => {
                    self.env.ints.insert(name, v);
                    self.pos = if q < self.end {
                        q + 1
                    } else {
                        q
                    };
                    Ok(())
                },
                Err(e) => Err(e),
            },
            Keyword::Str => match concatination(
                &self.tokens,
                self.end,
                &self.env,
                &mut self.input,
                p,
            ) {
                Ok((v, q)) => {
                    self.env.strings.insert(name, v);
                    self.pos = if q < self.end {
                        q + 1
                    } else {
                        q
                    };
                    Ok(())
                },
                Err(e) => Err(e),
            },
            _ => match boolean_expr(&self.tokens, self.end, &self.env, &mut self.input, p) {
                Ok((v, q)) => {
                    self.env.bools.insert(name, v);
                    self.pos = if q < self.end {
                        q + 1
                    } else {
                        q
                    };
                    Ok(())
                },
                Err(e) => Err(e),
            },
        }
    }

    /// Runs `print` or `println`.
    fn print_stmt(&mut self, newline: bool) -> (r: Result<(), Fault>)
        requires
            old(self).wf(),
            old(self)@.pos < old(self)@.end,
        ensures
            final(self).wf(),
            follows(old(self)@, final(self)@, r, print_stmt(old(self)@, newline)),
    {
        match to_print(&self.tokens, self.end, &self.env, &mut self.input, self.pos + 1) {
            Ok((s, p)) => {
                let ghost before = self.output@;
                crate::text::append_text(&mut self.output, &s);
                if newline {
                    self.output.push('\n');
                }
                self.pos = if p < self.end {
                    p + 1
                } else {
                    p
                };
                assert(newline ==> self.output@ =~= before + s@ + seq!['\n']);
                Ok(())
            },
            Err(e) => Err(e),
        }
    }

    /// Runs `if`.
    fn if_stmt(&mut self) -> (r: Result<(), Fault>)
        requires
            old(self).wf(),
            old(self)@.pos < old(self)@.end,
        ensures
            final(self).wf(),
            follows(old(self)@, final(self)@, r, if_stmt(old(self)@)),
    {
        match boolean_expr(&self.tokens, self.end, &self.env, &mut self.input, self.pos + 1) {
            Ok((b, p)) => {
                if b {
                    self.pos = p;
                } else {
                    let q = skip(&self.tokens, p, self.end);
                    if q < self.end && matches!(self.tokens[q], Lexeme::Keyword(Keyword::Else)) {
                        assert(toks(self.tokens@)[q as int] == self.tokens@[q as int]@);
                        self.pos = q + 1;
                    } else {
                        proof {
                            if q < self.end {
                                assert(toks(self.tokens@)[q as int] == self.tokens@[q as int]@);
                            }
                        }
                        self.pos = q;
                    }
                }
                Ok(())
            },
            Err(e) => Err(e),
        }
    }

    /// Runs `while`: captures its condition and body, and pushes the loop.
    fn while_stmt(&mut self)
        requires
            old(self).wf(),
            old(self)@.pos < old(self)@.end,
        ensures
            final(self).wf(),
            model_ok(final(self)@),
            final(self)@ == while_stmt(old(self)@),
    {
        let cs = self.pos + 1;
        let ce = find_brace(&self.tokens, cs, self.end);
        let bs = if ce < self.end {
            ce + 1
        } else {
            self.end
        };
        let be = bs + flow_end(&self.tokens, bs, self.end);
        let f = LoopFrame {
            cond_start: cs,
            cond_end: ce,
            body_start: bs,
            body_end: be,
            resume_pos: be,
            resume_end: self.end,
        };
        let ghost before = self.loops@;
        self.loops.push(f);
        self.pos = be;
        self.end = be;
        assert forall|i: int| 0 <= i < self@.loops.len() implies frame_ok(
            #[trigger] self@.loops[i],
            self@.ts.len() as int,
        ) by {
            if i < before.len() {
                assert(self@.loops[i] == old(self)@.loops[i]);
            }
        }
    }

    /// Runs a bare assignment to the name at the cursor.
    fn assignment(&mut self) -> (r: Result<(), Fault>)
        requires
            old(self).wf(),
            old(self)@.pos < old(self)@.end,
            old(self)@.ts[old(self)@.pos] is Identifier,
        ensures
            final(self).wf(),
            follows(
                old(self)@,
                final(self)@,
                r,
                assignment(old(self)@, old(self)@.ts[old(self)@.pos]->Identifier_0),
            ),
    {
        let ghost m = self@;
        assert(toks(self.tokens@)[self.pos as int] == self.tokens@[self.pos as int]@);
        let name = match &self.tokens[self.pos] {
            Lexeme::Identifier(x) => copy_text(x),
            _ => Vec::new(),
        };
        let p = if self.pos + 1 < self.end {
            self.pos + 2
        } else {
            self.pos + 1
        };
        if p >= self.end {
            return Err(Fault::UnexpectedEnd);
        }
        assert(toks(self.tokens@)[p as int] == self.tokens@[p as int]@);
        let as_int = match &self.tokens[p] {
            Lexeme::Text(_) => false,
            Lexeme::Number(_) => true,
            Lexeme::Identifier(n) => {
                if self.env.ints.contains(n) {
                    true
                } else if self.env.strings.contains(n) {
                    false
                } else {
                    return Err(Fault::UnsupportedAssignment);
                }
            },
            _ => {
                return Err(Fault::UnexpectedToken);
            },
        };
        if as_int {
            match expression(&self.tokens, self.end, &self.env, &mut self.input, p) {
                Ok((v, q)) => {
                    self.env.ints.insert(name, v);
                    self.pos = if q < self.end {
                        q + 1
                    } else {
                        q
                    };
                    Ok(())
                },
                Err(e) => Err(e),
            }
        } else {
            match concatination(&self.tokens, self.end, &self.env, &mut self.input, p) {
                Ok((v, q)) => {
                    self.env.strings.insert(name, v);
                    self.pos = if q < self.end {
                        q + 1
                    } else {
                        q
                    };
                    Ok(())
                },
                Err(e) => Err(e),
            }
        }
    }

    /// Tests the condition of the innermost loop.
    fn loop_test(&mut self) -> (r: Result<(), Fault>)
        requires
            old(self).wf(),
            old(self)@.loops.len() > 0,
        ensures
            final(self).wf(),
            follows(old(self)@, final(self)@, r, loop_test(old(self)@)),
    {
        let f = self.loops[self.loops.len() - 1];
        assert(frame_ok(self@.loops[self.loops@.len() - 1], self@.ts.len() as int));
        match boolean_expr(&self.tokens, f.cond_end, &self.env, &mut self.input, f.cond_start) {
            Ok((b, _)) => {
                if b {
                    self.pos = f.body_start;
                    self.end = f.body_end;
                } else {
                    self.loops.pop();
                    self.pos = f.resume_pos;
                    self.end = f.resume_end;
                }
                Ok(())
            },
            Err(e) => Err(e),
        }
    }

    /// Runs one step: the statement at the cursor, or a loop test. A step
    /// that fails changes nothing, so that it can be run again, for instance
    /// once the line it waited for is supplied.
    pub fn step(&mut self) -> (r: Result<(), Fault>)
        requires
            old(self).wf(),
            !finished(old(self)@),
        ensures
            final(self).wf(),
            match step(old(self)@) {
                Ok(n) => r is Ok && final(self)@ == n,
                Err(e) => r == Err::<(), Fault>(e) && final(self)@ == old(self)@,
            },
    {
        let saved = self.input.position();
        let r = self.run_step();
        match r {
            Ok(()) => Ok(()),
            Err(e) => {
                self.input.rewind(saved);
                Err(e)
            },
        }
    }

    fn run_step(&mut self) -> (r: Result<(), Fault>)
        requires
            old(self).wf(),
            !finished(old(self)@),
        ensures
            final(self).wf(),
            follows(old(self)@, final(self)@, r, step(old(self)@)),
    {
        if self.pos >= self.end {
            return self.loop_test();
        }
        assert(toks(self.tokens@)[self.pos as int] == self.tokens@[self.pos as int]@);
        match &self.tokens[self.pos] {
            Lexeme::Keyword(Keyword::Int) => self.declaration(Keyword::Int),
            Lexeme::Keyword(Keyword::Str) => self.declaration(Keyword::Str),
            Lexeme::Keyword(Keyword::Bool) => self.declaration(Keyword::Bool),
            Lexeme::Keyword(Keyword::Print) => self.print_stmt(false),
            Lexeme::Keyword(Keyword::Println) => self.print_stmt(true),
            Lexeme::Keyword(Keyword::If) => self.if_stmt(),
            Lexeme::Keyword(Keyword::Else) => {
                self.pos = skip(&self.tokens, self.pos + 1, self.end);
                Ok(())
            },
            Lexeme::Keyword(Keyword::While) => {
                self.while_stmt();
                Ok(())
            },
            Lexeme::Identifier(_) => self.assignment(),
            _ => {
                self.pos = self.pos + 1;
                Ok(())
            },
        }
    }

    /// Runs at most `fuel` steps, until the program is over or a fault stops
    /// it.
    pub fn parse(&mut self, fuel: u64) -> (r: Result<(), Fault>)
        requires
            old(self).wf(),
        ensures
            final(self).wf(),
            final(self)@ == run(old(self)@, fuel as nat).0,
            match run(old(self)@, fuel as nat).1 {
                None => r is Ok,
                Some(e) => r == Err::<(), Fault>(e),
            },
    {
        let mut left = fuel;
        loop
            invariant
                self.wf(),
                run(self@, left as nat) == run(old(self)@, fuel as nat),
            decreases left,
        {
            if self.finished() {
                return Ok(());
            }
            if left == 0 {
                return Err(Fault::OutOfFuel);
            }
            match self.step() {
                Ok(()) => {
                    left = left - 1;
                },
                Err(e) => {
                    return Err(e);
                },
            }
        }
    }
}

/// Runs a program on the given input lines for at most `fuel` steps. The
/// interpreter is returned with its variables and output, beside the fault
/// that stopped the run, if any.
pub fn run_program(source: &str, lines: Vec<Vec<char>>, fuel: u64) -> (r: (Parser, Result<(), Fault>))
    ensures
        ({
            let (m, f) = run(
                start(lex_tokens(source@), lines@.map_values(|l: Vec<char>| l@)),
                fuel as nat,
            );
            &&& r.0@ == m
            &&& r.0.wf()
            &&& match f {
                None => r.1 is Ok,
                Some(e) => r.1 == Err::<(), Fault>(e),
            }
        }),
{
    let mut p = Parser::new(source, lines);
    let r = p.parse(fuel);
    (p, r)
}

} // verus!
