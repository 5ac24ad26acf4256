use vstd::prelude::*;
use crate::scope::Scope;
use crate::text::copy_text;

verus! {

/// Fatal conditions that stop a run.
#[derive(Clone, Copy, Debug, PartialEq, Eq, Structural)]
pub enum Fault {
    /// A name that is bound in no namespace where one was needed.
    UnknownIdentifier,
    /// A type keyword not followed by a name.
    ExpectedIdentifier,
    /// A parenthesised expression without its closing `)`.
    MissingCloseParen,
    /// An input line that does not hold an integer where one was needed.
    InvalidInput,
    DivisionByZero,
    /// Integer arithmetic whose result does not fit in 32 bits.
    Overflow,
    /// A token that the grammar does not allow where it stands.
    UnexpectedToken,
    /// The tokens ran out where one more was needed.
    UnexpectedEnd,
    /// A name of the wrong type in a string expression.
    TypeMismatch,
    /// A bare assignment whose right-hand side is neither a string nor an
    /// integer.
    UnsupportedAssignment,
    /// The step budget of a run was used up.
    OutOfFuel,
    /// A line of input is needed that has not been supplied yet, while more
    /// may come.
    AwaitingInput,
}

/// The current value of a name, of one of the three types.
#[derive(Clone, Debug, PartialEq, Eq)]
pub enum Variable<S> {
    Str(S),
    Int(i32),
    Bool(bool),
}

impl View for Variable<Vec<char>> {
    type V = Variable<Seq<char>>;

    open spec fn view(&self) -> Variable<Seq<char>> {
        match self {
            Variable::Str(s) => Variable::Str(s@),
            Variable::Int(n) => Variable::Int(*n),
            Variable::Bool(b) => Variable::Bool(*b),
        }
    }
}

/// The three namespaces as maps.
pub struct EnvModel {
    pub ints: Map<Seq<char>, i32>,
    pub strings: Map<Seq<char>, Seq<char>>,
    pub bools: Map<Seq<char>, bool>,
}

/// The variables of a run: three independent namespaces.
pub struct Env {
    pub ints: Scope<i32>,
    pub strings: Scope<Vec<char>>,
    pub bools: Scope<bool>,
}

impl View for Env {
    type V = EnvModel;

    open spec fn view(&self) -> EnvModel {
        EnvModel { ints: self.ints@, strings: self.strings@, bools: self.bools@ }
    }
}

/// The value of a name: the string namespace first, then the integer one,
/// then the boolean one.
pub open spec fn resolve(env: EnvModel, name: Seq<char>) -> Result<Variable<Seq<char>>, Fault> {
    if env.strings.contains_key(name) {
        Ok(Variable::Str(env.strings[name]))
    } else if env.ints.contains_key(name) {
        Ok(Variable::Int(env.ints[name]))
    } else if env.bools.contains_key(name) {
        Ok(Variable::Bool(env.bools[name]))
    } else {
        Err(Fault::UnknownIdentifier)
    }
}

impl Env {
    /// Each namespace binds each name once.
    pub open spec fn wf(&self) -> bool {
        self.ints.wf() && self.strings.wf() && self.bools.wf()
    }

    pub fn new() -> (r: Env)
        ensures
            r.wf(),
            r@.ints == Map::<Seq<char>, i32>::empty(),
            r@.strings == Map::<Seq<char>, Seq<char>>::empty(),
            r@.bools == Map::<Seq<char>, bool>::empty(),
    {
        Env { ints: Scope::new(), strings: Scope::new(), bools: Scope::new() }
    }

    /// The current value of a name.
    pub fn get_var(&self, name: &Vec<char>) -> (r: Result<Variable<Vec<char>>, Fault>)
        ensures
            match r {
                Ok(v) => resolve(self@, name@) == Ok::<Variable<Seq<char>>, Fault>(v@),
                Err(e) => resolve(self@, name@) == Err::<Variable<Seq<char>>, Fault>(e),
            },
    {
        if let Some(s) = self.strings.get(name) {
            Ok(Variable::Str(copy_text(s)))
        } else if let Some(n) = self.ints.get(name) {
            Ok(Variable::Int(*n))
        } else if let Some(b) = self.bools.get(name) {
            Ok(Variable::Bool(*b))
        } else {
            Err(Fault::UnknownIdentifier)
        }
    }
}

/// The line at index `at`, or an empty line past the end of the input.
pub open spec fn line_at(lines: Seq<Seq<char>>, at: int) -> Seq<char> {
    if 0 <= at < lines.len() {
        lines[at]
    } else {
        seq![]
    }
}

/// The index of the next line after reading at `at`.
pub open spec fn next_at(lines: Seq<Seq<char>>, at: int) -> int {
    if 0 <= at < lines.len() {
        at + 1
    } else {
        at
    }
}

/// A source of input lines, read one at a time. While it is open, more
/// lines may still be supplied; once closed, every line past the end is
/// empty.
pub struct Lines {
    lines: Vec<Vec<char>>,
    next: usize,
    open: bool,
}

impl Lines {
    /// All the lines.
    pub closed spec fn all(&self) -> Seq<Seq<char>> {
        self.lines@.map_values(|l: Vec<char>| l@)
    }

    /// The index of the next line to read.
    pub closed spec fn at(&self) -> int {
        self.next as int
    }

    /// Whether more lines may still be supplied.
    pub closed spec fn more(&self) -> bool {
        self.open
    }

    /// A closed source of the given lines.
    pub fn new(lines: Vec<Vec<char>>) -> (r: Lines)
        ensures
            r.all() == lines@.map_values(|l: Vec<char>| l@),
            r.at() == 0,
            !r.more(),
    {
        Lines { lines, next: 0, open: false }
    }

    /// An open source with no lines yet.
    pub fn waiting() -> (r: Lines)
        ensures
            r.all() == Seq::<Seq<char>>::empty(),
            r.at() == 0,
            r.more(),
    {
        Lines { lines: Vec::new(), next: 0, open: true }
    }

    /// Adds a line at the end.
    pub fn supply(&mut self, line: Vec<char>)
        ensures
            final(self).all() == old(self).all().push(line@),
            final(self).at() == old(self).at(),
            final(self).more() == old(self).more(),
    {
        self.lines.push(line);
        assert(self.all() =~= old(self).all().push(line@));
    }

    /// Marks the end of the input: no more lines will come.
    pub fn close(&mut self)
        ensures
            final(self).all() == old(self).all(),
            final(self).at() == old(self).at(),
            !final(self).more(),
    {
        self.open = false;
    }

    /// Whether reading now must wait for a line that has not come yet.
    pub fn awaiting(&self) -> (r: bool)
        ensures
            r == (self.more() && self.at() >= self.all().len()),
    {
        self.open && self.next >= self.lines.len()
    }

    /// The index of the next line to read.
    pub fn position(&self) -> (r: usize)
        ensures
            r == self.at(),
    {
        self.next
    }

    /// Goes back to reading at line `p`.
    pub fn rewind(&mut self, p: usize)
        ensures
            final(self).all() == old(self).all(),
            final(self).at() == p,
            final(self).more() == old(self).more(),
    {
        self.next = p;
    }

    /// Reads the next line; past the end of the input every line is empty.
    pub fn read_line(&mut self) -> (r: Vec<char>)
        requires
            0 <= old(self).at() <= old(self).all().len(),
        ensures
            r@ == line_at(old(self).all(), old(self).at()),
            final(self).all() == old(self).all(),
            final(self).at() == next_at(old(self).all(), old(self).at()),
            final(self).more() == old(self).more(),
            0 <= final(self).at() <= final(self).all().len(),
    {
        if self.next < self.lines.len() {
            let r = copy_text(&self.lines[self.next]);
            self.next = self.next + 1;
            r
        } else {
            Vec::new()
        }
    }
}

} // verus!
