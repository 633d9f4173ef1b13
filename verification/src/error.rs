//! Errors of calls on objects, and the faults that end a program.
use vstd::prelude::*;
use crate::syntax::{ParseError, SParseError, SParseErrorKind, ParseErrorKind};
use crate::text::{int_text, push_all, usize_text, copy_chars};

verus! {

/// The error a call on an object returns.
pub enum TrashError {
    UnknownMethod(Vec<char>),
    NotEnoughArgs(usize, usize),
    UnexpectedType(Vec<char>, Vec<char>),
    OutOfBounds,
    LinearTypeCloning,
    Custom(Vec<char>),
}

pub enum SError {
    UnknownMethod(Seq<char>),
    NotEnoughArgs(usize, usize),
    UnexpectedType(Seq<char>, Seq<char>),
    OutOfBounds,
    LinearTypeCloning,
    Custom(Seq<char>),
}

impl View for TrashError {
    type V = SError;

    open spec fn view(&self) -> SError {
        match self {
            TrashError::UnknownMethod(m) => SError::UnknownMethod(m@),
            TrashError::NotEnoughArgs(a, b) => SError::NotEnoughArgs(*a, *b),
            TrashError::UnexpectedType(t, v) => SError::UnexpectedType(t@, v@),
            TrashError::OutOfBounds => SError::OutOfBounds,
            TrashError::LinearTypeCloning => SError::LinearTypeCloning,
            TrashError::Custom(s) => SError::Custom(s@),
        }
    }
}

/// Why a program stopped.
pub enum Fault {
    /// A call returned this error; it has not yet reached the object or
    /// statement that made the call.
    Failed(TrashError),
    /// The call written as the object with this source text returned the
    /// error, or copying the variable written so failed.
    FailedAt(TrashError, Vec<char>),
    /// The call of a statement returned the error.
    StatementFailed(TrashError),
    /// `$name` or `@name` (the name, then the source text of the object)
    /// where no such variable is in reach.
    NoSuchVariable(Vec<char>, Vec<char>),
    /// A tuple target of `$set` with this many names got a value with that many items.
    TupleLengthMismatch(usize, usize),
    /// An integer or boolean was called with a method it does not have.
    UnknownMethod(Vec<char>),
    /// The condition of `if` gave neither `true` nor `false`.
    NotBoolean(Vec<char>),
    /// Integer arithmetic overflowed or divided by zero.
    Arithmetic,
    /// The program text was rejected.
    Syntax(ParseError),
    /// Calls were nested, or loops ran, deeper than the budget allows.
    OutOfFuel,
}

pub enum SFault {
    Failed(SError),
    FailedAt(SError, Seq<char>),
    StatementFailed(SError),
    NoSuchVariable(Seq<char>, Seq<char>),
    TupleLengthMismatch(nat, nat),
    UnknownMethod(Seq<char>),
    NotBoolean(Seq<char>),
    Arithmetic,
    Syntax(SParseError),
    OutOfFuel,
}

impl View for Fault {
    type V = SFault;

    open spec fn view(&self) -> SFault {
        match self {
            Fault::Failed(e) => SFault::Failed(e@),
            Fault::FailedAt(e, at) => SFault::FailedAt(e@, at@),
            Fault::StatementFailed(e) => SFault::StatementFailed(e@),
            Fault::NoSuchVariable(n, at) => SFault::NoSuchVariable(n@, at@),
            Fault::TupleLengthMismatch(a, b) => SFault::TupleLengthMismatch(*a as nat, *b as nat),
            Fault::UnknownMethod(m) => SFault::UnknownMethod(m@),
            Fault::NotBoolean(s) => SFault::NotBoolean(s@),
            Fault::Arithmetic => SFault::Arithmetic,
            Fault::Syntax(e) => SFault::Syntax(e@),
            Fault::OutOfFuel => SFault::OutOfFuel,
        }
    }
}

/// The text of an error, as the interpreter prints it.
pub open spec fn error_message(e: SError) -> Seq<char> {
    match e {
        SError::UnknownMethod(m) => "Unknown method: "@ + m + "\n"@,
        SError::NotEnoughArgs(p, x) => "Expected "@ + int_text(p as int) + " arguments, found "@
            + int_text(x as int) + "\n"@,
        SError::UnexpectedType(t, v) => "Expected value of type "@ + t + ", found value "@ + v
            + "\n"@,
        SError::OutOfBounds => "Index out of bounds\n"@,
        SError::LinearTypeCloning => "Can't clone value of linear type\n"@,
        SError::Custom(s) => s + "\n"@,
    }
}

/// The characters of a string literal.
pub fn lit(s: &str) -> (r: Vec<char>)
    ensures
        r@ == s@,
{
    let mut r: Vec<char> = Vec::new();
    broadcast use vstd::string::group_string_axioms;

    for c in it: s.chars()
        invariant
            r@ == it.seq().take(it.index() as int),
    {
        r.push(c);
    }
    assert(r@ =~= s@);
    r
}

fn concat3(a: &Vec<char>, b: &Vec<char>, c: &Vec<char>) -> (r: Vec<char>)
    ensures
        r@ == a@ + b@ + c@,
{
    let mut r = copy_chars(a);
    push_all(&mut r, b);
    push_all(&mut r, c);
    r
}

impl TrashError {
    /// The text `{:?}` gives for this error.
    pub fn debug(&self) -> (r: Vec<char>)
        ensures
            r@ == error_debug(self@),
    {
        match self {
            TrashError::UnknownMethod(m) => concat3(&lit("UnknownMethod("), &debug_text(m), &lit(")")),
            TrashError::NotEnoughArgs(p, x) => {
                let mut r = concat3(&lit("NotEnoughArgs("), &usize_text(*p), &lit(", "));
                push_all(&mut r, &usize_text(*x));
                push_all(&mut r, &lit(")"));
                r
            },
            TrashError::UnexpectedType(t, v) => {
                let mut r = concat3(&lit("UnexpectedType("), &debug_text(t), &lit(", "));
                push_all(&mut r, &debug_text(v));
                push_all(&mut r, &lit(")"));
                r
            },
            TrashError::OutOfBounds => lit("OutOfBounds"),
            TrashError::LinearTypeCloning => lit("LinearTypeCloning"),
            TrashError::Custom(s) => concat3(&lit("Custom("), &debug_text(s), &lit(")")),
        }
    }

    /// The text of this error.
    pub fn message(&self) -> (r: Vec<char>)
        ensures
            r@ == error_message(self@),
    {
        match self {
            TrashError::UnknownMethod(m) => concat3(&lit("Unknown method: "), m, &lit("\n")),
            TrashError::NotEnoughArgs(p, x) => {
                let mut r = concat3(&lit("Expected "), &usize_text(*p), &lit(" arguments, found "));
                push_all(&mut r, &usize_text(*x));
                push_all(&mut r, &lit("\n"));
                r
            },
            TrashError::UnexpectedType(t, v) => {
                let mut r = concat3(&lit("Expected value of type "), t, &lit(", found value "));
                push_all(&mut r, v);
                push_all(&mut r, &lit("\n"));
                r
            },
            TrashError::OutOfBounds => lit("Index out of bounds\n"),
            TrashError::LinearTypeCloning => lit("Can't clone value of linear type\n"),
            TrashError::Custom(s) => {
                let mut r = copy_chars(s);
                push_all(&mut r, &lit("\n"));
                r
            },
        }
    }
}

/// The text of a rejection of program text.
pub open spec fn parse_message(e: SParseError) -> Seq<char> {
    let what = match e.kind {
        SParseErrorKind::Syntax => "Syntax error"@,
        SParseErrorKind::ExpectedVariableName => "Expected variable name"@,
        SParseErrorKind::ExpectedVariableValue => "Expected variable value"@,
        SParseErrorKind::ExpectedNameOrTuple => "Expected string or tuple"@,
        SParseErrorKind::GuaranteedMoved(n) => "Error, variable "@ + n + " is guaranteed moved"@,
    };
    what + " at position "@ + int_text(e.pos)
}

/// What `{:?}` gives for a string: the string quoted, with its special
/// characters escaped.
pub uninterp spec fn debug_str(s: Seq<char>) -> Seq<char>;

/// `<str as Debug>::fmt`, through `format!("{:?}", ..)`.
#[verifier::external_body]
fn debug_text(s: &Vec<char>) -> (r: Vec<char>)
    ensures
        r@ == debug_str(s@),
{
    let t: String = s.iter().collect();
    format!("{:?}", t).chars().collect()
}

/// What `{:?}` gives for an error.
pub open spec fn error_debug(e: SError) -> Seq<char> {
    match e {
        SError::UnknownMethod(m) => "UnknownMethod("@ + debug_str(m) + ")"@,
        SError::NotEnoughArgs(p, x) => "NotEnoughArgs("@ + int_text(p as int) + ", "@ + int_text(
            x as int,
        ) + ")"@,
        SError::UnexpectedType(t, v) => "UnexpectedType("@ + debug_str(t) + ", "@ + debug_str(v)
            + ")"@,
        SError::OutOfBounds => "OutOfBounds"@,
        SError::LinearTypeCloning => "LinearTypeCloning"@,
        SError::Custom(s) => "Custom("@ + debug_str(s) + ")"@,
    }
}

/// The text of a fault, as the interpreter reports it.
pub open spec fn fault_message(f: SFault) -> Seq<char> {
    match f {
        SFault::Failed(e) => "Error: "@ + error_message(e),
        SFault::FailedAt(e, at) => "Error: "@ + error_message(e) + " at "@ + at,
        SFault::StatementFailed(e) => "called `Result::unwrap()` on an `Err` value: "@
            + error_debug(e),
        SFault::NoSuchVariable(n, at) => "No such variable, "@ + n + "\n at "@ + at,
        SFault::TupleLengthMismatch(a, b) => "Error in set operator, expected tuple with length "@
            + int_text(a as int) + ", found tuple with length "@ + int_text(b as int),
        SFault::UnknownMethod(m) => "Unknown method "@ + m,
        SFault::NotBoolean(s) => "Expected true or false, found "@ + s,
        SFault::Arithmetic => "Integer overflow or division by zero"@,
        SFault::Syntax(e) => parse_message(e),
        SFault::OutOfFuel => "Calls nested too deep"@,
    }
}

impl ParseError {
    /// The text of this rejection.
    pub fn message(&self) -> (r: Vec<char>)
        ensures
            r@ == parse_message(self@),
    {
        let mut r = match &self.kind {
            ParseErrorKind::Syntax => lit("Syntax error"),
            ParseErrorKind::ExpectedVariableName => lit("Expected variable name"),
            ParseErrorKind::ExpectedVariableValue => lit("Expected variable value"),
            ParseErrorKind::ExpectedNameOrTuple => lit("Expected string or tuple"),
            ParseErrorKind::GuaranteedMoved(n) => concat3(
                &lit("Error, variable "),
                n,
                &lit(" is guaranteed moved"),
            ),
        };
        push_all(&mut r, &lit(" at position "));
        push_all(&mut r, &usize_text(self.pos));
        r
    }
}

impl Fault {
    /// The text of this fault.
    pub fn message(&self) -> (r: Vec<char>)
        ensures
            r@ == fault_message(self@),
    {
        match self {
            Fault::Failed(e) => {
                let mut r = lit("Error: ");
                push_all(&mut r, &e.message());
                r
            },
            Fault::FailedAt(e, at) => {
                let mut r = lit("Error: ");
                push_all(&mut r, &e.message());
                push_all(&mut r, &lit(" at "));
                push_all(&mut r, at);
                r
            },
            Fault::StatementFailed(e) => {
                let mut r = lit("called `Result::unwrap()` on an `Err` value: ");
                push_all(&mut r, &e.debug());
                r
            },
            Fault::NoSuchVariable(n, at) => {
                let mut r = concat3(&lit("No such variable, "), n, &lit("\n at "));
                push_all(&mut r, at);
                r
            },
            Fault::TupleLengthMismatch(a, b) => {
                let mut r = concat3(
                    &lit("Error in set operator, expected tuple with length "),
                    &usize_text(*a),
                    &lit(", found tuple with length "),
                );
                push_all(&mut r, &usize_text(*b));
                r
            },
            Fault::UnknownMethod(m) => {
                let mut r = lit("Unknown method ");
                push_all(&mut r, m);
                r
            },
            Fault::NotBoolean(s) => {
                let mut r = lit("Expected true or false, found ");
                push_all(&mut r, s);
                r
            },
            Fault::Arithmetic => lit("Integer overflow or division by zero"),
            Fault::Syntax(e) => e.message(),
            Fault::OutOfFuel => lit("Calls nested too deep"),
        }
    }
}

} // verus!
