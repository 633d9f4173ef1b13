//! The environment a program starts in.
use vstd::prelude::*;
use crate::value::{Value, Obj, Int, IfStatement, WhileStatement};
use crate::vars::{Vars, m_frames};
use crate::world::{World, WriteStream, ReadStream, SWorld};
use crate::error::lit;

verus! {

/// The program's own frame: its output and input streams, and `puts`, which
/// writes to the output.
pub open spec fn stdlib_vars() -> Map<Seq<char>, Obj> {
    Map::empty().insert("stdout"@, Obj::Stdout).insert("stdin"@, Obj::Stdin).insert(
        "puts"@,
        Obj::Puts,
    )
}

/// The frame below it: the builtins `if`, `while` and `int`.
pub open spec fn stdlib_scope() -> Seq<Map<Seq<char>, Obj>> {
    seq![Map::empty().insert("if"@, Obj::If).insert("while"@, Obj::While).insert("int"@, Obj::IntFn)]
}

/// The frame of a program, the frames below it, and the streams `stdout` and
/// `stdin` stand for.
pub fn stdlib(stdout: WriteStream, stdin: ReadStream) -> (r: (Vars, Vec<Vars>, World))
    ensures
        r.0@ == stdlib_vars(),
        m_frames(r.1@) == stdlib_scope(),
        r.2@ == (SWorld { out: stdout.written@, input: stdin.data@, pos: stdin.pos as int }),
{
    let mut s = Vars::new();
    s.add(lit("if"), Value::If(IfStatement));
    s.add(lit("while"), Value::While(WhileStatement));
    s.add(lit("int"), Value::IntFn(Int));
    let mut v = Vars::new();
    v.add(lit("stdout"), Value::Stdout);
    v.add(lit("stdin"), Value::Stdin);
    v.add(lit("puts"), Value::Puts);
    let scope = vec![s];
    assert(m_frames(scope@) =~= stdlib_scope());
    (v, scope, World { stdout, stdin })
}

} // verus!
