//! What running a Trash program does, as spec functions.
//!
//! The state is a stack of frames (the last is the current one; the frames
//! below are the callers') and the streams.  Evaluation is given a budget of
//! fuel: every call and every round of `while` uses one unit, and a program
//! that would need more stops with `OutOfFuel`.
use vstd::prelude::*;
use crate::syntax::{SBlock, SObjDef, SDef, SParseError, SParseErrorKind, p_program};
use crate::check::{check_program, is_set_call};
use crate::value::{Obj, display, to_tuple, has_stream};
use crate::error::{SError, SFault};
use crate::methods::{str_call, int_call, bool_call, int_obj, bool_obj, bool_of, failed};
use crate::vars::{frame_of, lookup};
use crate::text::{parse_isize_spec, parse_usize_spec, parse_i64_spec, white_space};
use crate::world::{SWorld, write_out, read_in};

verus! {

/// The state of a running program.
pub struct St {
    pub frames: Seq<Map<Seq<char>, Obj>>,
    pub world: SWorld,
}

/// Takes the variable `n` out of the current frame.
pub open spec fn take_var(st: St, n: Seq<char>) -> (Option<Obj>, St) {
    if st.frames.len() > 0 && st.frames.last().contains_key(n) {
        (
            Some(st.frames.last()[n]),
            St {
                frames: st.frames.update(st.frames.len() - 1, st.frames.last().remove(n)),
                ..st
            },
        )
    } else {
        (None, st)
    }
}

/// Sets the variable `n` of the current frame.
pub open spec fn set_var(st: St, n: Seq<char>, v: Obj) -> St {
    if st.frames.len() > 0 {
        St { frames: st.frames.update(st.frames.len() - 1, st.frames.last().insert(n, v)), ..st }
    } else {
        st
    }
}

pub open spec fn push_frame(st: St, f: Map<Seq<char>, Obj>) -> St {
    St { frames: st.frames.push(f), ..st }
}

pub open spec fn pop_frame(st: St) -> St {
    if st.frames.len() > 0 {
        St { frames: st.frames.drop_last(), ..st }
    } else {
        st
    }
}

pub open spec fn text_else() -> Seq<char> {
    "else"@
}

/// The body of program text: parsed and checked.
pub open spec fn prepare(text: Seq<char>) -> Result<SBlock, SParseError> {
    match p_program(text) {
        Err(e) => Err(e),
        Ok(b) => match check_program(b) {
            Some(e) => Err(e),
            None => Ok(b),
        },
    }
}

/// Assigns `v` to the target of `$set`: a name, or a tuple of targets that
/// takes the items of `v` one by one.  A failure keeps the assignments made
/// before it.
pub open spec fn assign(t: SObjDef, v: Obj, st: St) -> (Option<SFault>, St)
    decreases t,
{
    match t.def {
        SDef::Str(n) => (None, set_var(st, n, v)),
        SDef::Tuple(targets) => {
            let vs = to_tuple(v);
            if targets.len() != vs.len() {
                (Some(SFault::TupleLengthMismatch(targets.len(), vs.len())), st)
            } else {
                assign_list(targets, vs, st)
            }
        },
        _ => (
            Some(
                SFault::Syntax(
                    SParseError { pos: t.start, kind: SParseErrorKind::ExpectedNameOrTuple },
                ),
            ),
            st,
        ),
    }
}

pub open spec fn assign_list(targets: Seq<SObjDef>, vs: Seq<Obj>, st: St) -> (Option<SFault>, St)
    decreases targets,
{
    if targets.len() == 0 || vs.len() == 0 {
        (None, st)
    } else {
        match assign(targets[0], vs[0], st) {
            (Some(e), st1) => (Some(e), st1),
            (None, st1) => assign_list(
                targets.subrange(1, targets.len() as int),
                vs.subrange(1, vs.len() as int),
                st1,
            ),
        }
    }
}

/// An error a call returned, reported at the object written as `at`; other
/// outcomes pass unchanged.
pub open spec fn located(r: (Result<Obj, SFault>, St), at: Seq<char>) -> (Result<Obj, SFault>, St) {
    match r.0 {
        Err(SFault::Failed(e)) => (Err(SFault::FailedAt(e, at)), r.1),
        _ => r,
    }
}

/// An error the call of a statement returned, reported as such; other
/// outcomes pass unchanged.
pub open spec fn unwrapped(r: (Result<Obj, SFault>, St)) -> (Result<Obj, SFault>, St) {
    match r.0 {
        Err(SFault::Failed(e)) => (Err(SFault::StatementFailed(e)), r.1),
        _ => r,
    }
}

/// Runs a body: the result of its last call, or the empty string when the
/// last call is `$set` or there is none.
pub open spec fn ev_block(fuel: nat, b: SBlock, st: St) -> (Result<Obj, SFault>, St)
    decreases fuel, 1nat, b,
{
    ev_calls(fuel, b.calls, Obj::Str(Seq::empty()), st)
}

/// Runs calls in order; `last` is the result so far.
pub open spec fn ev_calls(fuel: nat, calls: Seq<Seq<SObjDef>>, last: Obj, st: St) -> (
    Result<Obj, SFault>,
    St,
)
    decreases fuel, 1nat, calls,
{
    if calls.len() == 0 {
        (Ok(last), st)
    } else {
        let call = calls[0];
        let rest = calls.subrange(1, calls.len() as int);
        if is_set_call(call) {
            if call.len() < 2 {
                (
                    Err(
                        SFault::Syntax(
                            SParseError {
                                pos: call[0].start,
                                kind: SParseErrorKind::ExpectedVariableName,
                            },
                        ),
                    ),
                    st,
                )
            } else if call.len() < 3 {
                (
                    Err(
                        SFault::Syntax(
                            SParseError {
                                pos: call[0].start,
                                kind: SParseErrorKind::ExpectedVariableValue,
                            },
                        ),
                    ),
                    st,
                )
            } else {
                match ev_obj(fuel, call[2], st) {
                    (Err(e), st1) => (Err(e), st1),
                    (Ok(v), st1) => match assign(call[1], v, st1) {
                        (Some(e), st2) => (Err(e), st2),
                        (None, st2) => ev_calls(fuel, rest, Obj::Str(Seq::empty()), st2),
                    },
                }
            }
        } else if call.len() == 0 {
            ev_calls(fuel, rest, Obj::Str(Seq::empty()), st)
        } else {
            match ev_obj(fuel, call[0], st) {
                (Err(e), st1) => (Err(e), st1),
                (Ok(f), st1) => match ev_list(fuel, call.subrange(1, call.len() as int), st1) {
                    (Err(e), st2) => (Err(e), st2),
                    (Ok(args), st2) => match unwrapped(invoke(fuel, f, args, st2)) {
                        (Err(e), st3) => (Err(e), st3),
                        (Ok(r), st3) => ev_calls(fuel, rest, r, st3),
                    },
                },
            }
        }
    }
}

/// Evaluates an object of the program.
pub open spec fn ev_obj(fuel: nat, d: SObjDef, st: St) -> (Result<Obj, SFault>, St)
    decreases fuel, 1nat, d,
{
    match d.def {
        SDef::Str(t) => (Ok(Obj::Str(t)), st),
        SDef::Quoted(t) => (Ok(Obj::Str(t)), st),
        SDef::Move(n) => match take_var(st, n) {
            (Some(v), st1) => (Ok(v), st1),
            (None, st1) => (Err(SFault::NoSuchVariable(n, d.text)), st1),
        },
        SDef::Copy(n) => match lookup(st.frames, n) {
            Some(v) => if has_stream(v) {
                (Err(SFault::FailedAt(SError::LinearTypeCloning, d.text)), st)
            } else {
                (Ok(v), st)
            },
            None => (Err(SFault::NoSuchVariable(n, d.text)), st),
        },
        SDef::Call(objs) => if objs.len() == 0 {
            (
                Err(
                    SFault::Syntax(SParseError { pos: d.start, kind: SParseErrorKind::Syntax }),
                ),
                st,
            )
        } else {
            match ev_obj(fuel, objs[0], st) {
                (Err(e), st1) => (Err(e), st1),
                (Ok(f), st1) => match ev_list(fuel, objs.subrange(1, objs.len() as int), st1) {
                    (Err(e), st2) => (Err(e), st2),
                    (Ok(args), st2) => located(invoke(fuel, f, args, st2), d.text),
                },
            }
        },
        SDef::Tuple(objs) => match ev_list(fuel, objs, st) {
            (Err(e), st1) => (Err(e), st1),
            (Ok(vs), st1) => (Ok(Obj::Tuple(vs)), st1),
        },
        SDef::Closure(t, b) => (Ok(Obj::Code(t, Some(b))), st),
        SDef::MoveClosure(t, b, names) => (Ok(Obj::MovClos(t, Some(b), names)), st),
    }
}

/// Evaluates objects from left to right.
pub open spec fn ev_list(fuel: nat, objs: Seq<SObjDef>, st: St) -> (
    Result<Seq<Obj>, SFault>,
    St,
)
    decreases fuel, 1nat, objs,
{
    if objs.len() == 0 {
        (Ok(Seq::empty()), st)
    } else {
        match ev_obj(fuel, objs[0], st) {
            (Err(e), st1) => (Err(e), st1),
            (Ok(v), st1) => match ev_list(fuel, objs.subrange(1, objs.len() as int), st1) {
                (Err(e), st2) => (Err(e), st2),
                (Ok(vs), st2) => (Ok(seq![v] + vs), st2),
            },
        }
    }
}

/// Calls `f` with `args`, using one unit of fuel.
pub open spec fn invoke(fuel: nat, f: Obj, args: Seq<Obj>, st: St) -> (Result<Obj, SFault>, St)
    decreases fuel, 0nat, f,
{
    if fuel == 0 {
        (Err(SFault::OutOfFuel), st)
    } else {
        call_obj((fuel - 1) as nat, f, args, st)
    }
}

/// What calling each kind of object does.
pub open spec fn call_obj(fuel: nat, f: Obj, args: Seq<Obj>, st: St) -> (
    Result<Obj, SFault>,
    St,
)
    decreases fuel, 3nat, f,
{
    match f {
        Obj::Str(s) => (str_call(s, args), st),
        Obj::Int(i) => (int_call(i, args), st),
        Obj::Bool(b) => (bool_call(b, args), st),
        Obj::Tuple(items) => tuple_call(fuel, items, args, st),
        Obj::Code(t, p) => run_code(fuel, t, p, frame_of(args), st),
        Obj::MovClos(t, p, names) => if st.frames.len() == 0 {
            (Err(failed(SError::Custom("Can't move variables form scope"@))), st)
        } else {
            match move_vars(names, frame_of(args), st.frames.last()) {
                Err(n) => (Err(failed(SError::Custom("No such variable "@ + n))), pop_frame(st)),
                Ok((params, top)) => run_code(
                    fuel,
                    t,
                    p,
                    params,
                    St { frames: st.frames.update(st.frames.len() - 1, top), ..st },
                ),
            }
        },
        Obj::IntFn => if args.len() == 0 {
            (Err(failed(SError::NotEnoughArgs(0, 1))), st)
        } else {
            match int_obj(args[0]) {
                Ok(v) => (Ok(v), st),
                Err(e) => (Err(failed(e)), st),
            }
        },
        Obj::BoolFn => if args.len() == 0 {
            (Err(failed(SError::NotEnoughArgs(0, 1))), st)
        } else {
            match bool_obj(args[0]) {
                Ok(v) => (Ok(v), st),
                Err(e) => (Err(failed(e)), st),
            }
        },
        Obj::If => if_call(fuel, args, st),
        Obj::While => if args.len() < 1 {
            (Err(failed(SError::NotEnoughArgs(0, 3))), st)
        } else if args.len() < 2 {
            (Err(failed(SError::NotEnoughArgs(1, 3))), st)
        } else if args.len() < 3 {
            (Err(failed(SError::NotEnoughArgs(2, 3))), st)
        } else {
            while_loop(fuel, to_tuple(args[0]), args[1], args[2], st)
        },
        Obj::ScannerGen => if args.len() == 0 {
            (Ok(Obj::ScannerGen), st)
        } else {
            (Ok(Obj::Scanner(Box::new(args[0]))), st)
        },
        Obj::Scanner(inner) => scanner_call(fuel, *inner, args, st),
        Obj::Puts => (Ok(Obj::Puts), St { world: write_out(st.world, args), ..st }),
        Obj::Stdout => (Ok(Obj::Stdout), St { world: write_out(st.world, args), ..st }),
        Obj::Stdin => if args.len() == 0 {
            (Ok(Obj::Stdin), st)
        } else {
            let (b, w) = read_in(st.world);
            (Ok(Obj::Tuple(seq![Obj::Stdin, Obj::Int(b)])), St { world: w, ..st })
        },
    }
}

/// Moves the variables `names` out of `top` into `params`, in order; the
/// first name `top` does not have is the error.
pub open spec fn move_vars(
    names: Seq<Seq<char>>,
    params: Map<Seq<char>, Obj>,
    top: Map<Seq<char>, Obj>,
) -> Result<(Map<Seq<char>, Obj>, Map<Seq<char>, Obj>), Seq<char>>
    decreases names.len(),
{
    if names.len() == 0 {
        Ok((params, top))
    } else {
        let n = names[0];
        if top.contains_key(n) {
            move_vars(
                names.subrange(1, names.len() as int),
                params.insert(n, top[n]),
                top.remove(n),
            )
        } else {
            Err(n)
        }
    }
}

/// Runs code in a new frame: parsed and checked first if it was not yet.
pub open spec fn run_code(
    fuel: nat,
    text: Seq<char>,
    parsed: Option<SBlock>,
    frame: Map<Seq<char>, Obj>,
    st: St,
) -> (Result<Obj, SFault>, St)
    decreases fuel, 2nat, text,
{
    let body = match parsed {
        Some(b) => Ok(b),
        None => prepare(text),
    };
    match body {
        Err(e) => (Err(SFault::Syntax(e)), st),
        Ok(b) => {
            let (r, st1) = ev_block(fuel, b, push_frame(st, frame));
            (r, pop_frame(st1))
        },
    }
}

/// The index that `with` and `without` address: counted from the end when
/// negative.
pub open spec fn resolve_index(len: nat, ind: isize) -> int {
    if ind < 0 {
        len + ind
    } else {
        ind as int
    }
}

/// The methods of tuples.
pub open spec fn tuple_call(fuel: nat, items: Seq<Obj>, args: Seq<Obj>, st: St) -> (
    Result<Obj, SFault>,
    St,
)
    decreases fuel, 2nat, items,
{
    if args.len() == 0 {
        (Ok(Obj::Tuple(items)), st)
    } else {
        let m = display(args[0]);
        if m == "len"@ {
            (Ok(Obj::Int(items.len() as i64)), st)
        } else if m == "_len"@ {
            (Ok(Obj::Tuple(seq![Obj::Tuple(items), Obj::Int(items.len() as i64)])), st)
        } else if m == "push"@ {
            if args.len() < 2 {
                (Err(failed(SError::NotEnoughArgs(0, 1))), st)
            } else {
                (Ok(Obj::Tuple(items.push(args[1]))), st)
            }
        } else if m == "pop"@ {
            if items.len() == 0 {
                (Err(failed(SError::Custom("Can't pop value from empty tuple"@))), st)
            } else {
                (Ok(Obj::Tuple(seq![Obj::Tuple(items.drop_last()), items.last()])), st)
            }
        } else if m == "is_empty"@ {
            (Ok(Obj::Bool(items.len() == 0)), st)
        } else if m == "_is_empty"@ {
            (Ok(Obj::Tuple(seq![Obj::Tuple(items), Obj::Bool(items.len() == 0)])), st)
        } else if m == "with"@ || m == "without"@ {
            if args.len() < 2 {
                (Err(failed(SError::NotEnoughArgs(0, 2))), st)
            } else {
                let t = display(args[1]);
                match parse_isize_spec(t) {
                    None => (Err(failed(SError::UnexpectedType("integer"@, t))), st),
                    Some(ind) => {
                        let idx = resolve_index(items.len(), ind);
                        if args.len() < 3 {
                            (Err(failed(SError::NotEnoughArgs(1, 2))), st)
                        } else if !(0 <= idx < items.len()) {
                            (Err(failed(SError::OutOfBounds)), st)
                        } else {
                            match invoke(fuel, args[2], seq![items[idx]], st) {
                                (Err(e), st1) => (Err(e), st1),
                                (Ok(v), st1) => if m == "with"@ {
                                    (Ok(Obj::Tuple(items.update(idx, v))), st1)
                                } else {
                                    let rt = to_tuple(v);
                                    if rt.len() < 2 {
                                        (
                                            Err(
                                                failed(
                                                    SError::Custom(
                                                        "Expected tuple with at least 2 elements"@,
                                                    ),
                                                ),
                                            ),
                                            st1,
                                        )
                                    } else {
                                        (
                                            Ok(
                                                Obj::Tuple(
                                                    seq![
                                                        Obj::Tuple(items.update(idx, rt.last())),
                                                        rt[rt.len() - 2],
                                                    ],
                                                ),
                                            ),
                                            st1,
                                        )
                                    }
                                },
                            }
                        }
                    },
                }
            }
        } else {
            match parse_usize_spec(m) {
                None => (Err(failed(SError::UnknownMethod(m))), st),
                Some(i) => if i < items.len() {
                    (Ok(items[i as int]), st)
                } else {
                    (Err(failed(SError::OutOfBounds)), st)
                },
            }
        }
    }
}

/// `if cond then else otherwise`: calls `cond` without arguments; the last
/// item of its result chooses the branch, which is called with the other items.
pub open spec fn if_call(fuel: nat, args: Seq<Obj>, st: St) -> (Result<Obj, SFault>, St)
    decreases fuel, 2nat, args,
{
    if args.len() < 1 {
        (Err(failed(SError::Custom("Expected condition"@))), st)
    } else if args.len() < 2 {
        (Err(failed(SError::Custom("Expected then call"@))), st)
    } else if args.len() < 3 {
        (Err(failed(SError::Custom("Expected else"@))), st)
    } else if display(args[2]) != text_else() {
        (Err(failed(SError::Custom("Expected 'else', found "@ + display(args[2])))), st)
    } else if args.len() < 4 {
        (Err(failed(SError::Custom("Expected else call"@))), st)
    } else {
        match invoke(fuel, args[0], Seq::empty(), st) {
            (Err(e), st1) => (Err(e), st1),
            (Ok(c), st1) => {
                let t = to_tuple(c);
                if t.len() == 0 {
                    (Err(failed(SError::Custom("expected at least 1 element in tuple"@))), st1)
                } else {
                    match bool_of(t.last()) {
                        Ok(true) => invoke(fuel, args[1], t.drop_last(), st1),
                        Ok(false) => invoke(fuel, args[3], t.drop_last(), st1),
                        Err(s) => (Err(SFault::NotBoolean(s)), st1),
                    }
                }
            },
        }
    }
}

/// The rounds of `while`: `set[0]` holds the arguments of the condition, the
/// rest those of the body, whose result is the next `set`; the result is the
/// rest of `set` when the condition gives false.
pub open spec fn while_loop(fuel: nat, set: Seq<Obj>, cond: Obj, body: Obj, st: St) -> (
    Result<Obj, SFault>,
    St,
)
    decreases fuel, 2nat, set,
{
    if set.len() == 0 {
        (Err(failed(SError::OutOfBounds)), st)
    } else if has_stream(cond) {
        (Err(failed(SError::LinearTypeCloning)), st)
    } else {
        let rest = set.subrange(1, set.len() as int);
        match invoke(fuel, cond, to_tuple(set[0]), st) {
            (Err(e), st1) => (Err(e), st1),
            (Ok(c), st1) => match bool_of(c) {
                Ok(false) => (Ok(Obj::Tuple(rest)), st1),
                Err(s) => (Err(failed(SError::UnexpectedType("boolean"@, s))), st1),
                Ok(true) => if has_stream(body) {
                    (Err(failed(SError::LinearTypeCloning)), st1)
                } else {
                    match invoke(fuel, body, rest, st1) {
                        (Err(e), st2) => (Err(e), st2),
                        (Ok(next), st2) => if fuel == 0 {
                            (Err(SFault::OutOfFuel), st2)
                        } else {
                            while_loop((fuel - 1) as nat, to_tuple(next), cond, body, st2)
                        },
                    }
                },
            },
        }
    }
}

/// What the object a scanner wraps answered to `next`: the object to read on
/// from and a piece of text, as a pair.
pub open spec fn next_piece(r: Obj) -> Result<(Obj, Seq<char>), SFault> {
    let t = to_tuple(r);
    if t.len() != 2 {
        Err(failed(SError::UnexpectedType("tuple with 2 elements"@, display(Obj::Tuple(t)))))
    } else {
        Ok((t[0], display(t[1])))
    }
}

/// Reads on from `inner` after the first character of a word, which `acc`
/// holds: the word ends at a piece that is empty or starts with whitespace.
pub open spec fn scan_word(fuel: nat, inner: Obj, acc: Seq<char>, st: St) -> (
    Result<(Obj, Seq<char>), SFault>,
    St,
)
    decreases fuel, 1nat, inner,
{
    match invoke(fuel, inner, seq![Obj::Str("next"@)], st) {
        (Err(e), st1) => (Err(e), st1),
        (Ok(r), st1) => match next_piece(r) {
            Err(e) => (Err(e), st1),
            Ok((o, t)) => if t.len() == 0 || white_space(t[0]) {
                (Ok((o, acc)), st1)
            } else if fuel == 0 {
                (Err(SFault::OutOfFuel), st1)
            } else {
                scan_word((fuel - 1) as nat, o, acc.push(t[0]), st1)
            },
        },
    }
}

/// Reads the next word from `inner`, skipping whitespace before it; `None`
/// when the pieces end first.
pub open spec fn scan_skip(fuel: nat, inner: Obj, st: St) -> (
    Result<(Obj, Option<Seq<char>>), SFault>,
    St,
)
    decreases fuel, 2nat, inner,
{
    match invoke(fuel, inner, seq![Obj::Str("next"@)], st) {
        (Err(e), st1) => (Err(e), st1),
        (Ok(r), st1) => match next_piece(r) {
            Err(e) => (Err(e), st1),
            Ok((o, t)) => if t.len() == 0 {
                (Ok((o, None)), st1)
            } else if white_space(t[0]) {
                if fuel == 0 {
                    (Err(SFault::OutOfFuel), st1)
                } else {
                    scan_skip((fuel - 1) as nat, o, st1)
                }
            } else {
                match scan_word(fuel, o, seq![t[0]], st1) {
                    (Err(e), st2) => (Err(e), st2),
                    (Ok((o2, w)), st2) => (Ok((o2, Some(w))), st2),
                }
            },
        },
    }
}

/// The object a scanned word gives: for `int` the integer it denotes, for
/// `string` the word; the empty string when there was no word or it denotes
/// no integer.
pub open spec fn scanned(kind: Seq<char>, w: Option<Seq<char>>) -> Obj {
    match w {
        None => Obj::Str(Seq::empty()),
        Some(s) => if kind == "int"@ {
            match parse_i64_spec(s) {
                Some(v) => Obj::Int(v),
                None => Obj::Str(Seq::empty()),
            }
        } else {
            Obj::Str(s)
        },
    }
}

/// The methods of a scanner over `inner`: `unwrap` gives `inner` back, and
/// `scan int` and `scan string` read a word and give the scanner over what
/// is left together with the word read.  Floating-point numbers are not
/// objects of this library, so `scan float` is an unknown kind.
pub open spec fn scanner_call(fuel: nat, inner: Obj, args: Seq<Obj>, st: St) -> (
    Result<Obj, SFault>,
    St,
)
    decreases fuel, 3nat, inner,
{
    if args.len() == 0 {
        (Ok(Obj::Scanner(Box::new(inner))), st)
    } else {
        let m = display(args[0]);
        if m == "unwrap"@ {
            (Ok(inner), st)
        } else if m != "scan"@ {
            (Err(failed(SError::UnknownMethod(m))), st)
        } else if args.len() < 2 {
            (Err(failed(SError::NotEnoughArgs(1, 0))), st)
        } else {
            let kind = display(args[1]);
            if kind != "int"@ && kind != "string"@ {
                (Err(failed(SError::UnknownMethod(kind))), st)
            } else {
                match scan_skip(fuel, inner, st) {
                    (Err(e), st1) => (Err(e), st1),
                    (Ok((o, w)), st1) => (
                        Ok(Obj::Tuple(seq![Obj::Scanner(Box::new(o)), scanned(kind, w)])),
                        st1,
                    ),
                }
            }
        }
    }
}

} // verus!
