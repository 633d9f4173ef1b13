//! The static check of a parsed program: `$set` has a target and a value,
//! its targets are names or tuples of targets, and no variable is moved twice
//! by one body without being assigned in between.
use vstd::prelude::*;
use fnv::FnvHashSet;
use crate::syntax::{
    Def, ObjDef, Block, SDef, SObjDef, SBlock, ParseError, ParseErrorKind, SParseError,
    SParseErrorKind, m_objs, m_calls, lemma_m_objs, lemma_m_calls,
};
use crate::tables::{name_set, name_set_new, name_set_insert, name_set_remove, name_set_contains};
use crate::text::{chars_eq, copy_chars};

verus! {

pub open spec fn text_set() -> Seq<char> {
    seq!['s', 'e', 't']
}

/// The call assigns: its first object is `$set`.
pub open spec fn is_set_call(call: Seq<SObjDef>) -> bool {
    call.len() > 0 && call[0].def == SDef::Move(text_set())
}

pub open spec fn err_at(pos: int, kind: SParseErrorKind) -> SParseError {
    SParseError { pos, kind }
}

/// Checks an object; `moved` holds the names moved so far in this body and
/// not assigned since.  Closure bodies are checked on their own.
pub open spec fn check_obj(d: SObjDef, moved: Set<Seq<char>>) -> Result<Set<Seq<char>>, SParseError>
    decreases d,
{
    match d.def {
        SDef::Move(n) => if moved.contains(n) {
            Err(err_at(d.start, SParseErrorKind::GuaranteedMoved(n)))
        } else {
            Ok(moved.insert(n))
        },
        SDef::Call(objs) => check_objs(objs, moved),
        SDef::Tuple(objs) => check_objs(objs, moved),
        SDef::Closure(_, body) => match check_calls(body.calls, Set::empty()) {
            Ok(_) => Ok(moved),
            Err(e) => Err(e),
        },
        SDef::MoveClosure(_, body, _) => match check_calls(body.calls, Set::empty()) {
            Ok(_) => Ok(moved),
            Err(e) => Err(e),
        },
        _ => Ok(moved),
    }
}

/// Checks objects from left to right.
pub open spec fn check_objs(objs: Seq<SObjDef>, moved: Set<Seq<char>>) -> Result<
    Set<Seq<char>>,
    SParseError,
>
    decreases objs,
{
    if objs.len() == 0 {
        Ok(moved)
    } else {
        match check_obj(objs[0], moved) {
            Ok(m) => check_objs(objs.subrange(1, objs.len() as int), m),
            Err(e) => Err(e),
        }
    }
}

/// Checks the target of `$set`; assigning a name makes it available again.
pub open spec fn check_target(t: SObjDef, moved: Set<Seq<char>>) -> Result<
    Set<Seq<char>>,
    SParseError,
>
    decreases t,
{
    match t.def {
        SDef::Str(n) => Ok(moved.remove(n)),
        SDef::Tuple(items) => check_targets(items, moved),
        _ => Err(err_at(t.start, SParseErrorKind::ExpectedNameOrTuple)),
    }
}

pub open spec fn check_targets(items: Seq<SObjDef>, moved: Set<Seq<char>>) -> Result<
    Set<Seq<char>>,
    SParseError,
>
    decreases items,
{
    if items.len() == 0 {
        Ok(moved)
    } else {
        match check_target(items[0], moved) {
            Ok(m) => check_targets(items.subrange(1, items.len() as int), m),
            Err(e) => Err(e),
        }
    }
}

/// Checks the calls of a body in order.  For `$set target value` the value is
/// checked before the target; objects after the value are not looked at.
pub open spec fn check_calls(calls: Seq<Seq<SObjDef>>, moved: Set<Seq<char>>) -> Result<
    Set<Seq<char>>,
    SParseError,
>
    decreases calls,
{
    if calls.len() == 0 {
        Ok(moved)
    } else {
        let call = calls[0];
        let rest = calls.subrange(1, calls.len() as int);
        if is_set_call(call) {
            if call.len() < 2 {
                Err(err_at(call[0].start, SParseErrorKind::ExpectedVariableName))
            } else if call.len() < 3 {
                Err(err_at(call[0].start, SParseErrorKind::ExpectedVariableValue))
            } else {
                match check_obj(call[2], moved) {
                    Err(e) => Err(e),
                    Ok(m1) => match check_target(call[1], m1) {
                        Err(e) => Err(e),
                        Ok(m2) => check_calls(rest, m2),
                    },
                }
            }
        } else {
            match check_objs(call, moved) {
                Err(e) => Err(e),
                Ok(m) => check_calls(rest, m),
            }
        }
    }
}

/// The first problem the static check finds in a program, if any.
pub open spec fn check_program(b: SBlock) -> Option<SParseError> {
    match check_calls(b.calls, Set::empty()) {
        Ok(_) => None,
        Err(e) => Some(e),
    }
}

pub open spec fn check_res_ok(
    spec_res: Result<Set<Seq<char>>, SParseError>,
    r: Result<(), ParseError>,
    after: Set<Seq<char>>,
) -> bool {
    match r {
        Ok(_) => spec_res == Ok::<Set<Seq<char>>, SParseError>(after),
        Err(e) => spec_res == Err::<Set<Seq<char>>, SParseError>(e@),
    }
}

fn is_set_name(n: &Vec<char>) -> (r: bool)
    ensures
        r == (n@ == text_set()),
{
    let t = vec!['s', 'e', 't'];
    assert(t@ =~= text_set());
    chars_eq(n, &t)
}

pub fn is_set_call_exec(call: &Vec<ObjDef>) -> (r: bool)
    ensures
        r == is_set_call(m_objs(call@)),
{
    proof {
        lemma_m_objs(call@);
    }
    if call.len() == 0 {
        return false;
    }
    match &call[0].def {
        Def::Move(n) => is_set_name(n),
        _ => false,
    }
}

fn check_obj_exec(d: &ObjDef, moved: &mut FnvHashSet<Vec<char>>) -> (r: Result<(), ParseError>)
    ensures
        check_res_ok(check_obj(d@, name_set(*old(moved))), r, name_set(*final(moved))),
    decreases d,
{
    match &d.def {
        Def::Move(n) => {
            if name_set_contains(moved, n) {
                Err(ParseError { pos: d.start, kind: ParseErrorKind::GuaranteedMoved(copy_chars(n)) })
            } else {
                name_set_insert(moved, copy_chars(n));
                Ok(())
            }
        },
        Def::Call(objs) => check_objs_exec(objs, moved),
        Def::Tuple(objs) => check_objs_exec(objs, moved),
        Def::Closure(_, body) => check_block_exec(body),
        Def::MoveClosure(_, body, _) => check_block_exec(body),
        _ => Ok(()),
    }
}

fn check_objs_exec(objs: &Vec<ObjDef>, moved: &mut FnvHashSet<Vec<char>>) -> (r: Result<
    (),
    ParseError,
>)
    ensures
        check_res_ok(check_objs(m_objs(objs@), name_set(*old(moved))), r, name_set(*final(moved))),
    decreases objs,
{
    let ghost ms = m_objs(objs@);
    proof {
        lemma_m_objs(objs@);
        assert(ms.subrange(0, ms.len() as int) =~= ms);
    }
    let mut k: usize = 0;
    while k < objs.len()
        invariant
            ms == m_objs(objs@),
            ms.len() == objs@.len(),
            forall|i: int| 0 <= i < objs@.len() ==> #[trigger] ms[i] == objs@[i]@,
            k <= objs@.len(),
            check_objs(ms, name_set(*old(moved))) == check_objs(
                ms.subrange(k as int, ms.len() as int),
                name_set(*moved),
            ),
        decreases objs@.len() - k,
    {
        let ghost rest = ms.subrange(k as int, ms.len() as int);
        assert(rest[0] == objs@[k as int]@);
        assert(rest.subrange(1, rest.len() as int) =~= ms.subrange(k + 1, ms.len() as int));
        match check_obj_exec(&objs[k], moved) {
            Err(e) => {
                return Err(e);
            },
            Ok(()) => {},
        }
        k += 1;
    }
    Ok(())
}

fn check_target_exec(t: &ObjDef, moved: &mut FnvHashSet<Vec<char>>) -> (r: Result<(), ParseError>)
    ensures
        check_res_ok(check_target(t@, name_set(*old(moved))), r, name_set(*final(moved))),
    decreases t,
{
    match &t.def {
        Def::Str(n) => {
            name_set_remove(moved, n);
            Ok(())
        },
        Def::Tuple(items) => check_targets_exec(items, moved),
        _ => Err(ParseError { pos: t.start, kind: ParseErrorKind::ExpectedNameOrTuple }),
    }
}

fn check_targets_exec(items: &Vec<ObjDef>, moved: &mut FnvHashSet<Vec<char>>) -> (r: Result<
    (),
    ParseError,
>)
    ensures
        check_res_ok(check_targets(m_objs(items@), name_set(*old(moved))), r, name_set(*final(moved))),
    decreases items,
{
    let ghost ms = m_objs(items@);
    proof {
        lemma_m_objs(items@);
        assert(ms.subrange(0, ms.len() as int) =~= ms);
    }
    let mut k: usize = 0;
    while k < items.len()
        invariant
            ms == m_objs(items@),
            ms.len() == items@.len(),
            forall|i: int| 0 <= i < items@.len() ==> #[trigger] ms[i] == items@[i]@,
            k <= items@.len(),
            check_targets(ms, name_set(*old(moved))) == check_targets(
                ms.subrange(k as int, ms.len() as int),
                name_set(*moved),
            ),
        decreases items@.len() - k,
    {
        let ghost rest = ms.subrange(k as int, ms.len() as int);
        assert(rest[0] == items@[k as int]@);
        assert(rest.subrange(1, rest.len() as int) =~= ms.subrange(k + 1, ms.len() as int));
        match check_target_exec(&items[k], moved) {
            Err(e) => {
                return Err(e);
            },
            Ok(()) => {},
        }
        k += 1;
    }
    Ok(())
}

fn check_block_exec(b: &Block) -> (r: Result<(), ParseError>)
    ensures
        match r {
            Ok(_) => check_calls(b@.calls, Set::empty()) is Ok,
            Err(e) => check_calls(b@.calls, Set::empty()) == Err::<Set<Seq<char>>, SParseError>(
                e@,
            ),
        },
    decreases b,
{
    let mut moved = name_set_new();
    let ghost cs = m_calls(b.calls@);
    proof {
        lemma_m_calls(b.calls@);
        assert(cs.subrange(0, cs.len() as int) =~= cs);
    }
    let mut k: usize = 0;
    while k < b.calls.len()
        invariant
            cs == m_calls(b.calls@),
            cs == b@.calls,
            cs.len() == b.calls@.len(),
            forall|i: int| 0 <= i < b.calls@.len() ==> #[trigger] cs[i] == m_objs(b.calls@[i]@),
            k <= b.calls@.len(),
            check_calls(cs, Set::empty()) == check_calls(
                cs.subrange(k as int, cs.len() as int),
                name_set(moved),
            ),
        decreases b.calls@.len() - k,
    {
        let ghost rest = cs.subrange(k as int, cs.len() as int);
        assert(rest[0] == m_objs(b.calls@[k as int]@));
        assert(rest.subrange(1, rest.len() as int) =~= cs.subrange(k + 1, cs.len() as int));
        let call = &b.calls[k];
        proof {
            lemma_m_objs(call@);
        }
        if is_set_call_exec(call) {
            if call.len() < 2 {
                return Err(
                    ParseError { pos: call[0].start, kind: ParseErrorKind::ExpectedVariableName },
                );
            } else if call.len() < 3 {
                return Err(
                    ParseError { pos: call[0].start, kind: ParseErrorKind::ExpectedVariableValue },
                );
            }
            match check_obj_exec(&call[2], &mut moved) {
                Err(e) => {
                    return Err(e);
                },
                Ok(()) => {},
            }
            match check_target_exec(&call[1], &mut moved) {
                Err(e) => {
                    return Err(e);
                },
                Ok(()) => {},
            }
        } else {
            match check_objs_exec(call, &mut moved) {
                Err(e) => {
                    return Err(e);
                },
                Ok(()) => {},
            }
        }
        k += 1;
    }
    Ok(())
}

/// Runs the static check on a parsed program.
pub(crate) fn check_block(b: &Block) -> (r: Result<(), ParseError>)
    ensures
        match r {
            Ok(_) => check_program(b@) is None,
            Err(e) => check_program(b@) == Some(e@),
        },
{
    check_block_exec(b)
}

} // verus!
