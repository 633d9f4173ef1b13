//! The interpreter: runs programs as `semantics` says.
use vstd::prelude::*;
use std::sync::Arc;
use crate::syntax::{
    Def, ObjDef, Block, SBlock, ParseError, ParseErrorKind, SParseError, m_objs, m_calls,
    lemma_m_objs, lemma_m_calls, parse_text,
};
use crate::check::{check_block, is_set_call_exec};
use crate::value::{
    Value, Obj, Code, MovClos, Int, Bool, m_vals, m_parsed, lemma_m_vals, lemma_m_vals_ext,
    lemma_m_vals_push, share_block, copy_names, has_stream, to_tuple, Scanner, ScannerGen, display,
};
use crate::error::{TrashError, Fault, SFault, lit};
use crate::methods::{str_call_exec, int_call_exec, bool_call_exec, m_result, is_text, vals2, int_obj, bool_obj};
use crate::vars::{Vars, m_frames, lookup};
use crate::world::World;
use crate::semantics::{
    St, take_var, set_var, prepare, assign, assign_list, ev_block, ev_calls, ev_obj, ev_list,
    invoke, call_obj, move_vars, run_code, tuple_call, if_call, while_loop, next_piece, scan_word,
    scan_skip, scanned, scanner_call,
};
use crate::text::{
    copy_chars, push_all, texts, parse_isize, parse_usize, parse_i64, is_white_space,
};

verus! {

/// The state that `frames` and `world` hold.
pub open spec fn st_of(frames: Seq<Vars>, world: World) -> St {
    St { frames: m_frames(frames), world: world@ }
}

pub open spec fn outcome(r: Result<Value, Fault>, frames: Seq<Vars>, world: World) -> (
    Result<Obj, SFault>,
    St,
) {
    (m_result(r), st_of(frames, world))
}

pub open spec fn m_list(r: Result<Vec<Value>, Fault>) -> Result<Seq<Obj>, SFault> {
    match r {
        Ok(v) => Ok(m_vals(v@)),
        Err(f) => Err(f@),
    }
}

/// `pre` put before the objects of a list result.
pub open spec fn prepend(pre: Seq<Obj>, r: (Result<Seq<Obj>, SFault>, St)) -> (
    Result<Seq<Obj>, SFault>,
    St,
) {
    match r.0 {
        Ok(vs) => (Ok(pre + vs), r.1),
        Err(e) => (Err(e), r.1),
    }
}

pub proof fn lemma_m_frames_update(s: Seq<Vars>, x: Vars)
    requires
        s.len() > 0,
    ensures
        m_frames(s.drop_last().push(x)) == m_frames(s).update(s.len() - 1, x@),
        m_frames(s.drop_last()) == m_frames(s).drop_last(),
        m_frames(s).last() == s.last()@,
{
    assert(m_frames(s.drop_last().push(x)) =~= m_frames(s).update(s.len() - 1, x@));
    assert(m_frames(s.drop_last()) =~= m_frames(s).drop_last());
}

pub proof fn lemma_m_frames_push(s: Seq<Vars>, x: Vars)
    ensures
        m_frames(s.push(x)) == m_frames(s).push(x@),
{
    assert(m_frames(s.push(x)) =~= m_frames(s).push(x@));
}

/// Takes the variable `n` out of the current frame.
fn take_top(frames: &mut Vec<Vars>, world: &World, n: &Vec<char>) -> (r: Option<Value>)
    ensures
        ({
            let (o, st) = take_var(st_of(old(frames)@, *world), n@);
            &&& st == st_of(final(frames)@, *world)
            &&& match r {
                Some(v) => o == Some(v@),
                None => o is None,
            }
        }),
{
    if frames.len() == 0 {
        return None;
    }
    let ghost old_frames = frames@;
    let mut top = frames.pop().unwrap();
    let ghost old_top = top@;
    let r = top.get(n);
    frames.push(top);
    proof {
        lemma_m_frames_update(old_frames, frames@.last());
        assert(frames@ == old_frames.drop_last().push(frames@.last()));
        if r is None {
            assert(old_top.remove(n@) =~= old_top);
            assert(m_frames(frames@) =~= m_frames(old_frames));
        }
    }
    r
}

/// Sets the variable `n` of the current frame.
fn set_top(frames: &mut Vec<Vars>, world: &World, n: Vec<char>, v: Value)
    ensures
        st_of(final(frames)@, *world) == set_var(st_of(old(frames)@, *world), n@, v@),
{
    if frames.len() == 0 {
        return;
    }
    let ghost old_frames = frames@;
    let mut top = frames.pop().unwrap();
    top.add(n, v);
    frames.push(top);
    proof {
        lemma_m_frames_update(old_frames, frames@.last());
        assert(frames@ == old_frames.drop_last().push(frames@.last()));
    }
}

/// A copy of the variable `n` of the innermost frame that has it.
pub(crate) fn find_cloned(frames: &Vec<Vars>, n: &Vec<char>) -> (r: Option<Result<Value, TrashError>>)
    ensures
        match lookup(m_frames(frames@), n@) {
            None => r is None,
            Some(o) => match r {
                Some(Ok(v)) => !has_stream(o) && v@ == o,
                Some(Err(e)) => has_stream(o) && e == TrashError::LinearTypeCloning,
                None => false,
            },
        },
{
    let ghost fs = m_frames(frames@);
    assert(fs.subrange(0, fs.len() as int) =~= fs);
    let mut k = frames.len();
    while k > 0
        invariant
            fs == m_frames(frames@),
            k <= frames@.len(),
            lookup(fs, n@) == lookup(fs.subrange(0, k as int), n@),
        decreases k,
    {
        let ghost pre = fs.subrange(0, k as int);
        assert(pre.last() == frames@[k - 1]@);
        assert(pre.drop_last() =~= fs.subrange(0, k - 1));
        if frames[k - 1].contains(n) {
            let v = frames[k - 1].get_cloned(&Vec::new(), n);
            proof {
                assert(m_frames(Seq::<Vars>::empty()).push(frames@[k - 1]@).drop_last().len()
                    == 0);
            }
            match v {
                Some(Ok(x)) => {
                    return Some(Ok(x));
                },
                Some(Err(e)) => {
                    return Some(Err(TrashError::LinearTypeCloning));
                },
                None => {
                    return None;
                },
            }
        }
        k -= 1;
    }
    assert(fs.subrange(0, 0).len() == 0);
    None
}

/// Parses and checks program text.
pub(crate) fn prepare_exec(text: &Vec<char>) -> (r: Result<Block, ParseError>)
    ensures
        match r {
            Ok(b) => prepare(text@) == Ok::<SBlock, SParseError>(b@),
            Err(e) => prepare(text@) == Err::<SBlock, SParseError>(e@),
        },
{
    match parse_text(text) {
        Err(e) => Err(e),
        Ok(b) => match check_block(&b) {
            Err(e) => Err(e),
            Ok(()) => Ok(b),
        },
    }
}

/// Assigns `v` to the target `t`.
fn exec_assign(t: &ObjDef, v: Value, frames: &mut Vec<Vars>, world: &World) -> (r: Result<
    (),
    Fault,
>)
    ensures
        assign(t@, v@, st_of(old(frames)@, *world)) == (
            match r {
                Ok(_) => None::<SFault>,
                Err(f) => Some(f@),
            },
            st_of(final(frames)@, *world),
        ),
    decreases t,
{
    match &t.def {
        Def::Str(n) => {
            set_top(frames, world, copy_chars(n), v);
            Ok(())
        },
        Def::Tuple(targets) => {
            let vs = v.to_tuple();
            proof {
                lemma_m_objs(targets@);
                lemma_m_vals(vs@);
            }
            if targets.len() != vs.len() {
                return Err(Fault::TupleLengthMismatch(targets.len(), vs.len()));
            }
            exec_assign_list(targets, vs, frames, world)
        },
        _ => Err(Fault::Syntax(ParseError { pos: t.start, kind: ParseErrorKind::ExpectedNameOrTuple })),
    }
}

#[verifier::loop_isolation(false)]
fn exec_assign_list(targets: &Vec<ObjDef>, vs: Vec<Value>, frames: &mut Vec<Vars>, world: &World) -> (r: Result<
    (),
    Fault,
>)
    requires
        targets@.len() == vs@.len(),
    ensures
        assign_list(m_objs(targets@), m_vals(vs@), st_of(old(frames)@, *world)) == (
            match r {
                Ok(_) => None::<SFault>,
                Err(f) => Some(f@),
            },
            st_of(final(frames)@, *world),
        ),
    decreases targets,
{
    let ghost ts = m_objs(targets@);
    let ghost ms = m_vals(vs@);
    proof {
        lemma_m_objs(targets@);
        lemma_m_vals(vs@);
        assert(ts.subrange(0, ts.len() as int) =~= ts);
        assert(ms.subrange(0, ms.len() as int) =~= ms);
    }
    let mut vs = vs;
    let n = targets.len();
    let mut k: usize = 0;
    while k < n
        invariant
            n == targets@.len(),
            ts == m_objs(targets@),
            ts.len() == n,
            ms.len() == n,
            forall|i: int| 0 <= i < n ==> #[trigger] ts[i] == targets@[i]@,
            k <= n,
            vs@.len() == n - k,
            forall|i: int| 0 <= i < vs@.len() ==> #[trigger] vs@[i]@ == ms[k + i],
            assign_list(ts, ms, st_of(old(frames)@, *world)) == assign_list(
                ts.subrange(k as int, n as int),
                ms.subrange(k as int, n as int),
                st_of(frames@, *world),
            ),
        decreases n - k,
    {
        let ghost rt = ts.subrange(k as int, n as int);
        let ghost rv = ms.subrange(k as int, n as int);
        assert(rt[0] == targets@[k as int]@);
        assert(rv[0] == ms[k as int]);
        assert(rt.subrange(1, rt.len() as int) =~= ts.subrange(k + 1, n as int));
        assert(rv.subrange(1, rv.len() as int) =~= ms.subrange(k + 1, n as int));
        assert(vs@[0]@ == ms[k as int]);
        let v = vs.remove(0);
        assert(v@ == rv[0]);
        let ghost st_k = st_of(frames@, *world);
        match exec_assign(&targets[k], v, frames, world) {
            Err(f) => {
                assert(assign(rt[0], rv[0], st_k) == (Some(f@), st_of(frames@, *world)));
                return Err(f);
            },
            Ok(()) => {},
        }
        k += 1;
    }
    assert(ts.subrange(n as int, n as int).len() == 0);
    Ok(())
}

/// Runs a body.
pub(crate) fn eval_block(b: &Block, fuel: u64, frames: &mut Vec<Vars>, world: &mut World) -> (r: Result<
    Value,
    Fault,
>)
    ensures
        outcome(r, final(frames)@, *final(world)) == ev_block(
            fuel as nat,
            b@,
            st_of(old(frames)@, *old(world)),
        ),
    decreases fuel, 1nat, b,
{
    exec_calls(&b.calls, fuel, frames, world)
}

fn exec_calls(calls: &Vec<Vec<ObjDef>>, fuel: u64, frames: &mut Vec<Vars>, world: &mut World) -> (r:
    Result<Value, Fault>)
    ensures
        outcome(r, final(frames)@, *final(world)) == ev_calls(
            fuel as nat,
            m_calls(calls@),
            Obj::Str(Seq::empty()),
            st_of(old(frames)@, *old(world)),
        ),
    decreases fuel, 1nat, calls,
{
    let ghost cs = m_calls(calls@);
    proof {
        lemma_m_calls(calls@);
        assert(cs.subrange(0, cs.len() as int) =~= cs);
    }
    let mut last = Value::Str(Vec::new());
    let mut k: usize = 0;
    while k < calls.len()
        invariant
            cs == m_calls(calls@),
            cs.len() == calls@.len(),
            forall|i: int| 0 <= i < calls@.len() ==> #[trigger] cs[i] == m_objs(calls@[i]@),
            k <= calls@.len(),
            ev_calls(
                fuel as nat,
                cs,
                Obj::Str(Seq::empty()),
                st_of(old(frames)@, *old(world)),
            ) == ev_calls(
                fuel as nat,
                cs.subrange(k as int, cs.len() as int),
                last@,
                st_of(frames@, *world),
            ),
        decreases calls@.len() - k,
    {
        let ghost rest = cs.subrange(k as int, cs.len() as int);
        assert(rest[0] == m_objs(calls@[k as int]@));
        assert(rest.subrange(1, rest.len() as int) =~= cs.subrange(k + 1, cs.len() as int));
        let call = &calls[k];
        let ghost mc = m_objs(call@);
        proof {
            lemma_m_objs(call@);
        }
        if is_set_call_exec(call) {
            if call.len() < 2 {
                return Err(
                    Fault::Syntax(
                        ParseError { pos: call[0].start, kind: ParseErrorKind::ExpectedVariableName },
                    ),
                );
            } else if call.len() < 3 {
                return Err(
                    Fault::Syntax(
                        ParseError { pos: call[0].start, kind: ParseErrorKind::ExpectedVariableValue },
                    ),
                );
            }
            let v = match eval_obj(&call[2], fuel, frames, world) {
                Err(f) => {
                    return Err(f);
                },
                Ok(v) => v,
            };
            match exec_assign(&call[1], v, frames, world) {
                Err(f) => {
                    return Err(f);
                },
                Ok(()) => {},
            }
            last = Value::Str(Vec::new());
        } else if call.len() == 0 {
            last = Value::Str(Vec::new());
        } else {
            let f = match eval_obj(&call[0], fuel, frames, world) {
                Err(e) => {
                    return Err(e);
                },
                Ok(f) => f,
            };
            let args = match exec_list(call, 1, fuel, frames, world) {
                Err(e) => {
                    return Err(e);
                },
                Ok(a) => a,
            };
            last = match invoke_exec(f, args, fuel, frames, world) {
                Err(Fault::Failed(e)) => {
                    return Err(Fault::StatementFailed(e));
                },
                Err(e) => {
                    return Err(e);
                },
                Ok(r) => r,
            };
        }
        k += 1;
    }
    assert(cs.subrange(k as int, cs.len() as int).len() == 0);
    Ok(last)
}

/// Evaluates an object of the program.
pub(crate) fn eval_obj(d: &ObjDef, fuel: u64, frames: &mut Vec<Vars>, world: &mut World) -> (r: Result<
    Value,
    Fault,
>)
    ensures
        outcome(r, final(frames)@, *final(world)) == ev_obj(
            fuel as nat,
            d@,
            st_of(old(frames)@, *old(world)),
        ),
    decreases fuel, 1nat, d,
{
    match &d.def {
        Def::Str(t) => Ok(Value::Str(copy_chars(t))),
        Def::Quoted(t) => Ok(Value::Str(copy_chars(t))),
        Def::Move(n) => match take_top(frames, world, n) {
            Some(v) => Ok(v),
            None => Err(Fault::NoSuchVariable(copy_chars(n), copy_chars(&d.text))),
        },
        Def::Copy(n) => match find_cloned(frames, n) {
            Some(Ok(v)) => Ok(v),
            Some(Err(e)) => Err(Fault::FailedAt(e, copy_chars(&d.text))),
            None => Err(Fault::NoSuchVariable(copy_chars(n), copy_chars(&d.text))),
        },
        Def::Call(objs) => {
            proof {
                lemma_m_objs(objs@);
            }
            if objs.len() == 0 {
                return Err(Fault::Syntax(ParseError { pos: d.start, kind: ParseErrorKind::Syntax }));
            }
            let f = match eval_obj(&objs[0], fuel, frames, world) {
                Err(e) => {
                    return Err(e);
                },
                Ok(f) => f,
            };
            let args = match exec_list(objs, 1, fuel, frames, world) {
                Err(e) => {
                    return Err(e);
                },
                Ok(a) => a,
            };
            match invoke_exec(f, args, fuel, frames, world) {
                Err(Fault::Failed(e)) => Err(Fault::FailedAt(e, copy_chars(&d.text))),
                r => r,
            }
        },
        Def::Tuple(objs) => {
            proof {
                lemma_m_objs(objs@);
                assert(m_objs(objs@).subrange(0, objs@.len() as int) =~= m_objs(objs@));
            }
            match exec_list(objs, 0, fuel, frames, world) {
                Err(e) => Err(e),
                Ok(vs) => Ok(Value::Tuple(vs)),
            }
        },
        Def::Closure(t, b) => Ok(
            Value::Code(Code { text: copy_chars(t), parsed: Some(share_block(b)) }),
        ),
        Def::MoveClosure(t, b, names) => Ok(
            Value::MovClos(
                MovClos {
                    code: Code { text: copy_chars(t), parsed: Some(share_block(b)) },
                    names: copy_names(names),
                },
            ),
        ),
    }
}

/// Evaluates the objects `objs[from..]` from left to right.
fn exec_list(objs: &Vec<ObjDef>, from: usize, fuel: u64, frames: &mut Vec<Vars>, world: &mut World) -> (r:
    Result<Vec<Value>, Fault>)
    requires
        from <= objs@.len(),
    ensures
        (m_list(r), st_of(final(frames)@, *final(world))) == ev_list(
            fuel as nat,
            m_objs(objs@).subrange(from as int, objs@.len() as int),
            st_of(old(frames)@, *old(world)),
        ),
    decreases fuel, 1nat, objs,
{
    let ghost ms = m_objs(objs@);
    proof {
        lemma_m_objs(objs@);
    }
    let mut acc: Vec<Value> = Vec::new();
    let mut k = from;
    assert(m_vals(acc@) =~= Seq::<Obj>::empty());
    assert(prepend(Seq::empty(), ev_list(fuel as nat, ms.subrange(from as int, ms.len() as int), st_of(frames@, *world))) == ev_list(fuel as nat, ms.subrange(from as int, ms.len() as int), st_of(frames@, *world))) by {
        let r = ev_list(fuel as nat, ms.subrange(from as int, ms.len() as int), st_of(frames@, *world));
        if let Ok(vs) = r.0 {
            assert(Seq::<Obj>::empty() + vs =~= vs);
        }
    }
    while k < objs.len()
        invariant
            ms == m_objs(objs@),
            ms.len() == objs@.len(),
            forall|i: int| 0 <= i < objs@.len() ==> #[trigger] ms[i] == objs@[i]@,
            from <= k <= objs@.len(),
            ev_list(
                fuel as nat,
                ms.subrange(from as int, ms.len() as int),
                st_of(old(frames)@, *old(world)),
            ) == prepend(
                m_vals(acc@),
                ev_list(fuel as nat, ms.subrange(k as int, ms.len() as int), st_of(frames@, *world)),
            ),
        decreases objs@.len() - k,
    {
        let ghost rest = ms.subrange(k as int, ms.len() as int);
        assert(rest[0] == objs@[k as int]@);
        assert(rest.subrange(1, rest.len() as int) =~= ms.subrange(k + 1, ms.len() as int));
        let ghost before = m_vals(acc@);
        let ghost before_acc = acc@;
        match eval_obj(&objs[k], fuel, frames, world) {
            Err(e) => {
                return Err(e);
            },
            Ok(v) => {
                let ghost vm = v@;
                acc.push(v);
                proof {
                    lemma_m_vals_push(before_acc, v);
                    assert(acc@ == before_acc.push(v));
                    let r2 = ev_list(
                        fuel as nat,
                        ms.subrange(k + 1, ms.len() as int),
                        st_of(frames@, *world),
                    );
                    if let Ok(vs) = r2.0 {
                        assert(before + (seq![vm] + vs) =~= before.push(vm) + vs);
                    }
                }
            },
        }
        k += 1;
    }
    proof {
        assert(ms.subrange(k as int, ms.len() as int).len() == 0);
        assert(m_vals(acc@) + Seq::<Obj>::empty() =~= m_vals(acc@));
    }
    Ok(acc)
}

/// Calls `f` with `args`, using one unit of fuel.
pub(crate) fn invoke_exec(f: Value, args: Vec<Value>, fuel: u64, frames: &mut Vec<Vars>, world: &mut World) -> (r:
    Result<Value, Fault>)
    ensures
        outcome(r, final(frames)@, *final(world)) == invoke(
            fuel as nat,
            f@,
            m_vals(args@),
            st_of(old(frames)@, *old(world)),
        ),
    decreases fuel, 0nat, f,
{
    if fuel == 0 {
        return Err(Fault::OutOfFuel);
    }
    call_value(f, args, fuel - 1, frames, world)
}

/// Moves the variables `names` out of `top` into `params`.
fn move_names(names: &Vec<Vec<char>>, params: &mut Vars, top: &mut Vars) -> (r: Result<
    (),
    Vec<char>,
>)
    ensures
        match r {
            Ok(_) => move_vars(texts(names@), old(params)@, old(top)@) == Ok::<
                (Map<Seq<char>, Obj>, Map<Seq<char>, Obj>),
                Seq<char>,
            >((final(params)@, final(top)@)),
            Err(n) => move_vars(texts(names@), old(params)@, old(top)@) == Err::<
                (Map<Seq<char>, Obj>, Map<Seq<char>, Obj>),
                Seq<char>,
            >(n@),
        },
{
    let ghost ns = texts(names@);
    assert(ns.subrange(0, ns.len() as int) =~= ns);
    let mut k: usize = 0;
    while k < names.len()
        invariant
            ns == texts(names@),
            k <= names@.len(),
            move_vars(ns, old(params)@, old(top)@) == move_vars(
                ns.subrange(k as int, ns.len() as int),
                params@,
                top@,
            ),
        decreases names@.len() - k,
    {
        let ghost rest = ns.subrange(k as int, ns.len() as int);
        assert(rest[0] == names@[k as int]@);
        assert(rest.subrange(1, rest.len() as int) =~= ns.subrange(k + 1, ns.len() as int));
        match top.get(&names[k]) {
            None => {
                return Err(copy_chars(&names[k]));
            },
            Some(v) => {
                params.add(copy_chars(&names[k]), v);
            },
        }
        k += 1;
    }
    Ok(())
}

/// Runs `code` in a new frame.
fn run_code_exec(code: Code, frame: Vars, fuel: u64, frames: &mut Vec<Vars>, world: &mut World) -> (r:
    Result<Value, Fault>)
    ensures
        outcome(r, final(frames)@, *final(world)) == run_code(
            fuel as nat,
            code.text@,
            m_parsed(code.parsed),
            frame@,
            st_of(old(frames)@, *old(world)),
        ),
    decreases fuel, 2nat, code,
{
    let body: Arc<Block> = match code.parsed {
        Some(b) => b,
        None => match prepare_exec(&code.text) {
            Ok(b) => Arc::new(b),
            Err(e) => {
                return Err(Fault::Syntax(e));
            },
        },
    };
    let ghost before = frames@;
    frames.push(frame);
    proof {
        lemma_m_frames_push(before, frame);
    }
    let r = eval_block(&body, fuel, frames, world);
    let ghost after = frames@;
    let _ = frames.pop();
    proof {
        if after.len() > 0 {
            assert(frames@ == after.drop_last());
            assert(m_frames(after.drop_last()) =~= m_frames(after).drop_last());
        } else {
            assert(frames@ == after);
        }
    }
    r
}

/// Calls `f` with `args`.
pub(crate) fn call_value(f: Value, args: Vec<Value>, fuel: u64, frames: &mut Vec<Vars>, world: &mut World) -> (r:
    Result<Value, Fault>)
    ensures
        outcome(r, final(frames)@, *final(world)) == call_obj(
            fuel as nat,
            f@,
            m_vals(args@),
            st_of(old(frames)@, *old(world)),
        ),
    decreases fuel, 3nat, f,
{
    proof {
        lemma_m_vals(args@);
    }
    match f {
        Value::Str(s) => str_call_exec(s, &args),
        Value::Int(i) => int_call_exec(i, &args),
        Value::Bool(b) => bool_call_exec(b, &args),
        Value::Tuple(items) => tuple_method(items, args, fuel, frames, world),
        Value::Code(c) => run_code_exec(c, Vars::from_vec(args), fuel, frames, world),
        Value::MovClos(m) => {
            if frames.len() == 0 {
                return Err(
                    Fault::Failed(TrashError::Custom(lit("Can't move variables form scope"))),
                );
            }
            let ghost old_frames = frames@;
            let mut top = frames.pop().unwrap();
            proof {
                lemma_m_frames_update(old_frames, top);
            }
            let mut params = Vars::from_vec(args);
            match move_names(&m.names, &mut params, &mut top) {
                Err(n) => {
                    let mut msg = lit("No such variable ");
                    push_all(&mut msg, &n);
                    Err(Fault::Failed(TrashError::Custom(msg)))
                },
                Ok(()) => {
                    frames.push(top);
                    proof {
                        lemma_m_frames_update(old_frames, top);
                        assert(frames@ == old_frames.drop_last().push(top));
                    }
                    run_code_exec(m.code, params, fuel, frames, world)
                },
            }
        },
        Value::IntFn(_) => {
            if args.len() == 0 {
                return Err(Fault::Failed(TrashError::NotEnoughArgs(0, 1)));
            }
            let mut args = args;
            let a = args.remove(0);
            match Int::int_obj(a) {
                Ok(v) => Ok(v),
                Err(e) => Err(Fault::Failed(e)),
            }
        },
        Value::BoolFn(_) => {
            if args.len() == 0 {
                return Err(Fault::Failed(TrashError::NotEnoughArgs(0, 1)));
            }
            let mut args = args;
            let a = args.remove(0);
            match Bool::bool_obj(a) {
                Ok(v) => Ok(v),
                Err(e) => Err(Fault::Failed(e)),
            }
        },
        Value::If(_) => if_exec(args, fuel, frames, world),
        Value::While(_) => {
            if args.len() < 1 {
                return Err(Fault::Failed(TrashError::NotEnoughArgs(0, 3)));
            } else if args.len() < 2 {
                return Err(Fault::Failed(TrashError::NotEnoughArgs(1, 3)));
            } else if args.len() < 3 {
                return Err(Fault::Failed(TrashError::NotEnoughArgs(2, 3)));
            }
            let mut args = args;
            let first = args.remove(0);
            let cond = args.remove(0);
            let body = args.remove(0);
            while_exec(first.to_tuple(), cond, body, fuel, frames, world)
        },
        Value::ScannerGen(_) => {
            if args.len() == 0 {
                Ok(Value::ScannerGen(ScannerGen))
            } else {
                let mut args = args;
                let a = args.remove(0);
                Ok(Value::Scanner(Scanner { inner: Box::new(a) }))
            }
        },
        Value::Scanner(s) => scanner_exec(*s.inner, args, fuel, frames, world),
        Value::Puts => {
            world.write(&args);
            Ok(Value::Puts)
        },
        Value::Stdout => {
            world.write(&args);
            Ok(Value::Stdout)
        },
        Value::Stdin => {
            if args.len() == 0 {
                Ok(Value::Stdin)
            } else {
                let b = world.read();
                Ok(Value::Tuple(vals2(Value::Stdin, Value::Int(b))))
            }
        },
    }
}

/// `items` with `v` in place of the item at `i`.
fn replace_item(items: &mut Vec<Value>, i: usize, v: Value) -> (old_item: Value)
    requires
        i < old(items)@.len(),
    ensures
        final(items)@.len() == old(items)@.len(),
        m_vals(final(items)@) == m_vals(old(items)@).update(i as int, v@),
        old_item@ == m_vals(old(items)@)[i as int],
{
    proof {
        lemma_m_vals(items@);
    }
    let ghost before = m_vals(items@);
    let x = items.remove(i);
    items.insert(i, v);
    proof {
        lemma_m_vals(items@);
        lemma_m_vals_ext(items@, before.update(i as int, v@));
    }
    x
}

/// The methods of tuples.
fn tuple_method(items: Vec<Value>, args: Vec<Value>, fuel: u64, frames: &mut Vec<Vars>, world: &mut World) -> (r:
    Result<Value, Fault>)
    ensures
        outcome(r, final(frames)@, *final(world)) == tuple_call(
            fuel as nat,
            m_vals(items@),
            m_vals(args@),
            st_of(old(frames)@, *old(world)),
        ),
    decreases fuel, 2nat, items,
{
    proof {
        lemma_m_vals(items@);
        lemma_m_vals(args@);
    }
    let ghost ims = m_vals(items@);
    if args.len() == 0 {
        return Ok(Value::Tuple(items));
    }
    let m = args[0].text();
    let mut items = items;
    let mut args = args;
    if is_text(&m, "len") {
        Ok(Value::Int(items.len() as i64))
    } else if is_text(&m, "_len") {
        let n = items.len() as i64;
        Ok(Value::Tuple(vals2(Value::Tuple(items), Value::Int(n))))
    } else if is_text(&m, "push") {
        if args.len() < 2 {
            return Err(Fault::Failed(TrashError::NotEnoughArgs(0, 1)));
        }
        let x = args.remove(1);
        items.push(x);
        proof {
            lemma_m_vals(items@);
            lemma_m_vals_ext(items@, ims.push(x@));
        }
        Ok(Value::Tuple(items))
    } else if is_text(&m, "pop") {
        if items.len() == 0 {
            return Err(
                Fault::Failed(TrashError::Custom(lit("Can't pop value from empty tuple"))),
            );
        }
        let x = items.pop().unwrap();
        proof {
            lemma_m_vals(items@);
            lemma_m_vals_ext(items@, ims.drop_last());
        }
        Ok(Value::Tuple(vals2(Value::Tuple(items), x)))
    } else if is_text(&m, "is_empty") {
        Ok(Value::Bool(items.len() == 0))
    } else if is_text(&m, "_is_empty") {
        let e = items.len() == 0;
        Ok(Value::Tuple(vals2(Value::Tuple(items), Value::Bool(e))))
    } else if is_text(&m, "with") || is_text(&m, "without") {
        if args.len() < 2 {
            return Err(Fault::Failed(TrashError::NotEnoughArgs(0, 2)));
        }
        let t = args[1].text();
        let ind = match parse_isize(&t) {
            None => {
                return Err(Fault::Failed(TrashError::UnexpectedType(lit("integer"), t)));
            },
            Some(ind) => ind,
        };
        let idx: i128 = if ind < 0 {
            items.len() as i128 + ind as i128
        } else {
            ind as i128
        };
        if args.len() < 3 {
            return Err(Fault::Failed(TrashError::NotEnoughArgs(1, 2)));
        }
        if idx < 0 || idx >= items.len() as i128 {
            return Err(Fault::Failed(TrashError::OutOfBounds));
        }
        let i = idx as usize;
        let clos = args.remove(2);
        let item = replace_item(&mut items, i, Value::Str(Vec::new()));
        let ghost ims2 = m_vals(items@);
        let v = match invoke_exec(clos, vec_of(item), fuel, frames, world) {
            Err(e) => {
                return Err(e);
            },
            Ok(v) => v,
        };
        if is_text(&m, "with") {
            let _ = replace_item(&mut items, i, v);
            proof {
                assert(m_vals(items@) =~= ims.update(i as int, v@));
            }
            Ok(Value::Tuple(items))
        } else {
            let mut rt = v.to_tuple();
            proof {
                lemma_m_vals(rt@);
            }
            if rt.len() < 2 {
                return Err(
                    Fault::Failed(
                        TrashError::Custom(lit("Expected tuple with at least 2 elements")),
                    ),
                );
            }
            let ghost rts = m_vals(rt@);
            let newel = rt.pop().unwrap();
            let second = rt.pop().unwrap();
            let _ = replace_item(&mut items, i, newel);
            proof {
                assert(m_vals(items@) =~= ims.update(i as int, rts.last()));
                assert(second@ == rts[rts.len() - 2]);
            }
            Ok(Value::Tuple(vals2(Value::Tuple(items), second)))
        }
    } else {
        match parse_usize(&m) {
            None => Err(Fault::Failed(TrashError::UnknownMethod(m))),
            Some(i) => {
                if i < items.len() {
                    Ok(items.remove(i))
                } else {
                    Err(Fault::Failed(TrashError::OutOfBounds))
                }
            },
        }
    }
}

fn vec_of(v: Value) -> (r: Vec<Value>)
    ensures
        m_vals(r@) == seq![v@],
{
    let r = vec![v];
    proof {
        lemma_m_vals(r@);
        assert(m_vals(r@) =~= seq![v@]);
    }
    r
}

/// The builtin `if`.
fn if_exec(args: Vec<Value>, fuel: u64, frames: &mut Vec<Vars>, world: &mut World) -> (r: Result<
    Value,
    Fault,
>)
    ensures
        outcome(r, final(frames)@, *final(world)) == if_call(
            fuel as nat,
            m_vals(args@),
            st_of(old(frames)@, *old(world)),
        ),
    decreases fuel, 2nat, args,
{
    proof {
        lemma_m_vals(args@);
    }
    let ghost ms = m_vals(args@);
    if args.len() < 1 {
        return Err(Fault::Failed(TrashError::Custom(lit("Expected condition"))));
    } else if args.len() < 2 {
        return Err(Fault::Failed(TrashError::Custom(lit("Expected then call"))));
    } else if args.len() < 3 {
        return Err(Fault::Failed(TrashError::Custom(lit("Expected else"))));
    }
    let word = args[2].text();
    if !is_text(&word, "else") {
        let mut msg = lit("Expected 'else', found ");
        push_all(&mut msg, &word);
        return Err(Fault::Failed(TrashError::Custom(msg)));
    }
    if args.len() < 4 {
        return Err(Fault::Failed(TrashError::Custom(lit("Expected else call"))));
    }
    let mut args = args;
    let cond = args.remove(0);
    let then_call = args.remove(0);
    let _ = args.remove(0);
    let else_call = args.remove(0);
    let c = match invoke_exec(cond, Vec::new(), fuel, frames, world) {
        Err(e) => {
            return Err(e);
        },
        Ok(c) => c,
    };
    let mut t = c.to_tuple();
    proof {
        lemma_m_vals(t@);
    }
    if t.len() == 0 {
        return Err(
            Fault::Failed(TrashError::Custom(lit("expected at least 1 element in tuple"))),
        );
    }
    let ghost ts = m_vals(t@);
    let last = t.pop().unwrap();
    proof {
        lemma_m_vals(t@);
        lemma_m_vals_ext(t@, ts.drop_last());
    }
    match Bool::bool_res(&last) {
        Ok(true) => invoke_exec(then_call, t, fuel, frames, world),
        Ok(false) => invoke_exec(else_call, t, fuel, frames, world),
        Err(s) => Err(Fault::NotBoolean(s)),
    }
}

/// The rounds of the builtin `while`.
#[verifier::loop_isolation(false)]
fn while_exec(
    set: Vec<Value>,
    cond: Value,
    body: Value,
    fuel: u64,
    frames: &mut Vec<Vars>,
    world: &mut World,
) -> (r: Result<Value, Fault>)
    ensures
        outcome(r, final(frames)@, *final(world)) == while_loop(
            fuel as nat,
            m_vals(set@),
            cond@,
            body@,
            st_of(old(frames)@, *old(world)),
        ),
    decreases fuel, 2nat, set,
{
    let ghost set0 = m_vals(set@);
    let mut set = set;
    let mut f = fuel;
    loop
        invariant
            f <= fuel,
            while_loop(
                fuel as nat,
                set0,
                cond@,
                body@,
                st_of(old(frames)@, *old(world)),
            ) == while_loop(f as nat, m_vals(set@), cond@, body@, st_of(frames@, *world)),
        decreases f,
    {
        proof {
            lemma_m_vals(set@);
        }
        let ghost ms = m_vals(set@);
        if set.len() == 0 {
            return Err(Fault::Failed(TrashError::OutOfBounds));
        }
        let c = match cond.clone() {
            Err(e) => {
                return Err(Fault::Failed(e));
            },
            Ok(c) => c,
        };
        let first = set.remove(0);
        proof {
            lemma_m_vals(set@);
            lemma_m_vals_ext(set@, ms.subrange(1, ms.len() as int));
        }
        let res = match invoke_exec(c, first.to_tuple(), f, frames, world) {
            Err(e) => {
                return Err(e);
            },
            Ok(x) => x,
        };
        match Bool::bool_res(&res) {
            Ok(false) => {
                return Ok(Value::Tuple(set));
            },
            Err(s) => {
                return Err(Fault::Failed(TrashError::UnexpectedType(lit("boolean"), s)));
            },
            Ok(true) => {},
        }
        let b = match body.clone() {
            Err(e) => {
                return Err(Fault::Failed(e));
            },
            Ok(b) => b,
        };
        let next = match invoke_exec(b, set, f, frames, world) {
            Err(e) => {
                return Err(e);
            },
            Ok(x) => x,
        };
        if f == 0 {
            return Err(Fault::OutOfFuel);
        }
        f = f - 1;
        set = next.to_tuple();
    }
}

pub open spec fn m_word(r: Result<(Value, Vec<char>), Fault>) -> Result<(Obj, Seq<char>), SFault> {
    match r {
        Ok((o, t)) => Ok((o@, t@)),
        Err(f) => Err(f@),
    }
}

pub open spec fn m_skip(r: Result<(Value, Option<Vec<char>>), Fault>) -> Result<
    (Obj, Option<Seq<char>>),
    SFault,
> {
    match r {
        Ok((o, Some(t))) => Ok((o@, Some(t@))),
        Ok((o, None)) => Ok((o@, None)),
        Err(f) => Err(f@),
    }
}

/// What the object a scanner wraps answered to `next`.
fn next_piece_exec(r: Value) -> (p: Result<(Value, Vec<char>), Fault>)
    ensures
        m_word(p) == next_piece(r@),
{
    let ghost ro = r@;
    let mut t = r.to_tuple();
    proof {
        lemma_m_vals(t@);
    }
    if t.len() != 2 {
        let shown = Value::Tuple(t).text();
        return Err(
            Fault::Failed(TrashError::UnexpectedType(lit("tuple with 2 elements"), shown)),
        );
    }
    let piece = t[1].text();
    let o = t.remove(0);
    Ok((o, piece))
}

/// Reads the rest of a word whose first characters `acc` holds.
#[verifier::loop_isolation(false)]
fn scan_word_exec(
    inner: Value,
    acc: Vec<char>,
    fuel: u64,
    frames: &mut Vec<Vars>,
    world: &mut World,
) -> (r: Result<(Value, Vec<char>), Fault>)
    ensures
        (m_word(r), st_of(final(frames)@, *final(world))) == scan_word(
            fuel as nat,
            inner@,
            acc@,
            st_of(old(frames)@, *old(world)),
        ),
    decreases fuel, 1nat, inner,
{
    let ghost goal = scan_word(fuel as nat, inner@, acc@, st_of(frames@, *world));
    let mut cur = inner;
    let mut acc = acc;
    let mut f = fuel;
    loop
        invariant
            f <= fuel,
            goal == scan_word(f as nat, cur@, acc@, st_of(frames@, *world)),
        decreases f,
    {
        let ghost before = st_of(frames@, *world);
        let next = vec_of(Value::Str(lit("next")));
        let r = match invoke_exec(cur, next, f, frames, world) {
            Err(e) => {
                return Err(e);
            },
            Ok(r) => r,
        };
        let (o, t) = match next_piece_exec(r) {
            Err(e) => {
                return Err(e);
            },
            Ok(p) => p,
        };
        if t.len() == 0 || is_white_space(t[0]) {
            return Ok((o, acc));
        }
        if f == 0 {
            return Err(Fault::OutOfFuel);
        }
        acc.push(t[0]);
        cur = o;
        f = f - 1;
    }
}

/// Reads the next word, skipping whitespace before it.
#[verifier::loop_isolation(false)]
fn scan_skip_exec(inner: Value, fuel: u64, frames: &mut Vec<Vars>, world: &mut World) -> (r:
    Result<(Value, Option<Vec<char>>), Fault>)
    ensures
        (m_skip(r), st_of(final(frames)@, *final(world))) == scan_skip(
            fuel as nat,
            inner@,
            st_of(old(frames)@, *old(world)),
        ),
    decreases fuel, 2nat, inner,
{
    let ghost goal = scan_skip(fuel as nat, inner@, st_of(frames@, *world));
    let mut cur = inner;
    let mut f = fuel;
    loop
        invariant
            f <= fuel,
            goal == scan_skip(f as nat, cur@, st_of(frames@, *world)),
        decreases f,
    {
        let next = vec_of(Value::Str(lit("next")));
        let r = match invoke_exec(cur, next, f, frames, world) {
            Err(e) => {
                return Err(e);
            },
            Ok(r) => r,
        };
        let (o, t) = match next_piece_exec(r) {
            Err(e) => {
                return Err(e);
            },
            Ok(p) => p,
        };
        if t.len() == 0 {
            return Ok((o, None));
        }
        if !is_white_space(t[0]) {
            let first = vec![t[0]];
            assert(first@ == seq![t@[0]]);
            return match scan_word_exec(o, first, f, frames, world) {
                Err(e) => Err(e),
                Ok((o2, w)) => Ok((o2, Some(w))),
            };
        }
        if f == 0 {
            return Err(Fault::OutOfFuel);
        }
        cur = o;
        f = f - 1;
    }
}

/// The object a scanned word gives.
fn scanned_exec(kind: &Vec<char>, w: Option<Vec<char>>) -> (r: Value)
    ensures
        r@ == scanned(
            kind@,
            match w {
                Some(t) => Some(t@),
                None => None,
            },
        ),
{
    match w {
        None => Value::Str(Vec::new()),
        Some(s) => if is_text(kind, "int") {
            match parse_i64(&s) {
                Some(v) => Value::Int(v),
                None => Value::Str(Vec::new()),
            }
        } else {
            Value::Str(s)
        },
    }
}

/// The methods of a scanner over `inner`.
fn scanner_exec(inner: Value, args: Vec<Value>, fuel: u64, frames: &mut Vec<Vars>, world: &mut World) -> (r:
    Result<Value, Fault>)
    ensures
        outcome(r, final(frames)@, *final(world)) == scanner_call(
            fuel as nat,
            inner@,
            m_vals(args@),
            st_of(old(frames)@, *old(world)),
        ),
    decreases fuel, 3nat, inner,
{
    proof {
        lemma_m_vals(args@);
    }
    if args.len() == 0 {
        return Ok(Value::Scanner(Scanner { inner: Box::new(inner) }));
    }
    let m = args[0].text();
    if is_text(&m, "unwrap") {
        return Ok(inner);
    }
    if !is_text(&m, "scan") {
        return Err(Fault::Failed(TrashError::UnknownMethod(m)));
    }
    if args.len() < 2 {
        return Err(Fault::Failed(TrashError::NotEnoughArgs(1, 0)));
    }
    let kind = args[1].text();
    if !is_text(&kind, "int") && !is_text(&kind, "string") {
        return Err(Fault::Failed(TrashError::UnknownMethod(kind)));
    }
    match scan_skip_exec(inner, fuel, frames, world) {
        Err(e) => Err(e),
        Ok((o, w)) => {
            let v = scanned_exec(&kind, w);
            Ok(Value::Tuple(vals2(Value::Scanner(Scanner { inner: Box::new(o) }), v)))
        },
    }
}

/// Parses program text that the grammar and the static check accept.
pub fn parse_program(text: &Vec<char>) -> (b: Block)
    requires
        prepare(text@) is Ok,
    ensures
        prepare(text@) == Ok::<SBlock, SParseError>(b@),
{
    match prepare_exec(text) {
        Ok(b) => b,
        Err(_) => {
            proof {
                assert(false);
            }
            Block { calls: Vec::new() }
        },
    }
}

/// Evaluates an object of the program, where that does not stop the program.
pub fn exec_obj(d: &ObjDef, fuel: u64, frames: &mut Vec<Vars>, world: &mut World) -> (v: Value)
    requires
        ev_obj(fuel as nat, d@, st_of(old(frames)@, *old(world))).0 is Ok,
    ensures
        (Ok::<Obj, SFault>(v@), st_of(final(frames)@, *final(world))) == ev_obj(
            fuel as nat,
            d@,
            st_of(old(frames)@, *old(world)),
        ),
{
    match eval_obj(d, fuel, frames, world) {
        Ok(v) => v,
        Err(_) => {
            proof {
                assert(false);
            }
            Value::Str(Vec::new())
        },
    }
}

/// Runs a body, where that does not stop the program.
pub fn exec_block(b: &Block, fuel: u64, frames: &mut Vec<Vars>, world: &mut World) -> (v: Value)
    requires
        ev_block(fuel as nat, b@, st_of(old(frames)@, *old(world))).0 is Ok,
    ensures
        (Ok::<Obj, SFault>(v@), st_of(final(frames)@, *final(world))) == ev_block(
            fuel as nat,
            b@,
            st_of(old(frames)@, *old(world)),
        ),
{
    match eval_block(b, fuel, frames, world) {
        Ok(v) => v,
        Err(_) => {
            proof {
                assert(false);
            }
            Value::Str(Vec::new())
        },
    }
}

impl Code {
    /// Runs this code with `vars` as its frame, on top of `scope`, with a
    /// budget of `fuel` calls and rounds; what would stop the program comes
    /// back as a `Fault`.
    pub fn try_run(self, vars: Vars, scope: &mut Vec<Vars>, world: &mut World, fuel: u64) -> (r:
        Result<Value, Fault>)
        ensures
            outcome(r, final(scope)@, *final(world)) == run_code(
                fuel as nat,
                self.text@,
                m_parsed(self.parsed),
                vars@,
                st_of(old(scope)@, *old(world)),
            ),
    {
        run_code_exec(self, vars, fuel, scope, world)
    }

    /// Runs this code with `vars` as its frame, on top of `scope`, where that
    /// does not stop the program.
    pub fn run(self, vars: Vars, scope: &mut Vec<Vars>, world: &mut World) -> (v: Value)
        requires
            run_code(
                u64::MAX as nat,
                self.text@,
                m_parsed(self.parsed),
                vars@,
                st_of(old(scope)@, *old(world)),
            ).0 is Ok,
        ensures
            (Ok::<Obj, SFault>(v@), st_of(final(scope)@, *final(world))) == run_code(
                u64::MAX as nat,
                self.text@,
                m_parsed(self.parsed),
                vars@,
                st_of(old(scope)@, *old(world)),
            ),
    {
        match run_code_exec(self, vars, u64::MAX, scope, world) {
            Ok(v) => v,
            Err(_) => {
                proof {
                    assert(false);
                }
                Value::Str(Vec::new())
            },
        }
    }
}

} // verus!
