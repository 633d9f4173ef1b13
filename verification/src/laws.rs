//! Laws of the language: what every evaluation keeps, and how operations
//! relate to each other.
use vstd::prelude::*;
use crate::syntax::{
    SBlock, SObjDef, SDef, SParseError, p_obj, p_lit, word_end, is_word_char, lemma_word_end,
};
use crate::check::{is_set_call, check_obj, check_objs, check_target, check_calls, check_program};
use crate::value::{Obj, to_tuple};
use crate::semantics::{
    St, take_var, set_var, push_frame, pop_frame, prepare, assign, assign_list, ev_block, ev_calls,
    ev_obj, ev_list, invoke, call_obj, move_vars, run_code, tuple_call, if_call, while_loop,
    resolve_index, next_piece, scan_word, scan_skip, scanner_call,
};
use crate::methods::{arith, bool_of, bool_call, int_obj, int_call, int_of, str_call, is_arith, is_compare};
use crate::vars::{frame_of, lookup};
use crate::world::{SWorld, write_out, read_in, lemma_join_push, texts_of};
use crate::value::{display, display_items, has_stream};
use crate::error::{SError, SFault};
use crate::text::{
    digit_char, nat_text, int_text, is_digit, all_digits, digits_value, parse_i64_spec,
    parse_bool_spec, bool_text, text_true, text_false, utf8_len, occurs_at, find_from, split_from,
    split_text, join, char_pieces, white_space, signed_value, parse_usize_spec, parse_isize_spec,
};

verus! {

// ---------------------------------------------------------------------------
// What every evaluation keeps
// ---------------------------------------------------------------------------

/// From `a` to `b` the streams only moved forward: the output was only
/// appended to, the input stayed the same and was only read further.
pub open spec fn world_grows(a: SWorld, b: SWorld) -> bool {
    &&& b.input == a.input
    &&& a.pos <= b.pos
    &&& a.out.is_prefix_of(b.out)
}

/// `b` has as many frames as `a`, and all of them but the current (last) one
/// are unchanged.
pub open spec fn outer_kept(a: Seq<Map<Seq<char>, Obj>>, b: Seq<Map<Seq<char>, Obj>>) -> bool {
    &&& b.len() == a.len()
    &&& forall|i: int| 0 <= i < a.len() - 1 ==> #[trigger] b[i] == a[i]
}

/// The step from `a` to `b` only moved the streams forward and, when it
/// succeeded (`ok`), changed no frame but the current one.
pub open spec fn evolves(a: St, b: St, ok: bool) -> bool {
    &&& world_grows(a.world, b.world)
    &&& ok ==> outer_kept(a.frames, b.frames)
}

proof fn lemma_evolves_trans(a: St, b: St, c: St, p: bool, q: bool)
    requires
        evolves(a, b, p),
        evolves(b, c, q),
    ensures
        evolves(a, c, p && q),
{
    assert(a.world.out =~= c.world.out.subrange(0, a.world.out.len() as int));
}

proof fn lemma_set_var(st: St, n: Seq<char>, v: Obj)
    ensures
        evolves(st, set_var(st, n, v), true),
{
    assert(st.world.out =~= st.world.out.subrange(0, st.world.out.len() as int));
}

proof fn lemma_take_var(st: St, n: Seq<char>)
    ensures
        evolves(st, take_var(st, n).1, true),
{
    assert(st.world.out =~= st.world.out.subrange(0, st.world.out.len() as int));
}

proof fn lemma_same(st: St, ok: bool)
    ensures
        evolves(st, st, ok),
{
    assert(st.world.out =~= st.world.out.subrange(0, st.world.out.len() as int));
}

/// Assigning changes only the current frame, whether it fails or not.
proof fn lemma_assign(t: SObjDef, v: Obj, st: St)
    ensures
        evolves(st, assign(t, v, st).1, true),
    decreases t,
{
    lemma_same(st, true);
    match t.def {
        SDef::Str(n) => lemma_set_var(st, n, v),
        SDef::Tuple(targets) => {
            let vs = to_tuple(v);
            if targets.len() == vs.len() {
                lemma_assign_list(targets, vs, st);
            }
        },
        _ => {},
    }
}

proof fn lemma_assign_list(targets: Seq<SObjDef>, vs: Seq<Obj>, st: St)
    ensures
        evolves(st, assign_list(targets, vs, st).1, true),
    decreases targets,
{
    lemma_same(st, true);
    if targets.len() > 0 && vs.len() > 0 {
        lemma_assign(targets[0], vs[0], st);
        let (e, st1) = assign(targets[0], vs[0], st);
        if e is None {
            let rt = targets.subrange(1, targets.len() as int);
            let rv = vs.subrange(1, vs.len() as int);
            lemma_assign_list(rt, rv, st1);
            lemma_evolves_trans(st, st1, assign_list(rt, rv, st1).1, true, true);
        }
    }
}

proof fn lemma_ev_block(fuel: nat, b: SBlock, st: St)
    ensures
        evolves(st, ev_block(fuel, b, st).1, ev_block(fuel, b, st).0 is Ok),
    decreases fuel, 1nat, b,
{
    lemma_ev_calls(fuel, b.calls, Obj::Str(Seq::empty()), st);
}

proof fn lemma_ev_calls(fuel: nat, calls: Seq<Seq<SObjDef>>, last: Obj, st: St)
    ensures
        evolves(
            st,
            ev_calls(fuel, calls, last, st).1,
            ev_calls(fuel, calls, last, st).0 is Ok,
        ),
    decreases fuel, 1nat, calls,
{
    lemma_same(st, true);
    if calls.len() > 0 {
        let call = calls[0];
        let rest = calls.subrange(1, calls.len() as int);
        if is_set_call(call) {
            if call.len() >= 3 {
                lemma_ev_obj(fuel, call[2], st);
                let (r1, st1) = ev_obj(fuel, call[2], st);
                if let Ok(v) = r1 {
                    lemma_assign(call[1], v, st1);
                    let (e2, st2) = assign(call[1], v, st1);
                    lemma_evolves_trans(st, st1, st2, true, true);
                    if e2 is None {
                        lemma_ev_calls(fuel, rest, Obj::Str(Seq::empty()), st2);
                        let fin = ev_calls(fuel, rest, Obj::Str(Seq::empty()), st2);
                        lemma_evolves_trans(st, st2, fin.1, true, fin.0 is Ok);
                    }
                }
            }
        } else if call.len() == 0 {
            lemma_ev_calls(fuel, rest, Obj::Str(Seq::empty()), st);
        } else {
            lemma_ev_obj(fuel, call[0], st);
            let (r1, st1) = ev_obj(fuel, call[0], st);
            if let Ok(f) = r1 {
                let objs = call.subrange(1, call.len() as int);
                lemma_ev_list(fuel, objs, st1);
                let (r2, st2) = ev_list(fuel, objs, st1);
                lemma_evolves_trans(st, st1, st2, true, r2 is Ok);
                if let Ok(args) = r2 {
                    law_call_effects(fuel, f, args, st2);
                    let (r3, st3) = invoke(fuel, f, args, st2);
                    lemma_evolves_trans(st, st2, st3, true, r3 is Ok);
                    if let Ok(r) = r3 {
                        lemma_ev_calls(fuel, rest, r, st3);
                        let fin = ev_calls(fuel, rest, r, st3);
                        lemma_evolves_trans(st, st3, fin.1, true, fin.0 is Ok);
                    }
                }
            }
        }
    }
}

proof fn lemma_ev_obj(fuel: nat, d: SObjDef, st: St)
    ensures
        evolves(st, ev_obj(fuel, d, st).1, ev_obj(fuel, d, st).0 is Ok),
    decreases fuel, 1nat, d,
{
    lemma_same(st, true);
    match d.def {
        SDef::Move(n) => lemma_take_var(st, n),
        SDef::Call(objs) => {
            if objs.len() > 0 {
                lemma_ev_obj(fuel, objs[0], st);
                let (r1, st1) = ev_obj(fuel, objs[0], st);
                if let Ok(f) = r1 {
                    let rest = objs.subrange(1, objs.len() as int);
                    lemma_ev_list(fuel, rest, st1);
                    let (r2, st2) = ev_list(fuel, rest, st1);
                    lemma_evolves_trans(st, st1, st2, true, r2 is Ok);
                    if let Ok(args) = r2 {
                        law_call_effects(fuel, f, args, st2);
                        let (r3, st3) = invoke(fuel, f, args, st2);
                        lemma_evolves_trans(st, st2, st3, true, r3 is Ok);
                    }
                }
            }
        },
        SDef::Tuple(objs) => lemma_ev_list(fuel, objs, st),
        _ => {},
    }
}

proof fn lemma_ev_list(fuel: nat, objs: Seq<SObjDef>, st: St)
    ensures
        evolves(st, ev_list(fuel, objs, st).1, ev_list(fuel, objs, st).0 is Ok),
    decreases fuel, 1nat, objs,
{
    lemma_same(st, true);
    if objs.len() > 0 {
        lemma_ev_obj(fuel, objs[0], st);
        let (r1, st1) = ev_obj(fuel, objs[0], st);
        if r1 is Ok {
            let rest = objs.subrange(1, objs.len() as int);
            lemma_ev_list(fuel, rest, st1);
            let (r2, st2) = ev_list(fuel, rest, st1);
            lemma_evolves_trans(st, st1, st2, true, r2 is Ok);
        }
    }
}

/// Law: a call of any object only moves the streams forward (its output is
/// appended to what was written before, and input is only read further) and,
/// when it succeeds, changes no frame but the caller's own.
pub proof fn law_call_effects(fuel: nat, f: Obj, args: Seq<Obj>, st: St)
    ensures
        evolves(st, invoke(fuel, f, args, st).1, invoke(fuel, f, args, st).0 is Ok),
    decreases fuel, 0nat, f,
{
    lemma_same(st, true);
    if fuel > 0 {
        lemma_call_obj((fuel - 1) as nat, f, args, st);
    }
}

proof fn lemma_call_obj(fuel: nat, f: Obj, args: Seq<Obj>, st: St)
    ensures
        evolves(st, call_obj(fuel, f, args, st).1, call_obj(fuel, f, args, st).0 is Ok),
    decreases fuel, 3nat, f,
{
    lemma_same(st, true);
    match f {
        Obj::Tuple(items) => lemma_tuple_call(fuel, items, args, st),
        Obj::Code(t, p) => law_run_effects(fuel, t, p, frame_of(args), st),
        Obj::MovClos(t, p, names) => {
            if st.frames.len() > 0 {
                match move_vars(names, frame_of(args), st.frames.last()) {
                    Err(n) => {
                        assert(st.world.out =~= st.world.out.subrange(
                            0,
                            st.world.out.len() as int,
                        ));
                    },
                    Ok((params, top)) => {
                        let st1 = St {
                            frames: st.frames.update(st.frames.len() - 1, top),
                            ..st
                        };
                        law_run_effects(fuel, t, p, params, st1);
                        assert(evolves(st, st1, true));
                        lemma_evolves_trans(
                            st,
                            st1,
                            run_code(fuel, t, p, params, st1).1,
                            true,
                            run_code(fuel, t, p, params, st1).0 is Ok,
                        );
                    },
                }
            }
        },
        Obj::If => lemma_if_call(fuel, args, st),
        Obj::Scanner(inner) => lemma_scanner_call(fuel, *inner, args, st),
        Obj::While => {
            if args.len() >= 3 {
                lemma_while_loop(fuel, to_tuple(args[0]), args[1], args[2], st);
            }
        },
        Obj::Stdout | Obj::Puts => {
            let w = write_out(st.world, args);
            assert(st.world.out =~= w.out.subrange(0, st.world.out.len() as int));
        },
        Obj::Stdin => {
            if args.len() > 0 {
                let w = read_in(st.world).1;
                assert(st.world.out =~= w.out.subrange(0, st.world.out.len() as int));
            }
        },
        _ => {},
    }
}

/// Law: running code (a program or a closure) only moves the streams forward
/// and, when it succeeds, leaves the frames of its caller exactly as they were.
pub proof fn law_run_effects(
    fuel: nat,
    text: Seq<char>,
    parsed: Option<SBlock>,
    frame: Map<Seq<char>, Obj>,
    st: St,
)
    ensures
        world_grows(st.world, run_code(fuel, text, parsed, frame, st).1.world),
        run_code(fuel, text, parsed, frame, st).0 is Ok ==> run_code(
            fuel,
            text,
            parsed,
            frame,
            st,
        ).1.frames == st.frames,
    decreases fuel, 2nat, text,
{
    lemma_same(st, true);
    let body = match parsed {
        Some(b) => Ok(b),
        None => prepare(text),
    };
    if let Ok(b) = body {
        let st0 = push_frame(st, frame);
        lemma_ev_block(fuel, b, st0);
        let (r, st1) = ev_block(fuel, b, st0);
        if r is Ok {
            assert(st1.frames.len() == st.frames.len() + 1);
            assert(forall|i: int| 0 <= i < st.frames.len() ==> st1.frames[i] == #[trigger] st0.frames[i]);
            assert(pop_frame(st1).frames =~= st.frames);
        }
    }
}

proof fn lemma_tuple_call(fuel: nat, items: Seq<Obj>, args: Seq<Obj>, st: St)
    ensures
        evolves(st, tuple_call(fuel, items, args, st).1, tuple_call(fuel, items, args, st).0 is Ok),
    decreases fuel, 2nat, items,
{
    lemma_same(st, true);
    if args.len() >= 3 {
        match crate::text::parse_isize_spec(crate::value::display(args[1])) {
            Some(ind) => {
                let idx = resolve_index(items.len(), ind);
                if 0 <= idx < items.len() {
                    law_call_effects(fuel, args[2], seq![items[idx]], st);
                }
            },
            None => {},
        }
    }
}

proof fn lemma_scan_word(fuel: nat, inner: Obj, acc: Seq<char>, st: St)
    ensures
        evolves(st, scan_word(fuel, inner, acc, st).1, scan_word(fuel, inner, acc, st).0 is Ok),
    decreases fuel, 1nat, inner,
{
    lemma_same(st, true);
    let next = seq![Obj::Str("next"@)];
    law_call_effects(fuel, inner, next, st);
    let (r1, st1) = invoke(fuel, inner, next, st);
    if let Ok(r) = r1 {
        if let Ok((o, t)) = next_piece(r) {
            if !(t.len() == 0 || white_space(t[0])) && fuel > 0 {
                lemma_scan_word((fuel - 1) as nat, o, acc.push(t[0]), st1);
                let fin = scan_word((fuel - 1) as nat, o, acc.push(t[0]), st1);
                lemma_evolves_trans(st, st1, fin.1, true, fin.0 is Ok);
            }
        }
    }
}

proof fn lemma_scan_skip(fuel: nat, inner: Obj, st: St)
    ensures
        evolves(st, scan_skip(fuel, inner, st).1, scan_skip(fuel, inner, st).0 is Ok),
    decreases fuel, 2nat, inner,
{
    lemma_same(st, true);
    let next = seq![Obj::Str("next"@)];
    law_call_effects(fuel, inner, next, st);
    let (r1, st1) = invoke(fuel, inner, next, st);
    if let Ok(r) = r1 {
        if let Ok((o, t)) = next_piece(r) {
            if t.len() > 0 {
                if white_space(t[0]) {
                    if fuel > 0 {
                        lemma_scan_skip((fuel - 1) as nat, o, st1);
                        let fin = scan_skip((fuel - 1) as nat, o, st1);
                        lemma_evolves_trans(st, st1, fin.1, true, fin.0 is Ok);
                    }
                } else {
                    lemma_scan_word(fuel, o, seq![t[0]], st1);
                    let fin = scan_word(fuel, o, seq![t[0]], st1);
                    lemma_evolves_trans(st, st1, fin.1, true, fin.0 is Ok);
                }
            }
        }
    }
}

proof fn lemma_scanner_call(fuel: nat, inner: Obj, args: Seq<Obj>, st: St)
    ensures
        evolves(
            st,
            scanner_call(fuel, inner, args, st).1,
            scanner_call(fuel, inner, args, st).0 is Ok,
        ),
    decreases fuel, 3nat, inner,
{
    lemma_same(st, true);
    lemma_scan_skip(fuel, inner, st);
}

proof fn lemma_if_call(fuel: nat, args: Seq<Obj>, st: St)
    ensures
        evolves(st, if_call(fuel, args, st).1, if_call(fuel, args, st).0 is Ok),
    decreases fuel, 2nat, args,
{
    lemma_same(st, true);
    if args.len() >= 4 {
        law_call_effects(fuel, args[0], Seq::empty(), st);
        let (r1, st1) = invoke(fuel, args[0], Seq::empty(), st);
        if let Ok(c) = r1 {
            let t = to_tuple(c);
            if t.len() > 0 {
                match bool_of(t.last()) {
                    Ok(true) => {
                        law_call_effects(fuel, args[1], t.drop_last(), st1);
                        let fin = invoke(fuel, args[1], t.drop_last(), st1);
                        lemma_evolves_trans(st, st1, fin.1, true, fin.0 is Ok);
                    },
                    Ok(false) => {
                        law_call_effects(fuel, args[3], t.drop_last(), st1);
                        let fin = invoke(fuel, args[3], t.drop_last(), st1);
                        lemma_evolves_trans(st, st1, fin.1, true, fin.0 is Ok);
                    },
                    Err(_) => {},
                }
            }
        }
    }
}

proof fn lemma_while_loop(fuel: nat, set: Seq<Obj>, cond: Obj, body: Obj, st: St)
    ensures
        evolves(
            st,
            while_loop(fuel, set, cond, body, st).1,
            while_loop(fuel, set, cond, body, st).0 is Ok,
        ),
    decreases fuel, 2nat, set,
{
    lemma_same(st, true);
    if set.len() > 0 {
        let rest = set.subrange(1, set.len() as int);
        law_call_effects(fuel, cond, to_tuple(set[0]), st);
        let (r1, st1) = invoke(fuel, cond, to_tuple(set[0]), st);
        if let Ok(c) = r1 {
            law_call_effects(fuel, body, rest, st1);
            let (r2, st2) = invoke(fuel, body, rest, st1);
            lemma_evolves_trans(st, st1, st2, true, r2 is Ok);
            if let Ok(next) = r2 {
                if fuel > 0 {
                    lemma_while_loop((fuel - 1) as nat, to_tuple(next), cond, body, st2);
                    let fin = while_loop((fuel - 1) as nat, to_tuple(next), cond, body, st2);
                    lemma_evolves_trans(st, st2, fin.1, true, fin.0 is Ok);
                }
            }
        }
    }
}

// ---------------------------------------------------------------------------
// Numbers as text
// ---------------------------------------------------------------------------

proof fn lemma_nat_text(n: nat)
    ensures
        nat_text(n).len() > 0,
        all_digits(nat_text(n)),
        digits_value(nat_text(n)) == n,
    decreases n,
{
    if n < 10 {
        let c = digit_char(n as int);
        assert(c as int == n + 48);
        assert(seq![c].drop_last() =~= Seq::<char>::empty());
        assert(digits_value(Seq::<char>::empty()) == 0);
        assert(digits_value(seq![c]) == n);
    } else {
        lemma_nat_text(n / 10);
        assert(n == (n / 10) * 10 + n % 10) by (nonlinear_arith);
        let t = nat_text(n / 10);
        let c = digit_char((n % 10) as int);
        assert(c as int == n % 10 + 48);
        assert(t.push(c).drop_last() =~= t);
        assert(digits_value(t.push(c)) == digits_value(t) * 10 + (n % 10));
        assert(all_digits(t.push(c))) by {
            assert forall|i: int| 0 <= i < t.push(c).len() implies is_digit(#[trigger] t.push(c)[i]) by {
                if i < t.len() {
                    assert(t.push(c)[i] == t[i]);
                }
            }
        }
    }
}

/// Decimal texts of different natural numbers differ.
pub proof fn lemma_nat_text_injective(a: nat, b: nat)
    ensures
        nat_text(a) == nat_text(b) ==> a == b,
{
    lemma_nat_text(a);
    lemma_nat_text(b);
}

/// Law: the text of an integer reads back as that integer, so the builtin
/// `int` gives back any integer from its text.
pub proof fn law_int_text_round_trip(v: i64)
    ensures
        parse_i64_spec(int_text(v as int)) == Some(v),
        int_obj(Obj::Str(display(Obj::Int(v)))) == Ok::<Obj, SError>(Obj::Int(v)),
{
    if v < 0 {
        let t = nat_text((-v) as nat);
        lemma_nat_text((-v) as nat);
        assert((seq!['-'] + t).drop_first() =~= t);
    } else {
        lemma_nat_text(v as nat);
        let t = nat_text(v as nat);
        assert(is_digit(t[0]));
    }
}

/// Texts that start with different characters differ.
proof fn lemma_texts_differ(a: Seq<char>, b: Seq<char>)
    requires
        a.len() > 0,
        b.len() > 0,
        a[0] != b[0],
    ensures
        a != b,
{
}

/// Law: the text of a boolean reads back as that boolean, and the text an
/// integer comparison gives reads back as the outcome of the comparison, as
/// `if` and `while` read it.
#[verifier::spinoff_prover]
pub proof fn law_bool_text_round_trip(b: bool, x: i64, y: i64)
    ensures
        parse_bool_spec(bool_text(b)) == Some(b),
        bool_of(Obj::Str(bool_text(b))) == Ok::<bool, Seq<char>>(b),
        int_call(x, seq![Obj::Str("lt"@), Obj::Int(y)]) == Ok::<Obj, SFault>(
            Obj::Str(bool_text(x < y)),
        ),
        int_call(x, seq![Obj::Str("gt"@), Obj::Int(y)]) == Ok::<Obj, SFault>(
            Obj::Str(bool_text(x > y)),
        ),
        int_call(x, seq![Obj::Str("eq"@), Obj::Int(y)]) == Ok::<Obj, SFault>(
            Obj::Str(bool_text(x == y)),
        ),
{
    reveal_strlit("lt");
    reveal_strlit("gt");
    reveal_strlit("eq");
    reveal_strlit("add");
    reveal_strlit("sub");
    reveal_strlit("mul");
    reveal_strlit("div");
    reveal_strlit("rem");
    lemma_texts_differ("lt"@, "eq"@);
    lemma_texts_differ("lt"@, "gt"@);
    lemma_texts_differ("gt"@, "eq"@);
    lemma_texts_differ(text_true(), text_false());
    let eq = seq![Obj::Str("eq"@), Obj::Int(y)];
    assert(display(eq[0]) == "eq"@);
    assert(int_of(eq[1]) == Ok::<i64, Seq<char>>(y));
    assert(!is_arith("eq"@) && is_compare("eq"@));
    assert(int_call(x, eq) == Ok::<Obj, SFault>(Obj::Str(bool_text(x == y))));
    let lt = seq![Obj::Str("lt"@), Obj::Int(y)];
    let gt = seq![Obj::Str("gt"@), Obj::Int(y)];
    assert(display(lt[0]) == "lt"@);
    assert(display(gt[0]) == "gt"@);
    assert(int_of(lt[1]) == Ok::<i64, Seq<char>>(y));
    assert(int_of(gt[1]) == Ok::<i64, Seq<char>>(y));
    assert(!is_arith("lt"@) && is_compare("lt"@) && !is_arith("gt"@) && is_compare("gt"@));
}

/// Law: the frame of a call names its arguments `1`, `2`, ... in order, and
/// holds nothing else.
pub proof fn law_arguments_are_numbered(args: Seq<Obj>)
    ensures
        forall|i: int|
            1 <= i <= args.len() ==> frame_of(args).contains_key(#[trigger] int_text(i))
                && frame_of(args)[int_text(i)] == args[i - 1],
        forall|k: Seq<char>|
            #[trigger] frame_of(args).contains_key(k) ==> exists|i: int|
                1 <= i <= args.len() && k == #[trigger] int_text(i),
    decreases args.len(),
{
    if args.len() > 0 {
        let pre = args.drop_last();
        law_arguments_are_numbered(pre);
        let n = args.len() as int;
        assert forall|i: int| 1 <= i <= args.len() implies frame_of(args).contains_key(
            #[trigger] int_text(i),
        ) && frame_of(args)[int_text(i)] == args[i - 1] by {
            if i < n {
                lemma_nat_text_injective(i as nat, n as nat);
                assert(frame_of(pre).contains_key(int_text(i)));
                assert(pre[i - 1] == args[i - 1]);
            }
        }
        assert forall|k: Seq<char>| #[trigger] frame_of(args).contains_key(k) implies exists|i: int|
            1 <= i <= args.len() && k == #[trigger] int_text(i) by {
            if k != int_text(n) {
                assert(frame_of(pre).contains_key(k));
                let i = choose|i: int| 1 <= i <= pre.len() && k == #[trigger] int_text(i);
                assert(1 <= i <= args.len() && k == int_text(i));
            } else {
                assert(1 <= n <= args.len() && k == int_text(n));
            }
        }
    }
}

// ---------------------------------------------------------------------------
// Strings
// ---------------------------------------------------------------------------

/// The UTF-8 length of a concatenation is the sum of the lengths.
pub proof fn lemma_utf8_len_concat(s: Seq<char>, t: Seq<char>)
    ensures
        utf8_len(s + t) == utf8_len(s) + utf8_len(t),
    decreases t.len(),
{
    if t.len() == 0 {
        assert(s + t =~= s);
    } else {
        lemma_utf8_len_concat(s, t.drop_last());
        assert((s + t).drop_last() =~= s + t.drop_last());
        assert((s + t).last() == t.last());
    }
}

/// Law: `push` appends the text of its argument, and the `len` of the result
/// is the sum of the two lengths.
pub proof fn law_push_adds_lengths(s: Seq<char>, t: Seq<char>)
    ensures
        str_call(s, seq![Obj::Str("push"@), Obj::Str(t)]) == Ok::<Obj, SFault>(Obj::Str(s + t)),
        utf8_len(s + t) == utf8_len(s) + utf8_len(t),
{
    reveal_strlit("push");
    reveal_strlit("len");
    reveal_strlit("_len");
    reveal_strlit("chars");
    reveal_strlit("split");
    lemma_texts_differ("push"@, "_len"@);
    assert("push"@ != "_len"@);
    assert("push"@.len() == 4);
    assert("len"@.len() == 3);
    assert("push"@ != "len"@);
    let a = seq![Obj::Str("push"@), Obj::Str(t)];
    let m = display(a[0]);
    assert(m == "push"@);
    assert(!(m == "len"@ || m == "_len"@));
    assert(m != "chars"@);
    assert(m != "split"@);
    lemma_utf8_len_concat(s, t);
}

/// Law: `eq` of strings is symmetric and holds exactly of equal strings.
pub proof fn law_string_eq(s: Seq<char>, t: Seq<char>)
    ensures
        str_call(s, seq![Obj::Str("eq"@), Obj::Str(t)]) == Ok::<Obj, SFault>(Obj::Bool(s == t)),
        str_call(s, seq![Obj::Str("eq"@), Obj::Str(t)]) == str_call(
            t,
            seq![Obj::Str("eq"@), Obj::Str(s)],
        ),
{
    reveal_strlit("eq");
    reveal_strlit("push");
    reveal_strlit("len");
    reveal_strlit("_len");
    reveal_strlit("chars");
    reveal_strlit("split");
    reveal_strlit("_eq");
    let a = seq![Obj::Str("eq"@), Obj::Str(t)];
    let m = display(a[0]);
    assert(m == "eq"@);
    assert(!(m == "len"@ || m == "_len"@));
    assert(m != "chars"@);
    assert(m != "split"@);
    assert(m != "push"@);
    assert(str_call(s, a) == Ok::<Obj, SFault>(Obj::Bool(s == t)));
    let b = seq![Obj::Str("eq"@), Obj::Str(s)];
    assert(display(b[0]) == "eq"@);
    assert(str_call(t, b) == Ok::<Obj, SFault>(Obj::Bool(t == s)));
}

proof fn lemma_find_from(s: Seq<char>, d: Seq<char>, i: int)
    ensures
        find_from(s, d, i) == -1 || (i <= find_from(s, d, i) && occurs_at(
            s,
            d,
            find_from(s, d, i),
        )),
    decreases s.len() + 1 - i,
{
    if !(i < 0 || i + d.len() > s.len()) && !occurs_at(s, d, i) {
        lemma_find_from(s, d, i + 1);
    }
}

proof fn lemma_split_from_len(s: Seq<char>, d: Seq<char>, i: int)
    ensures
        split_from(s, d, i).len() >= 1,
    decreases s.len() - i,
{
    let k = find_from(s, d, i);
    lemma_find_from(s, d, i);
    if !(d.len() == 0 || i < 0 || i > s.len() || k < i || k + d.len() > s.len()) {
        lemma_split_from_len(s, d, k + d.len());
    }
}

proof fn lemma_join_prepend(a: Seq<char>, r: Seq<Seq<char>>, sep: Seq<char>)
    requires
        r.len() >= 1,
    ensures
        join(seq![a] + r, sep) == a + sep + join(r, sep),
    decreases r.len(),
{
    let x = seq![a] + r;
    if r.len() == 1 {
        assert(x.drop_last() =~= seq![a]);
        assert(x.last() == r[0]);
        assert(join(seq![a], sep) == a);
        assert(join(r, sep) == r[0]);
        assert(join(x, sep) == join(x.drop_last(), sep) + sep + x.last());
    } else {
        lemma_join_prepend(a, r.drop_last(), sep);
        assert(x.drop_last() =~= seq![a] + r.drop_last());
        assert(x.last() == r.last());
        assert(join(x, sep) == join(x.drop_last(), sep) + sep + x.last());
        assert(join(r, sep) == join(r.drop_last(), sep) + sep + r.last());
        assert(a + sep + join(r.drop_last(), sep) + sep + r.last() =~= a + sep + (join(
            r.drop_last(),
            sep,
        ) + sep + r.last()));
    }
}

proof fn lemma_split_from_join(s: Seq<char>, d: Seq<char>, i: int)
    requires
        d.len() > 0,
        0 <= i <= s.len(),
    ensures
        join(split_from(s, d, i), d) == s.subrange(i, s.len() as int),
    decreases s.len() - i,
{
    let k = find_from(s, d, i);
    lemma_find_from(s, d, i);
    if k < i || k + d.len() > s.len() {
        assert(split_from(s, d, i) == seq![s.subrange(i, s.len() as int)]);
    } else {
        let j = k + d.len();
        lemma_split_from_join(s, d, j);
        lemma_split_from_len(s, d, j);
        lemma_join_prepend(s.subrange(i, k), split_from(s, d, j), d);
        assert(s.subrange(k, j) == d);
        assert(s.subrange(i, k) + d + s.subrange(j, s.len() as int) =~= s.subrange(
            i,
            s.len() as int,
        ));
    }
}

proof fn lemma_join_chars(s: Seq<char>, n: int)
    requires
        0 <= n <= s.len(),
    ensures
        join(
            seq![Seq::<char>::empty()] + char_pieces(s).subrange(0, n),
            Seq::empty(),
        ) == s.subrange(0, n),
    decreases n,
{
    let t = char_pieces(s);
    let x = seq![Seq::<char>::empty()] + t.subrange(0, n);
    if n == 0 {
        assert(x =~= seq![Seq::<char>::empty()]);
    } else {
        lemma_join_chars(s, n - 1);
        let y = seq![Seq::<char>::empty()] + t.subrange(0, n - 1);
        assert(x =~= y.push(t[n - 1]));
        lemma_join_push(y, t[n - 1], Seq::empty());
        assert(s.subrange(0, n - 1) + Seq::<char>::empty() + seq![s[n - 1]] =~= s.subrange(0, n));
    }
}

/// Law: joining the pieces that `split` gives with the delimiter gives the
/// string back, for every delimiter (the empty one too).
pub proof fn law_split_then_join(s: Seq<char>, d: Seq<char>)
    ensures
        join(split_text(s, d), d) == s,
{
    if d.len() == 0 {
        assert(d =~= Seq::<char>::empty());
        let t = char_pieces(s);
        lemma_join_chars(s, s.len() as int);
        assert(t.subrange(0, s.len() as int) =~= t);
        let y = seq![Seq::<char>::empty()] + t;
        assert(seq![Seq::<char>::empty()] + t.subrange(0, s.len() as int) == y);
        assert(join(y, d) == s.subrange(0, s.len() as int));
        assert(s.subrange(0, s.len() as int) =~= s);
        assert(split_text(s, d) =~= y.push(Seq::<char>::empty()));
        lemma_join_push(y, Seq::empty(), d);
        assert(join(y.push(Seq::<char>::empty()), d) == join(y, d) + d + Seq::<char>::empty());
        assert(s + d + Seq::<char>::empty() =~= s);
    } else {
        lemma_split_from_join(s, d, 0);
        assert(s.subrange(0, s.len() as int) =~= s);
    }
}

// ---------------------------------------------------------------------------
// Objects and variables
// ---------------------------------------------------------------------------

/// Law: a string, an integer, a boolean or a tuple called without arguments
/// returns itself and changes nothing.
pub proof fn law_call_without_arguments(fuel: nat, o: Obj, st: St)
    requires
        o is Str || o is Int || o is Bool || o is Tuple,
    ensures
        call_obj(fuel, o, Seq::empty(), st) == (Ok::<Obj, SFault>(o), st),
{
}

/// Law: pushing onto a tuple and then popping gives back the tuple and the
/// pushed object.
pub proof fn law_tuple_push_then_pop(fuel: nat, items: Seq<Obj>, x: Obj, st: St)
    ensures
        tuple_call(fuel, items, seq![Obj::Str("push"@), x], st) == (
            Ok::<Obj, SFault>(Obj::Tuple(items.push(x))),
            st,
        ),
        tuple_call(fuel, items.push(x), seq![Obj::Str("pop"@)], st) == (
            Ok::<Obj, SFault>(Obj::Tuple(seq![Obj::Tuple(items), x])),
            st,
        ),
{
    reveal_strlit("push");
    reveal_strlit("pop");
    reveal_strlit("len");
    reveal_strlit("_len");
    assert(items.push(x).drop_last() =~= items);
}

/// Law: adding and then subtracting the same integer gives the integer back,
/// when the sum fits in an `i64`.
pub proof fn law_add_then_sub(a: i64, b: i64)
    requires
        i64::MIN <= a + b <= i64::MAX,
    ensures
        int_call(a, seq![Obj::Str("add"@), Obj::Int(b)]) == Ok::<Obj, SFault>(
            Obj::Int((a + b) as i64),
        ),
        int_call((a + b) as i64, seq![Obj::Str("sub"@), Obj::Int(b)]) == Ok::<Obj, SFault>(
            Obj::Int(a),
        ),
{
    reveal_strlit("add");
    reveal_strlit("sub");
    reveal_strlit("mul");
    reveal_strlit("div");
    reveal_strlit("rem");
    lemma_texts_differ("sub"@, "add"@);
    let x = seq![Obj::Str("add"@), Obj::Int(b)];
    let y = seq![Obj::Str("sub"@), Obj::Int(b)];
    assert(display(x[0]) == "add"@);
    assert(display(y[0]) == "sub"@);
    assert(int_of(x[1]) == Ok::<i64, Seq<char>>(b));
    assert(int_of(y[1]) == Ok::<i64, Seq<char>>(b));
}

/// Law: after `$set n v`, both `$n` and `@n` give `v` (a copy only when `v`
/// holds no stream); a copy leaves the variable in place, a move takes it out,
/// so a second `$n` finds nothing (reported at that `$n`).
pub proof fn law_read_after_set(
    fuel: nat,
    st: St,
    n: Seq<char>,
    v: Obj,
    copy: SObjDef,
    mv: SObjDef,
)
    requires
        st.frames.len() > 0,
        copy.def == SDef::Copy(n),
        mv.def == SDef::Move(n),
    ensures
        ({
            let st1 = set_var(st, n, v);
            &&& !has_stream(v) ==> ev_obj(fuel, copy, st1) == (Ok::<Obj, SFault>(v), st1)
            &&& ev_obj(fuel, mv, st1).0 == Ok::<Obj, SFault>(v)
            &&& ev_obj(fuel, mv, ev_obj(fuel, mv, st1).1).0 == Err::<Obj, SFault>(
                SFault::NoSuchVariable(n, mv.text),
            )
        }),
{
    let st1 = set_var(st, n, v);
    assert(st1.frames.last().contains_key(n));
    assert(st1.frames.last()[n] == v);
}

/// The name of a target of `$set` that is an unquoted string.
pub open spec fn target_name(t: SObjDef) -> Seq<char> {
    match t.def {
        SDef::Str(n) => n,
        _ => Seq::empty(),
    }
}

/// All targets are plain names, and no name occurs twice.
pub open spec fn distinct_names(targets: Seq<SObjDef>) -> bool {
    &&& forall|i: int| 0 <= i < targets.len() ==> (#[trigger] targets[i]).def is Str
    &&& forall|i: int, j: int|
        0 <= i < j < targets.len() ==> target_name(#[trigger] targets[i]) != target_name(
            #[trigger] targets[j],
        )
}

proof fn lemma_assign_names(targets: Seq<SObjDef>, vs: Seq<Obj>, st: St)
    requires
        st.frames.len() > 0,
        targets.len() == vs.len(),
        distinct_names(targets),
    ensures
        ({
            let (e, st1) = assign_list(targets, vs, st);
            let before = st.frames.last();
            let after = st1.frames.last();
            &&& e is None
            &&& st1.frames.len() == st.frames.len()
            &&& forall|i: int|
                0 <= i < targets.len() ==> after.contains_key(target_name(#[trigger] targets[i]))
                    && after[target_name(targets[i])] == vs[i]
            &&& forall|k: Seq<char>|
                #![trigger after.contains_key(k)]
                (forall|i: int| 0 <= i < targets.len() ==> target_name(#[trigger] targets[i]) != k)
                    ==> after.contains_key(k) == before.contains_key(k) && (before.contains_key(k) ==> after[k] == before[k])
            &&& forall|k: Seq<char>|
                #[trigger] after.contains_key(k) ==> before.contains_key(k) || exists|i: int|
                    0 <= i < targets.len() && target_name(#[trigger] targets[i]) == k
        }),
    decreases targets.len(),
{
    if targets.len() > 0 {
        let n0 = target_name(targets[0]);
        assert(targets[0].def is Str);
        let st1 = set_var(st, n0, vs[0]);
        assert(assign(targets[0], vs[0], st) == (None::<SFault>, st1));
        let rt = targets.subrange(1, targets.len() as int);
        let rv = vs.subrange(1, vs.len() as int);
        assert forall|i: int| 0 <= i < rt.len() implies (#[trigger] rt[i]).def is Str by {
            assert(rt[i] == targets[i + 1]);
        }
        assert forall|i: int, j: int| 0 <= i < j < rt.len() implies target_name(#[trigger] rt[i])
            != target_name(#[trigger] rt[j]) by {
            assert(rt[i] == targets[i + 1]);
            assert(rt[j] == targets[j + 1]);
        }
        lemma_assign_names(rt, rv, st1);
        let st2 = assign_list(rt, rv, st1).1;
        let mid = st1.frames.last();
        let after = st2.frames.last();
        let before = st.frames.last();
        assert(mid == before.insert(n0, vs[0]));
        assert forall|i: int| 0 <= i < targets.len() implies after.contains_key(
            target_name(#[trigger] targets[i]),
        ) && after[target_name(targets[i])] == vs[i] by {
            if i == 0 {
                assert forall|j: int| 0 <= j < rt.len() implies target_name(#[trigger] rt[j]) != n0 by {
                    assert(rt[j] == targets[j + 1]);
                }
                assert(after.contains_key(n0) == mid.contains_key(n0));
            } else {
                assert(rt[i - 1] == targets[i]);
                assert(rv[i - 1] == vs[i]);
            }
        }
        assert forall|k: Seq<char>|
            (forall|i: int| 0 <= i < targets.len() ==> target_name(#[trigger] targets[i]) != k)
            implies after.contains_key(k) == before.contains_key(k) && (before.contains_key(k) ==> after[k] == before[k]) by {
            assert(target_name(targets[0]) != k);
            assert forall|j: int| 0 <= j < rt.len() implies target_name(#[trigger] rt[j]) != k by {
                assert(rt[j] == targets[j + 1]);
            }
            assert(after.contains_key(k) == mid.contains_key(k));
        }
        assert forall|k: Seq<char>| #[trigger] after.contains_key(k) implies before.contains_key(k)
            || exists|i: int| 0 <= i < targets.len() && target_name(#[trigger] targets[i]) == k by {
            if !before.contains_key(k) && k != n0 {
                assert(mid.contains_key(k) == false);
                let j = choose|j: int| 0 <= j < rt.len() && target_name(#[trigger] rt[j]) == k;
                assert(rt[j] == targets[j + 1]);
                assert(0 <= j + 1 < targets.len() && target_name(targets[j + 1]) == k);
            } else if k == n0 {
                assert(0 <= 0 < targets.len() && target_name(targets[0]) == k);
            }
        }
    }
}

/// Law: `$set (a b ...) v`, with distinct names and a tuple `v` of as many
/// items, sets each name to the item at its position, keeps every other
/// variable of the current frame as it was, and adds no other variable.
pub proof fn law_multiple_assign(t: SObjDef, vs: Seq<Obj>, st: St)
    requires
        st.frames.len() > 0,
        t.def is Tuple,
        t.def->Tuple_0.len() == vs.len(),
        distinct_names(t.def->Tuple_0),
    ensures
        ({
            let targets = t.def->Tuple_0;
            let (e, st1) = assign(t, Obj::Tuple(vs), st);
            let before = st.frames.last();
            let after = st1.frames.last();
            &&& e is None
            &&& st1.frames.len() == st.frames.len()
            &&& forall|i: int|
                0 <= i < targets.len() ==> after.contains_key(target_name(#[trigger] targets[i]))
                    && after[target_name(targets[i])] == vs[i]
            &&& forall|k: Seq<char>|
                #![trigger after.contains_key(k)]
                (forall|i: int| 0 <= i < targets.len() ==> target_name(#[trigger] targets[i]) != k)
                    ==> after.contains_key(k) == before.contains_key(k) && (before.contains_key(k) ==> after[k] == before[k])
            &&& forall|k: Seq<char>|
                #[trigger] after.contains_key(k) ==> before.contains_key(k) || exists|i: int|
                    0 <= i < targets.len() && target_name(#[trigger] targets[i]) == k
        }),
{
    assert(to_tuple(Obj::Tuple(vs)) == vs);
    lemma_assign_names(t.def->Tuple_0, vs, st);
}

/// A text of digits differs from a text that does not start with a digit.
proof fn lemma_digits_differ(m: Seq<char>, name: Seq<char>)
    requires
        m.len() > 0,
        all_digits(m),
        name.len() > 0,
        !is_digit(name[0]),
    ensures
        m != name,
{
    assert(is_digit(m[0]));
}

/// Law: a tuple called with the decimal text of an index below its length
/// gives the item at that index.
pub proof fn law_tuple_index(fuel: nat, items: Seq<Obj>, i: int, st: St)
    requires
        0 <= i < items.len(),
        i <= usize::MAX,
    ensures
        tuple_call(fuel, items, seq![Obj::Str(int_text(i))], st) == (
            Ok::<Obj, SFault>(items[i]),
            st,
        ),
{
    let m = int_text(i);
    lemma_nat_text(i as nat);
    assert(m == nat_text(i as nat));
    assert(display(Obj::Str(m)) == m);
    reveal_strlit("len");
    reveal_strlit("_len");
    reveal_strlit("push");
    reveal_strlit("pop");
    reveal_strlit("is_empty");
    reveal_strlit("_is_empty");
    reveal_strlit("with");
    reveal_strlit("without");
    lemma_digits_differ(m, "len"@);
    lemma_digits_differ(m, "_len"@);
    lemma_digits_differ(m, "push"@);
    lemma_digits_differ(m, "pop"@);
    lemma_digits_differ(m, "is_empty"@);
    lemma_digits_differ(m, "_is_empty"@);
    lemma_digits_differ(m, "with"@);
    lemma_digits_differ(m, "without"@);
    assert(is_digit(m[0]));
    assert(signed_value(m) == Some(i));
    assert(parse_usize_spec(m) == Some(i as usize));
}

// ---------------------------------------------------------------------------
// Methods of booleans and integers
// ---------------------------------------------------------------------------

/// Law: for all booleans `a` and `b`, `a` called with `and`, `or`, `xor` or
/// `eq` and `b` gives `a && b`, `a || b`, `a != b` and `a == b`, and `a`
/// called with `not` gives `!a`.
pub proof fn law_boolean_methods(a: bool, b: bool)
    ensures
        bool_call(a, seq![Obj::Str("and"@), Obj::Bool(b)]) == Ok::<Obj, SFault>(Obj::Bool(a && b)),
        bool_call(a, seq![Obj::Str("or"@), Obj::Bool(b)]) == Ok::<Obj, SFault>(Obj::Bool(a || b)),
        bool_call(a, seq![Obj::Str("xor"@), Obj::Bool(b)]) == Ok::<Obj, SFault>(Obj::Bool(a != b)),
        bool_call(a, seq![Obj::Str("eq"@), Obj::Bool(b)]) == Ok::<Obj, SFault>(Obj::Bool(a == b)),
        bool_call(a, seq![Obj::Str("not"@)]) == Ok::<Obj, SFault>(Obj::Bool(!a)),
{
    reveal_strlit("and");
    reveal_strlit("or");
    reveal_strlit("xor");
    reveal_strlit("eq");
    reveal_strlit("not");
    lemma_texts_differ("xor"@, "and"@);
    lemma_texts_differ("or"@, "eq"@);
    lemma_texts_differ("not"@, "and"@);
    lemma_texts_differ("not"@, "xor"@);
    let x = Obj::Bool(b);
    let and = seq![Obj::Str("and"@), x];
    let or = seq![Obj::Str("or"@), x];
    let xor = seq![Obj::Str("xor"@), x];
    let eq = seq![Obj::Str("eq"@), x];
    let not = seq![Obj::Str("not"@)];
    assert(display(and[0]) == "and"@ && bool_of(and[1]) == Ok::<bool, Seq<char>>(b));
    assert(display(or[0]) == "or"@ && bool_of(or[1]) == Ok::<bool, Seq<char>>(b));
    assert(display(xor[0]) == "xor"@ && bool_of(xor[1]) == Ok::<bool, Seq<char>>(b));
    assert(display(eq[0]) == "eq"@ && bool_of(eq[1]) == Ok::<bool, Seq<char>>(b));
    assert(display(not[0]) == "not"@);
}

/// Law: an integer `i` called with `chr` gives the one-character string of
/// the code point `i as u32` when that is a Unicode scalar value (at most
/// 0x10FFFF and not a surrogate), and fails with "Invalid UTF-8 char" when
/// it is not.
pub proof fn law_chr(i: i64)
    ensures
        ({
            let u = i as u32;
            let r = int_call(i, seq![Obj::Str("chr"@)]);
            if u < 0xD800 || (0xE000 <= u && u <= 0x10FFFF) {
                r == Ok::<Obj, SFault>(Obj::Str(seq![u as char]))
            } else {
                r == Err::<Obj, SFault>(SFault::Failed(SError::Custom("Invalid UTF-8 char"@)))
            }
        }),
{
    reveal_strlit("chr");
    reveal_strlit("add");
    reveal_strlit("sub");
    reveal_strlit("mul");
    reveal_strlit("div");
    reveal_strlit("rem");
    reveal_strlit("eq");
    reveal_strlit("gt");
    reveal_strlit("lt");
    lemma_texts_differ("chr"@, "add"@);
    lemma_texts_differ("chr"@, "sub"@);
    lemma_texts_differ("chr"@, "mul"@);
    lemma_texts_differ("chr"@, "div"@);
    lemma_texts_differ("chr"@, "rem"@);
    let a = seq![Obj::Str("chr"@)];
    assert(display(a[0]) == "chr"@);
    assert(!is_arith("chr"@) && !is_compare("chr"@));
}

// ---------------------------------------------------------------------------
// Variables and `if`
// ---------------------------------------------------------------------------

/// Law: `lookup` finds a name in the innermost frame that has it: when frame
/// `j` has `n` and no frame after it (nearer the current one) has `n`, the
/// result is frame `j`'s value, whatever the frames before `j` hold; and when
/// no frame has `n`, there is none.
pub proof fn law_lookup_innermost(frames: Seq<Map<Seq<char>, Obj>>, n: Seq<char>, j: int)
    requires
        0 <= j < frames.len(),
        frames[j].contains_key(n),
        forall|k: int| j < k < frames.len() ==> !(#[trigger] frames[k]).contains_key(n),
    ensures
        lookup(frames, n) == Some(frames[j][n]),
    decreases frames.len(),
{
    if j < frames.len() - 1 {
        let pre = frames.drop_last();
        assert(!frames[frames.len() - 1].contains_key(n));
        assert forall|k: int| j < k < pre.len() implies !(#[trigger] pre[k]).contains_key(n) by {
            assert(pre[k] == frames[k]);
        }
        law_lookup_innermost(pre, n, j);
        assert(pre[j] == frames[j]);
    }
}

/// Law: a name that no frame has is not found.
pub proof fn law_lookup_missing(frames: Seq<Map<Seq<char>, Obj>>, n: Seq<char>)
    requires
        forall|k: int| 0 <= k < frames.len() ==> !(#[trigger] frames[k]).contains_key(n),
    ensures
        lookup(frames, n) is None,
    decreases frames.len(),
{
    if frames.len() > 0 {
        let pre = frames.drop_last();
        assert(!frames[frames.len() - 1].contains_key(n));
        assert forall|k: int| 0 <= k < pre.len() implies !(#[trigger] pre[k]).contains_key(n) by {
            assert(pre[k] == frames[k]);
        }
        law_lookup_missing(pre, n);
    }
}

/// Law: `@n` gives the value of `n` in the innermost frame that has it, and
/// changes nothing, when that value can be copied.
pub proof fn law_copy_innermost(fuel: nat, d: SObjDef, st: St, n: Seq<char>, j: int)
    requires
        d.def == SDef::Copy(n),
        0 <= j < st.frames.len(),
        st.frames[j].contains_key(n),
        forall|k: int| j < k < st.frames.len() ==> !(#[trigger] st.frames[k]).contains_key(n),
        !has_stream(st.frames[j][n]),
    ensures
        ev_obj(fuel, d, st) == (Ok::<Obj, SFault>(st.frames[j][n]), st),
{
    law_lookup_innermost(st.frames, n, j);
}

/// Law: when the condition of `if` gives a tuple whose last item is the
/// boolean `b`, the then-branch (for `true`) or the else-branch (for `false`)
/// is called with exactly the items before it, in the state the condition
/// left.
pub proof fn law_if_branch_arguments(fuel: nat, args: Seq<Obj>, st: St, items: Seq<Obj>, b: bool)
    requires
        args.len() >= 4,
        display(args[2]) == "else"@,
        invoke(fuel, args[0], Seq::empty(), st).0 == Ok::<Obj, SFault>(
            Obj::Tuple(items.push(Obj::Bool(b))),
        ),
    ensures
        if_call(fuel, args, st) == invoke(
            fuel,
            if b {
                args[1]
            } else {
                args[3]
            },
            items,
            invoke(fuel, args[0], Seq::empty(), st).1,
        ),
{
    let t = items.push(Obj::Bool(b));
    assert(to_tuple(Obj::Tuple(t)) == t);
    assert(t.last() == Obj::Bool(b));
    assert(t.drop_last() =~= items);
}

/// Law: when the condition of `if` gives the boolean `b` itself, the chosen
/// branch is called without arguments.
pub proof fn law_if_plain_condition(fuel: nat, args: Seq<Obj>, st: St, b: bool)
    requires
        args.len() >= 4,
        display(args[2]) == "else"@,
        invoke(fuel, args[0], Seq::empty(), st).0 == Ok::<Obj, SFault>(Obj::Bool(b)),
    ensures
        if_call(fuel, args, st) == invoke(
            fuel,
            if b {
                args[1]
            } else {
                args[3]
            },
            Seq::empty(),
            invoke(fuel, args[0], Seq::empty(), st).1,
        ),
{
    let t = seq![Obj::Bool(b)];
    assert(to_tuple(Obj::Bool(b)) == t);
    assert(t.drop_last() =~= Seq::<Obj>::empty());
}

// ---------------------------------------------------------------------------
// The static check
// ---------------------------------------------------------------------------

proof fn lemma_check_grows(d: SObjDef, m: Set<Seq<char>>)
    ensures
        check_obj(d, m) matches Ok(m2) ==> m.subset_of(m2),
    decreases d,
{
    match d.def {
        SDef::Call(objs) => lemma_checks_grow(objs, m),
        SDef::Tuple(objs) => lemma_checks_grow(objs, m),
        _ => {},
    }
}

proof fn lemma_checks_grow(objs: Seq<SObjDef>, m: Set<Seq<char>>)
    ensures
        check_objs(objs, m) matches Ok(m2) ==> m.subset_of(m2),
    decreases objs,
{
    if objs.len() > 0 {
        lemma_check_grows(objs[0], m);
        if let Ok(m1) = check_obj(objs[0], m) {
            lemma_checks_grow(objs.subrange(1, objs.len() as int), m1);
        }
    }
}

/// Objects where one, at `k`, moves a name already moved are rejected.
proof fn lemma_checks_reject_moved(objs: Seq<SObjDef>, m: Set<Seq<char>>, k: int, n: Seq<char>)
    requires
        m.contains(n),
        0 <= k < objs.len(),
        objs[k].def == SDef::Move(n),
    ensures
        check_objs(objs, m) is Err,
    decreases objs.len(),
{
    if k > 0 {
        lemma_check_grows(objs[0], m);
        if let Ok(m1) = check_obj(objs[0], m) {
            let rest = objs.subrange(1, objs.len() as int);
            assert(rest[k - 1] == objs[k]);
            lemma_checks_reject_moved(rest, m1, k - 1, n);
        }
    }
}

/// Objects that move the same name at `j` and at `k` are rejected.
proof fn lemma_checks_reject_twice(
    objs: Seq<SObjDef>,
    m: Set<Seq<char>>,
    j: int,
    k: int,
    n: Seq<char>,
)
    requires
        0 <= j < k < objs.len(),
        objs[j].def == SDef::Move(n),
        objs[k].def == SDef::Move(n),
    ensures
        check_objs(objs, m) is Err,
    decreases objs.len(),
{
    let rest = objs.subrange(1, objs.len() as int);
    assert(rest[k - 1] == objs[k]);
    if j == 0 {
        if !m.contains(n) {
            assert(check_obj(objs[0], m) == Ok::<Set<Seq<char>>, SParseError>(m.insert(n)));
            lemma_checks_reject_moved(rest, m.insert(n), k - 1, n);
        }
    } else {
        if let Ok(m1) = check_obj(objs[0], m) {
            assert(rest[j - 1] == objs[j]);
            lemma_checks_reject_twice(rest, m1, j - 1, k - 1, n);
        }
    }
}

/// Objects where the one at `j` is rejected whatever was moved before it
/// are rejected.
proof fn lemma_checks_reject_at(objs: Seq<SObjDef>, m: Set<Seq<char>>, j: int)
    requires
        0 <= j < objs.len(),
        forall|m2: Set<Seq<char>>| #[trigger] check_obj(objs[j], m2) is Err,
    ensures
        check_objs(objs, m) is Err,
    decreases objs.len(),
{
    if j > 0 {
        if let Ok(m1) = check_obj(objs[0], m) {
            let rest = objs.subrange(1, objs.len() as int);
            assert(rest[j - 1] == objs[j]);
            lemma_checks_reject_at(rest, m1, j - 1);
        }
    } else {
        assert(check_obj(objs[0], m) is Err);
    }
}

/// Calls where the one at `i` is rejected on its own whatever was moved
/// before it are rejected.
proof fn lemma_calls_reject_at(calls: Seq<Seq<SObjDef>>, m: Set<Seq<char>>, i: int)
    requires
        0 <= i < calls.len(),
        forall|m2: Set<Seq<char>>| #[trigger] check_calls(seq![calls[i]], m2) is Err,
    ensures
        check_calls(calls, m) is Err,
    decreases calls.len(),
{
    let one = seq![calls[0]];
    assert(one[0] == calls[0]);
    assert(one.subrange(1, 1) =~= Seq::<Seq<SObjDef>>::empty());
    let rest = calls.subrange(1, calls.len() as int);
    if i == 0 {
        assert(check_calls(one, m) is Err);
        let call = calls[0];
        let none = one.subrange(1, one.len() as int);
        assert(none =~= Seq::<Seq<SObjDef>>::empty());
        if is_set_call(call) {
            if call.len() >= 3 {
                if let Ok(m1) = check_obj(call[2], m) {
                    if let Ok(m2) = check_target(call[1], m1) {
                        assert(check_calls(none, m2) is Ok);
                        assert(false);
                    }
                }
            }
        } else {
            if let Ok(m1) = check_objs(call, m) {
                assert(check_calls(none, m1) is Ok);
                assert(false);
            }
        }
    } else {
        assert(rest[i - 1] == calls[i]);
        let call = calls[0];
        if is_set_call(call) {
            if call.len() >= 3 {
                if let Ok(m1) = check_obj(call[2], m) {
                    if let Ok(m2) = check_target(call[1], m1) {
                        lemma_calls_reject_at(rest, m2, i - 1);
                    }
                }
            }
        } else {
            if let Ok(m1) = check_objs(call, m) {
                lemma_calls_reject_at(rest, m1, i - 1);
            }
        }
    }
}

/// Law: a program in which a statement that is not `$set` moves the same
/// variable twice (`$n` ... `$n`) is rejected.
pub proof fn law_double_move_rejected(b: SBlock, i: int, j: int, k: int, n: Seq<char>)
    requires
        0 <= i < b.calls.len(),
        !is_set_call(b.calls[i]),
        0 <= j < k < b.calls[i].len(),
        b.calls[i][j].def == SDef::Move(n),
        b.calls[i][k].def == SDef::Move(n),
    ensures
        check_program(b) is Some,
{
    let call = b.calls[i];
    assert forall|m2: Set<Seq<char>>| #[trigger] check_calls(seq![call], m2) is Err by {
        let one = seq![call];
        assert(one[0] == call);
        lemma_checks_reject_twice(call, m2, j, k, n);
    }
    lemma_calls_reject_at(b.calls, Set::empty(), i);
}

/// The body of a closure object.
pub open spec fn closure_body(d: SObjDef) -> Option<SBlock> {
    match d.def {
        SDef::Closure(_, c) => Some(c),
        SDef::MoveClosure(_, c, _) => Some(c),
        _ => None,
    }
}

/// Law: closure bodies are checked too: a program is accepted only if the
/// body of every closure written as an object of one of its statements (the
/// value of a `$set`, or any object of another statement) is accepted.
pub proof fn law_closure_bodies_checked(b: SBlock, i: int, j: int, body: SBlock)
    requires
        0 <= i < b.calls.len(),
        0 <= j < b.calls[i].len(),
        !is_set_call(b.calls[i]) || j == 2,
        closure_body(b.calls[i][j]) == Some(body),
    ensures
        check_program(b) is None ==> check_program(body) is None,
{
    if check_program(body) is Some {
        let call = b.calls[i];
        let d = call[j];
        assert(forall|m2: Set<Seq<char>>| #[trigger] check_obj(d, m2) is Err);
        assert forall|m2: Set<Seq<char>>| #[trigger] check_calls(seq![call], m2) is Err by {
            let one = seq![call];
            assert(one[0] == call);
            if !is_set_call(call) {
                lemma_checks_reject_at(call, m2, j);
            } else {
                assert(check_obj(call[2], m2) is Err);
            }
        }
        lemma_calls_reject_at(b.calls, Set::empty(), i);
    }
}

// ---------------------------------------------------------------------------
// Integer arithmetic
// ---------------------------------------------------------------------------

/// Law: `add`, `sub` and `mul` give the exact sum, difference and product
/// when it fits in an `i64`, and stop the program when it does not.
pub proof fn law_integer_arithmetic(a: i64, b: i64)
    ensures
        int_call(a, seq![Obj::Str("add"@), Obj::Int(b)]) == if i64::MIN <= a + b <= i64::MAX {
            Ok::<Obj, SFault>(Obj::Int((a + b) as i64))
        } else {
            Err::<Obj, SFault>(SFault::Arithmetic)
        },
        int_call(a, seq![Obj::Str("sub"@), Obj::Int(b)]) == if i64::MIN <= a - b <= i64::MAX {
            Ok::<Obj, SFault>(Obj::Int((a - b) as i64))
        } else {
            Err::<Obj, SFault>(SFault::Arithmetic)
        },
        int_call(a, seq![Obj::Str("mul"@), Obj::Int(b)]) == if i64::MIN <= a * b <= i64::MAX {
            Ok::<Obj, SFault>(Obj::Int((a * b) as i64))
        } else {
            Err::<Obj, SFault>(SFault::Arithmetic)
        },
{
    reveal_strlit("add");
    reveal_strlit("sub");
    reveal_strlit("mul");
    reveal_strlit("div");
    reveal_strlit("rem");
    lemma_texts_differ("sub"@, "add"@);
    lemma_texts_differ("mul"@, "add"@);
    lemma_texts_differ("mul"@, "sub"@);
    let x = seq![Obj::Str("add"@), Obj::Int(b)];
    let y = seq![Obj::Str("sub"@), Obj::Int(b)];
    let z = seq![Obj::Str("mul"@), Obj::Int(b)];
    assert(display(x[0]) == "add"@ && int_of(x[1]) == Ok::<i64, Seq<char>>(b));
    assert(display(y[0]) == "sub"@ && int_of(y[1]) == Ok::<i64, Seq<char>>(b));
    assert(display(z[0]) == "mul"@ && int_of(z[1]) == Ok::<i64, Seq<char>>(b));
}

/// `q` and `r` are the truncating quotient and remainder of `a` by `b`.
pub open spec fn truncating_division(q: int, r: int, a: int, b: int) -> bool {
    &&& q * b + r == a
    &&& r == 0 || (r < 0) == (a < 0)
    &&& (if r < 0 {
        -r
    } else {
        r
    }) < (if b < 0 {
        -b
    } else {
        b
    })
}

/// The outcomes of `div` and `rem` are integers that satisfy the division
/// identity with truncation toward zero.
pub open spec fn divides(rq: Result<Obj, SFault>, rr: Result<Obj, SFault>, a: i64, b: i64) -> bool {
    match (rq, rr) {
        (Ok(Obj::Int(q)), Ok(Obj::Int(r))) => truncating_division(q as int, r as int, a as int, b as int),
        _ => false,
    }
}

proof fn lemma_nat_division(x: int, d: int)
    requires
        0 <= x,
        0 < d,
    ensures
        d * (x / d) + x % d == x,
        0 <= x % d < d,
        0 <= x / d <= x,
{
    vstd::arithmetic::div_mod::lemma_fundamental_div_mod(x, d);
    vstd::arithmetic::div_mod::lemma_mod_pos_bound(x, d);
    vstd::arithmetic::div_mod::lemma_div_pos_is_pos(x, d);
    vstd::arithmetic::div_mod::lemma_div_nonincreasing(x, d);
}

/// Law: `div` and `rem` truncate toward zero: the quotient times the divisor
/// plus the remainder is the dividend, and the remainder is smaller than the
/// divisor and has the sign of the dividend.  Division by zero, and the one
/// quotient that does not fit (`i64::MIN` by `-1`), stop the program.
pub proof fn law_integer_division(a: i64, b: i64)
    ensures
        b != 0 && !(a == i64::MIN && b == -1) ==> divides(
            int_call(a, seq![Obj::Str("div"@), Obj::Int(b)]),
            int_call(a, seq![Obj::Str("rem"@), Obj::Int(b)]),
            a,
            b,
        ),
        b == 0 || (a == i64::MIN && b == -1) ==> int_call(
            a,
            seq![Obj::Str("div"@), Obj::Int(b)],
        ) == Err::<Obj, SFault>(SFault::Arithmetic) && int_call(
            a,
            seq![Obj::Str("rem"@), Obj::Int(b)],
        ) == Err::<Obj, SFault>(SFault::Arithmetic),
{
    reveal_strlit("add");
    reveal_strlit("sub");
    reveal_strlit("mul");
    reveal_strlit("div");
    reveal_strlit("rem");
    lemma_texts_differ("div"@, "add"@);
    lemma_texts_differ("div"@, "sub"@);
    lemma_texts_differ("div"@, "mul"@);
    lemma_texts_differ("rem"@, "add"@);
    lemma_texts_differ("rem"@, "sub"@);
    lemma_texts_differ("rem"@, "mul"@);
    lemma_texts_differ("rem"@, "div"@);
    let dv = seq![Obj::Str("div"@), Obj::Int(b)];
    let rm = seq![Obj::Str("rem"@), Obj::Int(b)];
    assert(display(dv[0]) == "div"@ && int_of(dv[1]) == Ok::<i64, Seq<char>>(b));
    assert(display(rm[0]) == "rem"@ && int_of(rm[1]) == Ok::<i64, Seq<char>>(b));
    let x = a as int;
    let d = b as int;
    assert(arith("div"@, a, b) == a.checked_div(b));
    assert(arith("rem"@, a, b) == a.checked_rem(b));
    assert(int_call(a, dv) == match a.checked_div(b) {
        Some(q) => Ok::<Obj, SFault>(Obj::Int(q)),
        None => Err::<Obj, SFault>(SFault::Arithmetic),
    });
    assert(int_call(a, rm) == match a.checked_rem(b) {
        Some(q) => Ok::<Obj, SFault>(Obj::Int(q)),
        None => Err::<Obj, SFault>(SFault::Arithmetic),
    });
    if b == 0 {
        assert(a.checked_div(b) is None);
        assert(a.checked_rem(b) is None);
    }
    if a == i64::MIN && b == -1 {
        assert(a.checked_rem(b) is None);
        assert(x * -1 == 0x8000_0000_0000_0000int);
        assert(d * -1 == 1int);
        assert(0x8000_0000_0000_0000int / 1int == 0x8000_0000_0000_0000int);
        assert((x * -1) / (d * -1) == 0x8000_0000_0000_0000int);
        assert(a.checked_div(b) is None);
    }
    if b != 0 && !(a == i64::MIN && b == -1) {
        if x == 0 {
            assert(a.checked_div(b) == Some(0i64));
            assert(a.checked_rem(b) == Some(0i64));
            assert(truncating_division(0, 0, x, d));
        } else if x > 0 && d > 0 {
            lemma_nat_division(x, d);
            let q = x / d;
            let r = x % d;
            assert(q * d == d * q) by (nonlinear_arith);
            assert(a.checked_div(b) == Some(q as i64));
            assert(a.checked_rem(b) == Some(r as i64));
            assert(truncating_division(q, r, x, d));
        } else if x < 0 && d < 0 {
            lemma_nat_division(-x, -d);
            let q = (-x) / (-d);
            let r = -((-x) % (-d));
            assert(q * d + r == x) by (nonlinear_arith)
                requires
                    (-d) * q + (-x) % (-d) == -x,
                    r == -((-x) % (-d)),
            ;
            if d == -1 {
                assert(q == -x) by (nonlinear_arith)
                    requires
                        (-d) * q + (-x) % (-d) == -x,
                        d == -1,
                        0 <= (-x) % (-d) < -d,
            ;
            } else {
                assert(q * 2 <= -x) by (nonlinear_arith)
                    requires
                        (-d) * q + (-x) % (-d) == -x,
                        -d >= 2,
                        q >= 0,
                        (-x) % (-d) >= 0,
            ;
            }
            assert(a.checked_div(b) == Some(q as i64));
            assert(a.checked_rem(b) == Some(r as i64));
            assert(truncating_division(q, r, x, d));
        } else if x < 0 && d > 0 {
            lemma_nat_division(-x, d);
            let q = ((-x) / d) * -1;
            let r = -((-x) % d);
            assert(q * d + r == x) by (nonlinear_arith)
                requires
                    d * ((-x) / d) + (-x) % d == -x,
                    q == ((-x) / d) * -1,
                    r == -((-x) % d),
            ;
            assert(a.checked_div(b) == Some(q as i64));
            assert(a.checked_rem(b) == Some(r as i64));
            assert(truncating_division(q, r, x, d));
        } else {
            lemma_nat_division(x, -d);
            let q = (x / (-d)) * -1;
            let r = x % (-d);
            assert(q * d + r == x) by (nonlinear_arith)
                requires
                    (-d) * (x / (-d)) + x % (-d) == x,
                    q == (x / (-d)) * -1,
                    r == x % (-d),
            ;
            assert(a.checked_div(b) == Some(q as i64));
            assert(a.checked_rem(b) == Some(r as i64));
            assert(truncating_division(q, r, x, d));
        }
    }
}

// ---------------------------------------------------------------------------
// More methods of strings and tuples, and writing
// ---------------------------------------------------------------------------

/// Law: `len` gives the decimal text of the string's UTF-8 length, which for
/// an ASCII string is its number of characters and grows by the length of
/// what is appended.
pub proof fn law_string_len(s: Seq<char>, t: Seq<char>)
    requires
        utf8_len(s) <= usize::MAX,
    ensures
        str_call(s, seq![Obj::Str("len"@)]) == Ok::<Obj, SFault>(Obj::Str(int_text(utf8_len(s) as int))),
        (forall|i: int| 0 <= i < s.len() ==> (#[trigger] s[i] as u32) < 0x80) ==> utf8_len(s) == s.len(),
        utf8_len(s + t) == utf8_len(s) + utf8_len(t),
    decreases s.len(),
{
    reveal_strlit("len");
    let a = seq![Obj::Str("len"@)];
    assert(display(a[0]) == "len"@);
    lemma_utf8_len_concat(s, t);
    if s.len() > 0 {
        let p = s.drop_last();
        if forall|i: int| 0 <= i < s.len() ==> (#[trigger] s[i] as u32) < 0x80 {
            assert forall|i: int| 0 <= i < p.len() implies (#[trigger] p[i] as u32) < 0x80 by {
                assert(p[i] == s[i]);
            }
            lemma_utf8_len_ascii(p);
            assert((s[s.len() - 1] as u32) < 0x80);
        }
    }
}

proof fn lemma_utf8_len_ascii(s: Seq<char>)
    requires
        forall|i: int| 0 <= i < s.len() ==> (#[trigger] s[i] as u32) < 0x80,
    ensures
        utf8_len(s) == s.len(),
    decreases s.len(),
{
    if s.len() > 0 {
        let p = s.drop_last();
        assert forall|i: int| 0 <= i < p.len() implies (#[trigger] p[i] as u32) < 0x80 by {
            assert(p[i] == s[i]);
        }
        lemma_utf8_len_ascii(p);
        assert((s[s.len() - 1] as u32) < 0x80);
    }
}

/// Law: `chars` gives a tuple with one one-character string per character,
/// in order.
pub proof fn law_string_chars(s: Seq<char>)
    ensures
        str_call(s, seq![Obj::Str("chars"@)]) matches Ok(Obj::Tuple(items)) && items.len() == s.len()
            && forall|i: int| 0 <= i < s.len() ==> #[trigger] items[i] == Obj::Str(seq![s[i]]),
{
    reveal_strlit("chars");
    reveal_strlit("len");
    reveal_strlit("_len");
    let a = seq![Obj::Str("chars"@)];
    assert(display(a[0]) == "chars"@);
    lemma_texts_differ("chars"@, "_len"@);
}

proof fn lemma_find_first(s: Seq<char>, d: Seq<char>, i: int, p: int)
    requires
        d.len() > 0,
        0 <= i <= p,
        occurs_at(s, d, p),
    ensures
        i <= find_from(s, d, i) <= p,
    decreases p - i,
{
    if !occurs_at(s, d, i) {
        lemma_find_first(s, d, i + 1, p);
    }
}

proof fn lemma_split_pieces(s: Seq<char>, d: Seq<char>, i: int)
    requires
        d.len() > 0,
        0 <= i <= s.len(),
    ensures
        forall|k: int, p: int|
            0 <= k < split_from(s, d, i).len() ==> !#[trigger] occurs_at(split_from(s, d, i)[k], d, p),
    decreases s.len() - i,
{
    let f = find_from(s, d, i);
    lemma_find_from(s, d, i);
    let pieces = split_from(s, d, i);
    if f < i || f + d.len() > s.len() {
        let piece = s.subrange(i, s.len() as int);
        assert forall|k: int, p: int| 0 <= k < pieces.len() implies !#[trigger] occurs_at(pieces[k], d, p) by {
            assert(pieces[k] == piece);
            if occurs_at(piece, d, p) {
                assert(piece.subrange(p, p + d.len()) =~= s.subrange(i + p, i + p + d.len()));
                lemma_find_first(s, d, i, i + p);
                lemma_find_from(s, d, i);
            }
        }
    } else {
        let j = f + d.len();
        lemma_split_pieces(s, d, j);
        let piece = s.subrange(i, f);
        let rest = split_from(s, d, j);
        assert(pieces == seq![piece] + rest);
        assert forall|k: int, p: int| 0 <= k < pieces.len() implies !#[trigger] occurs_at(pieces[k], d, p) by {
            if k == 0 {
                assert(pieces[0] == piece);
                if occurs_at(piece, d, p) {
                    assert(piece.subrange(p, p + d.len()) =~= s.subrange(i + p, i + p + d.len()));
                    lemma_find_first(s, d, i, i + p);
                }
            } else {
                assert(pieces[k] == rest[k - 1]);
            }
        }
    }
}

/// Law: no piece that `split` gives with a non-empty delimiter contains the
/// delimiter (so, with the law that joining the pieces gives the string back,
/// the string is cut at every occurrence found from the left).
pub proof fn law_split_pieces_lack_delimiter(s: Seq<char>, d: Seq<char>)
    requires
        d.len() > 0,
    ensures
        forall|k: int, p: int|
            0 <= k < split_text(s, d).len() ==> !#[trigger] occurs_at(split_text(s, d)[k], d, p),
{
    lemma_split_pieces(s, d, 0);
}

/// Law: a tuple's `len` is its number of items, and `is_empty` holds exactly
/// of the tuple without items.
pub proof fn law_tuple_len(fuel: nat, items: Seq<Obj>, st: St)
    requires
        items.len() <= i64::MAX,
    ensures
        tuple_call(fuel, items, seq![Obj::Str("len"@)], st) == (
            Ok::<Obj, SFault>(Obj::Int(items.len() as i64)),
            st,
        ),
        tuple_call(fuel, items, seq![Obj::Str("is_empty"@)], st) == (
            Ok::<Obj, SFault>(Obj::Bool(items.len() == 0)),
            st,
        ),
{
    reveal_strlit("len");
    reveal_strlit("_len");
    reveal_strlit("push");
    reveal_strlit("pop");
    reveal_strlit("is_empty");
    lemma_texts_differ("is_empty"@, "_len"@);
    lemma_texts_differ("is_empty"@, "push"@);
    let a = seq![Obj::Str("len"@)];
    let b = seq![Obj::Str("is_empty"@)];
    assert(display(a[0]) == "len"@);
    assert(display(b[0]) == "is_empty"@);
}

/// Law: `with i f` calls `f` with the item at index `i` (counted from the end
/// when negative) and gives the tuple with that item replaced by `f`'s
/// result, every other item kept.
pub proof fn law_tuple_with(fuel: nat, items: Seq<Obj>, i: isize, f: Obj, st: St)
    requires
        -items.len() <= i < items.len(),
    ensures
        ({
            let k = if i < 0 {
                items.len() + i
            } else {
                i as int
            };
            let args = seq![Obj::Str("with"@), Obj::Str(int_text(i as int)), f];
            let (r1, st1) = invoke(fuel, f, seq![items[k]], st);
            match r1 {
                Ok(v) => tuple_call(fuel, items, args, st) == (
                    Ok::<Obj, SFault>(Obj::Tuple(items.update(k, v))),
                    st1,
                ),
                Err(e) => tuple_call(fuel, items, args, st) == (Err::<Obj, SFault>(e), st1),
            }
        }),
{
    reveal_strlit("len");
    reveal_strlit("_len");
    reveal_strlit("push");
    reveal_strlit("pop");
    reveal_strlit("is_empty");
    reveal_strlit("_is_empty");
    reveal_strlit("with");
    reveal_strlit("without");
    lemma_texts_differ("with"@, "_len"@);
    lemma_texts_differ("with"@, "push"@);
    lemma_texts_differ("with"@, "pop"@);
    lemma_texts_differ("with"@, "is_empty"@);
    lemma_texts_differ("with"@, "_is_empty"@);
    let args = seq![Obj::Str("with"@), Obj::Str(int_text(i as int)), f];
    assert(display(args[0]) == "with"@);
    assert(display(args[1]) == int_text(i as int));
    law_isize_text_round_trip(i);
}

/// The text of an `isize` reads back as it.
proof fn law_isize_text_round_trip(v: isize)
    ensures
        parse_isize_spec(int_text(v as int)) == Some(v),
{
    if v < 0 {
        let t = nat_text((-v) as nat);
        lemma_nat_text((-v) as nat);
        assert((seq!['-'] + t).drop_first() =~= t);
    } else {
        lemma_nat_text(v as nat);
        let t = nat_text(v as nat);
        assert(is_digit(t[0]));
    }
}

/// Law: writing objects appends their texts to the output, separated by
/// single spaces: one object appends its text, and one more appends a space
/// and its text.
pub proof fn law_write_separates_by_spaces(w: SWorld, args: Seq<Obj>, x: Obj)
    ensures
        write_out(w, seq![x]).out == w.out + display(x),
        args.len() > 0 ==> write_out(w, args.push(x)).out == write_out(w, args).out + seq![' ']
            + display(x),
        write_out(w, args).input == w.input && write_out(w, args).pos == w.pos,
{
    let one = seq![x];
    assert(texts_of(one) =~= seq![display(x)]);
    assert(texts_of(args.push(x)) =~= texts_of(args).push(display(x)));
    lemma_join_push(texts_of(args), display(x), seq![' ']);
    assert(w.out + join(texts_of(args), seq![' ']) + seq![' '] + display(x) =~= w.out + (join(
        texts_of(args),
        seq![' '],
    ) + seq![' '] + display(x)));
}

/// Law: a tuple shows as `( `, each item's text followed by a space, and `)`.
pub proof fn law_tuple_display(items: Seq<Obj>, x: Obj)
    ensures
        display(Obj::Tuple(Seq::empty())) == seq!['(', ' ', ')'],
        display(Obj::Tuple(items.push(x))) == display(Obj::Tuple(items)).subrange(
            0,
            display(Obj::Tuple(items)).len() - 1,
        ) + display(x) + seq![' ', ')'],
{
    let e = Seq::<Obj>::empty();
    assert(display_items(e) == Seq::<char>::empty());
    assert(seq!['(', ' '] + Seq::<char>::empty() + seq![')'] =~= seq!['(', ' ', ')']);
    let p = items.push(x);
    assert(p.subrange(0, p.len() - 1) =~= items);
    let di = display_items(items);
    assert(p[p.len() - 1] == x);
    assert(display_items(p) == di + display(x) + seq![' ']);
    assert(display(Obj::Tuple(p)) == seq!['(', ' '] + (di + display(x) + seq![' ']) + seq![')']);
    assert(display(Obj::Tuple(items)) == seq!['(', ' '] + di + seq![')']);
    assert((seq!['(', ' '] + di + seq![')']).subrange(0, di.len() + 2int) =~= seq!['(', ' '] + di);
    assert(seq!['(', ' '] + (di + display(x) + seq![' ']) + seq![')'] =~= seq!['(', ' '] + di
        + display(x) + seq![' ', ')']);
}

/// Law: `while` stops at the first round whose condition gives `false`,
/// giving the rest of the round's set without calling the body; when the
/// condition gives `true` the body is called with that rest, and the loop goes
/// on with the items of the body's result.
pub proof fn law_while_rounds(fuel: nat, set: Seq<Obj>, cond: Obj, body: Obj, st: St, b: bool)
    requires
        set.len() > 0,
        !has_stream(cond),
        !has_stream(body),
        invoke(fuel, cond, to_tuple(set[0]), st).0 == Ok::<Obj, SFault>(Obj::Bool(b)),
    ensures
        ({
            let st1 = invoke(fuel, cond, to_tuple(set[0]), st).1;
            let rest = set.drop_first();
            if !b {
                while_loop(fuel, set, cond, body, st) == (Ok::<Obj, SFault>(Obj::Tuple(rest)), st1)
            } else {
                let (r2, st2) = invoke(fuel, body, rest, st1);
                match r2 {
                    Err(e) => while_loop(fuel, set, cond, body, st) == (Err::<Obj, SFault>(e), st2),
                    Ok(next) => fuel > 0 ==> while_loop(fuel, set, cond, body, st) == while_loop(
                        (fuel - 1) as nat,
                        to_tuple(next),
                        cond,
                        body,
                        st2,
                    ),
                }
            }
        }),
{
    assert(set.subrange(1, set.len() as int) =~= set.drop_first());
}

// ---------------------------------------------------------------------------
// The grammar
// ---------------------------------------------------------------------------

/// An ASCII letter or digit.
pub open spec fn ascii_alnum(c: char) -> bool {
    ('a' <= c && c <= 'z') || ('A' <= c && c <= 'Z') || ('0' <= c && c <= '9')
}

/// Law: an unquoted string is the longest run of ASCII letters and digits
/// starting at its first character.
pub proof fn law_word_object(s: Seq<char>, i: int)
    requires
        0 <= i < s.len(),
        ascii_alnum(s[i]),
    ensures
        p_obj(s, i) matches Ok((o, j)) && i < j <= s.len() && o.def == SDef::Str(s.subrange(i, j))
            && o.start == i && o.end == j && (forall|k: int| i <= k < j ==> ascii_alnum(
            #[trigger] s[k],
        )) && (j == s.len() || !ascii_alnum(s[j])),
{
    lemma_word_end(s, i);
    let j = word_end(s, i);
    lemma_word_end_stops(s, i);
}

proof fn lemma_word_end_stops(s: Seq<char>, i: int)
    requires
        0 <= i <= s.len(),
    ensures
        word_end(s, i) == s.len() || !is_word_char(s[word_end(s, i)]),
    decreases s.len() - i,
{
    if i < s.len() && is_word_char(s[i]) {
        lemma_word_end_stops(s, i + 1);
    }
}

proof fn lemma_plain_literal(s: Seq<char>, m: int, k: int, acc: Seq<char>)
    requires
        0 <= m <= k < s.len(),
        s[k] == '"',
        forall|x: int| m <= x < k ==> (#[trigger] s[x]) != '"' && s[x] != '\\',
    ensures
        p_lit(s, m, acc) == Ok::<(Seq<char>, int), int>((acc + s.subrange(m, k), k + 1)),
    decreases k - m,
{
    if m == k {
        assert(acc + s.subrange(m, k) =~= acc);
    } else {
        lemma_plain_literal(s, m + 1, k, acc.push(s[m]));
        assert(acc.push(s[m]) + s.subrange(m + 1, k) =~= acc + s.subrange(m, k));
    }
}

/// Law: a quoted string without backslashes or inner quotes stands for the
/// characters between its quotes.
pub proof fn law_plain_quoted_object(s: Seq<char>, i: int, k: int)
    requires
        0 <= i < k < s.len(),
        s[i] == '"',
        s[k] == '"',
        forall|x: int| i < x < k ==> (#[trigger] s[x]) != '"' && s[x] != '\\',
    ensures
        p_obj(s, i) matches Ok((o, j)) && j == k + 1 && o.def == SDef::Quoted(s.subrange(i + 1, k)),
{
    lemma_plain_literal(s, i + 1, k, Seq::empty());
    assert(Seq::<char>::empty() + s.subrange(i + 1, k) =~= s.subrange(i + 1, k));
}

} // verus!
