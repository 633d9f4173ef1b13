//! The methods of strings, integers and booleans, and the conversions that
//! `Int` and `Bool` make.  None of them runs program code.
use vstd::prelude::*;
use dyn_fmt::AsStrFormatExt;
use crate::value::{Value, Obj, Int, Bool, display, m_vals, lemma_m_vals};
use crate::error::{TrashError, SError, Fault, SFault, lit};
use crate::text::{
    int_text, bool_text, utf8_len, split_text, parse_i64_spec, parse_bool_spec, texts,
    utf8_byte_len, usize_text, split_chars, parse_i64, parse_bool, chars_eq, push_all,
    bool_to_text,
};
use crate::world::texts_of;

verus! {

/// What `dyn_fmt`'s `format` gives for the format text `fmt` and the
/// argument texts `args`.
pub uninterp spec fn dyn_format(fmt: Seq<char>, args: Seq<Seq<char>>) -> Seq<char>;

/// `AsStrFormatExt::format` of `dyn_fmt`: replaces the `{}`s of `fmt` by the
/// arguments in order; arguments beyond the `{}`s are ignored, missing ones
/// give nothing, `{{` and `}}` stand for single braces.  Its result is named,
/// not stated.
#[verifier::external_body]
fn format_text(fmt: &Vec<char>, args: &Vec<Vec<char>>) -> (r: Vec<char>)
    ensures
        r@ == dyn_format(fmt@, texts(args@)),
{
    let f: String = fmt.iter().collect();
    let a: Vec<String> = args.iter().map(|x| x.iter().collect()).collect();
    f.format(&a).chars().collect()
}

/// `char::from_u32`: the character with this code, when it is a Unicode
/// scalar value (at most 0x10FFFF and not a surrogate).
#[verifier::external_body]
fn char_from_u32(u: u32) -> (r: Option<char>)
    ensures
        r == (if is_scalar(u) {
            Some(u as char)
        } else {
            None
        }),
{
    char::from_u32(u)
}

pub open spec fn is_scalar(u: u32) -> bool {
    u < 0xD800 || (0xE000 <= u && u <= 0x10FFFF)
}

pub open spec fn failed(e: SError) -> SFault {
    SFault::Failed(e)
}

/// The UTF-8 byte length of `s`, when it fits in a `usize`.
pub open spec fn byte_len(s: Seq<char>) -> Option<nat> {
    if utf8_len(s) <= usize::MAX {
        Some(utf8_len(s))
    } else {
        None
    }
}

/// The methods of strings.
pub open spec fn str_call(s: Seq<char>, args: Seq<Obj>) -> Result<Obj, SFault> {
    if args.len() == 0 {
        Ok(Obj::Str(s))
    } else {
        let m = display(args[0]);
        let second: Option<Seq<char>> = if args.len() > 1 {
            Some(display(args[1]))
        } else {
            None
        };
        if m == "len"@ || m == "_len"@ {
            match byte_len(s) {
                None => Err(SFault::Arithmetic),
                Some(n) => if m == "len"@ {
                    Ok(Obj::Str(int_text(n as int)))
                } else {
                    Ok(Obj::Tuple(seq![Obj::Str(s), Obj::Str(int_text(n as int))]))
                },
            }
        } else if m == "chars"@ {
            Ok(Obj::Tuple(s.map(|i: int, c: char| Obj::Str(seq![c]))))
        } else if m == "split"@ {
            let d = match second {
                Some(t) => t,
                None => seq![' '],
            };
            Ok(Obj::Tuple(split_text(s, d).map(|i: int, p: Seq<char>| Obj::Str(p))))
        } else if m == "push"@ {
            Ok(
                Obj::Str(
                    s + match second {
                        Some(t) => t,
                        None => Seq::empty(),
                    },
                ),
            )
        } else if m == "eq"@ || m == "_eq"@ {
            match second {
                None => Err(failed(SError::NotEnoughArgs(0, 1))),
                Some(t) => if m == "eq"@ {
                    Ok(Obj::Bool(s == t))
                } else {
                    Ok(Obj::Tuple(seq![Obj::Str(s), Obj::Str(t), Obj::Bool(s == t)]))
                },
            }
        } else if m == "format"@ {
            Ok(Obj::Str(dyn_format(s, texts_of(args.subrange(1, args.len() as int)))))
        } else {
            Err(failed(SError::UnknownMethod(m)))
        }
    }
}

/// The integer an object stands for, or its text when it stands for none.
pub open spec fn int_of(o: Obj) -> Result<i64, Seq<char>> {
    match o {
        Obj::Int(v) => Ok(v),
        _ => match parse_i64_spec(display(o)) {
            Some(v) => Ok(v),
            None => Err(display(o)),
        },
    }
}

/// The boolean an object stands for, or its text when it stands for none.
pub open spec fn bool_of(o: Obj) -> Result<bool, Seq<char>> {
    match o {
        Obj::Bool(b) => Ok(b),
        _ => match parse_bool_spec(display(o)) {
            Some(b) => Ok(b),
            None => Err(display(o)),
        },
    }
}

/// What the builtin `int` gives for its argument.
pub open spec fn int_obj(o: Obj) -> Result<Obj, SError> {
    match int_of(o) {
        Ok(v) => Ok(Obj::Int(v)),
        Err(t) => Err(SError::UnexpectedType("int"@, t)),
    }
}

/// What the builtin that converts to booleans gives for its argument.
pub open spec fn bool_obj(o: Obj) -> Result<Obj, SError> {
    match bool_of(o) {
        Ok(b) => Ok(Obj::Bool(b)),
        Err(t) => Err(SError::UnexpectedType("float"@, t)),
    }
}

pub open spec fn fits_i64(v: int) -> bool {
    i64::MIN <= v <= i64::MAX
}

/// `a m b` for the arithmetic methods, `None` on overflow or division by zero.
pub open spec fn arith(m: Seq<char>, a: i64, b: i64) -> Option<i64> {
    if m == "add"@ {
        checked(a + b)
    } else if m == "sub"@ {
        checked(a - b)
    } else if m == "mul"@ {
        checked(a * b)
    } else if m == "div"@ {
        a.checked_div(b)
    } else {
        a.checked_rem(b)
    }
}

pub open spec fn checked(v: int) -> Option<i64> {
    if fits_i64(v) {
        Some(v as i64)
    } else {
        None
    }
}

pub open spec fn is_arith(m: Seq<char>) -> bool {
    m == "add"@ || m == "sub"@ || m == "mul"@ || m == "div"@ || m == "rem"@
}

pub open spec fn is_compare(m: Seq<char>) -> bool {
    m == "eq"@ || m == "gt"@ || m == "lt"@
}

pub open spec fn compare(m: Seq<char>, a: i64, b: i64) -> bool {
    if m == "eq"@ {
        a == b
    } else if m == "gt"@ {
        a > b
    } else {
        a < b
    }
}

/// The methods of integers.
pub open spec fn int_call(i: i64, args: Seq<Obj>) -> Result<Obj, SFault> {
    if args.len() == 0 {
        Ok(Obj::Int(i))
    } else {
        let m = display(args[0]);
        if is_arith(m) || is_compare(m) {
            if args.len() < 2 {
                Err(failed(SError::NotEnoughArgs(0, 1)))
            } else {
                match int_of(args[1]) {
                    Err(t) => Err(failed(SError::UnexpectedType("int"@, t))),
                    Ok(n) => if is_arith(m) {
                        match arith(m, i, n) {
                            Some(r) => Ok(Obj::Int(r)),
                            None => Err(SFault::Arithmetic),
                        }
                    } else {
                        Ok(Obj::Str(bool_text(compare(m, i, n))))
                    },
                }
            }
        } else if m == "chr"@ {
            let u = i as u32;
            if is_scalar(u) {
                Ok(Obj::Str(seq![u as char]))
            } else {
                Err(failed(SError::Custom("Invalid UTF-8 char"@)))
            }
        } else {
            Err(SFault::UnknownMethod(m))
        }
    }
}

pub open spec fn is_logic(m: Seq<char>) -> bool {
    m == "and"@ || m == "or"@ || m == "xor"@ || m == "eq"@
}

pub open spec fn logic(m: Seq<char>, a: bool, b: bool) -> bool {
    if m == "and"@ {
        a && b
    } else if m == "or"@ {
        a || b
    } else if m == "xor"@ {
        a != b
    } else {
        a == b
    }
}

/// The methods of booleans.
pub open spec fn bool_call(b: bool, args: Seq<Obj>) -> Result<Obj, SFault> {
    if args.len() == 0 {
        Ok(Obj::Bool(b))
    } else {
        let m = display(args[0]);
        if is_logic(m) {
            if args.len() < 2 {
                Err(failed(SError::NotEnoughArgs(0, 1)))
            } else {
                match bool_of(args[1]) {
                    Err(t) => Err(failed(SError::UnexpectedType("bool"@, t))),
                    Ok(c) => Ok(Obj::Bool(logic(m, b, c))),
                }
            }
        } else if m == "not"@ {
            Ok(Obj::Bool(!b))
        } else {
            Err(SFault::UnknownMethod(m))
        }
    }
}

pub open spec fn m_result(r: Result<Value, Fault>) -> Result<Obj, SFault> {
    match r {
        Ok(v) => Ok(v@),
        Err(f) => Err(f@),
    }
}

pub fn is_text(m: &Vec<char>, name: &str) -> (r: bool)
    ensures
        r == (m@ == name@),
{
    chars_eq(m, &lit(name))
}

/// The texts of `args[from..]`.
fn arg_texts(args: &Vec<Value>, from: usize) -> (r: Vec<Vec<char>>)
    requires
        from <= args@.len(),
    ensures
        texts(r@) == texts_of(m_vals(args@).subrange(from as int, args@.len() as int)),
{
    let ghost ms = m_vals(args@);
    proof {
        lemma_m_vals(args@);
    }
    let mut r: Vec<Vec<char>> = Vec::new();
    let mut k = from;
    while k < args.len()
        invariant
            ms == m_vals(args@),
            ms.len() == args@.len(),
            forall|i: int| 0 <= i < args@.len() ==> #[trigger] ms[i] == args@[i]@,
            from <= k <= args@.len(),
            r@.len() == k - from,
            forall|j: int| 0 <= j < r@.len() ==> #[trigger] r@[j]@ == display(ms[from + j]),
        decreases args@.len() - k,
    {
        r.push(args[k].text());
        k += 1;
    }
    assert(texts(r@) =~= texts_of(ms.subrange(from as int, args@.len() as int)));
    r
}

fn str_tuple(parts: Vec<Vec<char>>) -> (r: Value)
    ensures
        r@ == Obj::Tuple(texts(parts@).map(|i: int, p: Seq<char>| Obj::Str(p))),
{
    let ghost ps = texts(parts@);
    let mut parts = parts;
    let mut out: Vec<Value> = Vec::new();
    let n = parts.len();
    let mut k: usize = 0;
    while k < n
        invariant
            n == ps.len(),
            k <= n,
            parts@.len() == n - k,
            forall|j: int| 0 <= j < parts@.len() ==> #[trigger] parts@[j]@ == ps[k + j],
            out@.len() == k,
            forall|j: int| 0 <= j < k ==> #[trigger] out@[j]@ == Obj::Str(ps[j]),
        decreases n - k,
    {
        let p = parts.remove(0);
        out.push(Value::Str(p));
        k += 1;
    }
    proof {
        lemma_m_vals(out@);
        assert forall|j: int| 0 <= j < out@.len() implies m_vals(out@)[j] == ps.map(
            |i: int, p: Seq<char>| Obj::Str(p),
        )[j] by {
            assert(out@[j]@ == Obj::Str(ps[j]));
        }
        assert(m_vals(out@) =~= ps.map(|i: int, p: Seq<char>| Obj::Str(p)));
    }
    Value::Tuple(out)
}

pub fn vals2(a: Value, b: Value) -> (r: Vec<Value>)
    ensures
        m_vals(r@) == seq![a@, b@],
{
    let r = vec![a, b];
    proof {
        lemma_m_vals(r@);
        assert(m_vals(r@) =~= seq![a@, b@]);
    }
    r
}

pub fn vals3(a: Value, b: Value, c: Value) -> (r: Vec<Value>)
    ensures
        m_vals(r@) == seq![a@, b@, c@],
{
    let r = vec![a, b, c];
    proof {
        lemma_m_vals(r@);
        assert(m_vals(r@) =~= seq![a@, b@, c@]);
    }
    r
}

/// Calls the string `s` with `args`.
pub(crate) fn str_call_exec(s: Vec<char>, args: &Vec<Value>) -> (r: Result<Value, Fault>)
    ensures
        m_result(r) == str_call(s@, m_vals(args@)),
{
    proof {
        lemma_m_vals(args@);
    }
    if args.len() == 0 {
        return Ok(Value::Str(s));
    }
    let m = args[0].text();
    let second: Option<Vec<char>> = if args.len() > 1 {
        Some(args[1].text())
    } else {
        None
    };
    if is_text(&m, "len") || is_text(&m, "_len") {
        match utf8_byte_len(&s) {
            None => Err(Fault::Arithmetic),
            Some(n) => {
                let t = usize_text(n);
                if is_text(&m, "len") {
                    Ok(Value::Str(t))
                } else {
                    Ok(Value::Tuple(vals2(Value::Str(s), Value::Str(t))))
                }
            },
        }
    } else if is_text(&m, "chars") {
        let mut out: Vec<Value> = Vec::new();
        let mut k: usize = 0;
        while k < s.len()
            invariant
                k <= s@.len(),
                out@.len() == k,
                forall|j: int| 0 <= j < k ==> #[trigger] out@[j]@ == Obj::Str(seq![s@[j]]),
            decreases s@.len() - k,
        {
            let c = vec![s[k]];
            assert(c@ =~= seq![s@[k as int]]);
            out.push(Value::Str(c));
            k += 1;
        }
        proof {
            lemma_m_vals(out@);
            assert forall|j: int| 0 <= j < out@.len() implies m_vals(out@)[j] == s@.map(
                |i: int, c: char| Obj::Str(seq![c]),
            )[j] by {
                assert(out@[j]@ == Obj::Str(seq![s@[j]]));
            }
            assert(m_vals(out@) =~= s@.map(|i: int, c: char| Obj::Str(seq![c])));
        }
        Ok(Value::Tuple(out))
    } else if is_text(&m, "split") {
        let d = match second {
            Some(t) => t,
            None => {
                let sp = vec![' '];
                assert(sp@ =~= seq![' ']);
                sp
            },
        };
        Ok(str_tuple(split_chars(&s, &d)))
    } else if is_text(&m, "push") {
        let mut s = s;
        match second {
            Some(t) => push_all(&mut s, &t),
            None => {
                assert(s@ + Seq::<char>::empty() =~= s@);
            },
        }
        Ok(Value::Str(s))
    } else if is_text(&m, "eq") || is_text(&m, "_eq") {
        match second {
            None => Err(Fault::Failed(TrashError::NotEnoughArgs(0, 1))),
            Some(t) => {
                let same = chars_eq(&s, &t);
                if is_text(&m, "eq") {
                    Ok(Value::Bool(same))
                } else {
                    Ok(Value::Tuple(vals3(Value::Str(s), Value::Str(t), Value::Bool(same))))
                }
            },
        }
    } else if is_text(&m, "format") {
        let a = arg_texts(args, 1);
        Ok(Value::Str(format_text(&s, &a)))
    } else {
        Err(Fault::Failed(TrashError::UnknownMethod(m)))
    }
}

impl Int {
    /// The integer `var` stands for, or its text when it stands for none.
    pub fn to_int(var: &Value) -> (r: Result<i64, Vec<char>>)
        ensures
            match r {
                Ok(v) => int_of(var@) == Ok::<i64, Seq<char>>(v),
                Err(t) => int_of(var@) == Err::<i64, Seq<char>>(t@),
            },
    {
        match var {
            Value::Int(v) => Ok(*v),
            _ => {
                let t = var.text();
                match parse_i64(&t) {
                    Some(v) => Ok(v),
                    None => Err(t),
                }
            },
        }
    }

    /// What the builtin `int` gives for `var`.
    pub fn int_obj(var: Value) -> (r: Result<Value, TrashError>)
        ensures
            match r {
                Ok(v) => int_obj(var@) == Ok::<Obj, SError>(v@),
                Err(e) => int_obj(var@) == Err::<Obj, SError>(e@),
            },
    {
        match Int::to_int(&var) {
            Ok(v) => Ok(Value::Int(v)),
            Err(t) => Err(TrashError::UnexpectedType(lit("int"), t)),
        }
    }
}

impl Bool {
    /// The boolean `var` stands for, or its text when it stands for none.
    pub fn bool_res(var: &Value) -> (r: Result<bool, Vec<char>>)
        ensures
            match r {
                Ok(b) => bool_of(var@) == Ok::<bool, Seq<char>>(b),
                Err(t) => bool_of(var@) == Err::<bool, Seq<char>>(t@),
            },
    {
        match var {
            Value::Bool(b) => Ok(*b),
            _ => {
                let t = var.text();
                match parse_bool(&t) {
                    Some(b) => Ok(b),
                    None => Err(t),
                }
            },
        }
    }

    /// What the builtin that converts to booleans gives for `var`.
    pub fn bool_obj(var: Value) -> (r: Result<Value, TrashError>)
        ensures
            match r {
                Ok(v) => bool_obj(var@) == Ok::<Obj, SError>(v@),
                Err(e) => bool_obj(var@) == Err::<Obj, SError>(e@),
            },
    {
        match Bool::bool_res(&var) {
            Ok(b) => Ok(Value::Bool(b)),
            Err(t) => Err(TrashError::UnexpectedType(lit("float"), t)),
        }
    }
}

fn arith_exec(m: &Vec<char>, a: i64, b: i64) -> (r: Option<i64>)
    requires
        is_arith(m@),
    ensures
        r == arith(m@, a, b),
{
    if is_text(m, "add") {
        a.checked_add(b)
    } else if is_text(m, "sub") {
        a.checked_sub(b)
    } else if is_text(m, "mul") {
        a.checked_mul(b)
    } else if is_text(m, "div") {
        a.checked_div(b)
    } else {
        a.checked_rem(b)
    }
}

/// Calls the integer `i` with `args`.
pub(crate) fn int_call_exec(i: i64, args: &Vec<Value>) -> (r: Result<Value, Fault>)
    ensures
        m_result(r) == int_call(i, m_vals(args@)),
{
    proof {
        lemma_m_vals(args@);
    }
    if args.len() == 0 {
        return Ok(Value::Int(i));
    }
    let m = args[0].text();
    let arithmetic = is_text(&m, "add") || is_text(&m, "sub") || is_text(&m, "mul") || is_text(&m, "div") || is_text(
        &m,
        "rem",
    );
    let comparison = is_text(&m, "eq") || is_text(&m, "gt") || is_text(&m, "lt");
    if arithmetic || comparison {
        if args.len() < 2 {
            return Err(Fault::Failed(TrashError::NotEnoughArgs(0, 1)));
        }
        match Int::to_int(&args[1]) {
            Err(t) => Err(Fault::Failed(TrashError::UnexpectedType(lit("int"), t))),
            Ok(n) => {
                if arithmetic {
                    match arith_exec(&m, i, n) {
                        Some(v) => Ok(Value::Int(v)),
                        None => Err(Fault::Arithmetic),
                    }
                } else {
                    let c = if is_text(&m, "eq") {
                        i == n
                    } else if is_text(&m, "gt") {
                        i > n
                    } else {
                        i < n
                    };
                    Ok(Value::Str(bool_to_text(c)))
                }
            },
        }
    } else if is_text(&m, "chr") {
        let u = i as u32;
        match char_from_u32(u) {
            Some(c) => {
                let t = vec![c];
                assert(t@ =~= seq![u as char]);
                Ok(Value::Str(t))
            },
            None => Err(Fault::Failed(TrashError::Custom(lit("Invalid UTF-8 char")))),
        }
    } else {
        Err(Fault::UnknownMethod(m))
    }
}

/// Calls the boolean `b` with `args`.
pub(crate) fn bool_call_exec(b: bool, args: &Vec<Value>) -> (r: Result<Value, Fault>)
    ensures
        m_result(r) == bool_call(b, m_vals(args@)),
{
    proof {
        lemma_m_vals(args@);
    }
    if args.len() == 0 {
        return Ok(Value::Bool(b));
    }
    let m = args[0].text();
    if is_text(&m, "and") || is_text(&m, "or") || is_text(&m, "xor") || is_text(&m, "eq") {
        if args.len() < 2 {
            return Err(Fault::Failed(TrashError::NotEnoughArgs(0, 1)));
        }
        match Bool::bool_res(&args[1]) {
            Err(t) => Err(Fault::Failed(TrashError::UnexpectedType(lit("bool"), t))),
            Ok(c) => {
                let v = if is_text(&m, "and") {
                    b && c
                } else if is_text(&m, "or") {
                    b || c
                } else if is_text(&m, "xor") {
                    b != c
                } else {
                    b == c
                };
                Ok(Value::Bool(v))
            },
        }
    } else if is_text(&m, "not") {
        Ok(Value::Bool(!b))
    } else {
        Err(Fault::UnknownMethod(m))
    }
}

/// The outcome of a method stops the program: an error other than one that
/// the method returns to its caller.
pub open spec fn halts(r: Result<Obj, SFault>) -> bool {
    match r {
        Ok(_) => false,
        Err(SFault::Failed(_)) => false,
        Err(_) => true,
    }
}

/// The methods of integers.  An unknown method, overflow and division by zero
/// stop the program; those inputs are left out.
pub fn int_method(i: i64, args: &Vec<Value>) -> (r: Result<Value, TrashError>)
    requires
        !halts(int_call(i, m_vals(args@))),
    ensures
        match r {
            Ok(v) => int_call(i, m_vals(args@)) == Ok::<Obj, SFault>(v@),
            Err(e) => int_call(i, m_vals(args@)) == Err::<Obj, SFault>(SFault::Failed(e@)),
        },
{
    match int_call_exec(i, args) {
        Ok(v) => Ok(v),
        Err(Fault::Failed(e)) => Err(e),
        Err(_) => {
            proof {
                assert(false);
            }
            Err(TrashError::OutOfBounds)
        },
    }
}

/// The methods of booleans.  An unknown method stops the program; those
/// inputs are left out.
pub fn bool_method(b: bool, args: &Vec<Value>) -> (r: Result<Value, TrashError>)
    requires
        !halts(bool_call(b, m_vals(args@))),
    ensures
        match r {
            Ok(v) => bool_call(b, m_vals(args@)) == Ok::<Obj, SFault>(v@),
            Err(e) => bool_call(b, m_vals(args@)) == Err::<Obj, SFault>(SFault::Failed(e@)),
        },
{
    match bool_call_exec(b, args) {
        Ok(v) => Ok(v),
        Err(Fault::Failed(e)) => Err(e),
        Err(_) => {
            proof {
                assert(false);
            }
            Err(TrashError::OutOfBounds)
        },
    }
}

/// The methods of strings.  A string whose UTF-8 length does not fit in a
/// `usize` cannot exist, so `len` of one is left out.
pub fn str_method(s: Vec<char>, args: &Vec<Value>) -> (r: Result<Value, TrashError>)
    requires
        !halts(str_call(s@, m_vals(args@))),
    ensures
        match r {
            Ok(v) => str_call(s@, m_vals(args@)) == Ok::<Obj, SFault>(v@),
            Err(e) => str_call(s@, m_vals(args@)) == Err::<Obj, SFault>(SFault::Failed(e@)),
        },
{
    match str_call_exec(s, args) {
        Ok(v) => Ok(v),
        Err(Fault::Failed(e)) => Err(e),
        Err(_) => {
            proof {
                assert(false);
            }
            Err(TrashError::OutOfBounds)
        },
    }
}

} // verus!
