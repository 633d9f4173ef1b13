//! The objects a Trash program computes with, their mathematical model, and
//! what every object gives as text, as a tuple and as a copy.
use vstd::prelude::*;
use std::sync::Arc;
use crate::syntax::{Block, SBlock, m_block};
use crate::error::{TrashError, SError};
use crate::text::{int_text, bool_text, i64_text, bool_to_text, push_all, copy_chars, texts};

verus! {

/// Program text, parsed once it is first run.
pub struct Code {
    pub text: Vec<char>,
    pub parsed: Option<Arc<Block>>,
}

/// A closure that moves the named variables out of its caller's frame.
pub struct MovClos {
    pub code: Code,
    pub names: Vec<Vec<char>>,
}

/// The builtin `int`: converts its argument to an integer.
pub struct Int;

/// The builtin that converts its argument to a boolean.
pub struct Bool;

/// The builtin `if`.
pub struct IfStatement;

/// The builtin `while`.
pub struct WhileStatement;

/// Makes a scanner over its argument.
pub struct ScannerGen;

/// Reads whitespace-separated words from the object it wraps, which answers
/// `next` with the object to read on from and the next piece of text.
pub struct Scanner {
    pub inner: Box<Value>,
}

/// An object.
pub enum Value {
    Str(Vec<char>),
    Int(i64),
    Bool(bool),
    Tuple(Vec<Value>),
    Code(Code),
    MovClos(MovClos),
    IntFn(Int),
    BoolFn(Bool),
    If(IfStatement),
    While(WhileStatement),
    ScannerGen(ScannerGen),
    Scanner(Scanner),
    /// The builtin `puts`: writes its arguments to the output.
    Puts,
    /// The program's output stream.
    Stdout,
    /// The program's input stream.
    Stdin,
}

/// The model of an object.
pub enum Obj {
    Str(Seq<char>),
    Int(i64),
    Bool(bool),
    Tuple(Seq<Obj>),
    /// Source text and, once parsed, the body.
    Code(Seq<char>, Option<SBlock>),
    MovClos(Seq<char>, Option<SBlock>, Seq<Seq<char>>),
    IntFn,
    BoolFn,
    If,
    While,
    ScannerGen,
    Scanner(Box<Obj>),
    Puts,
    Stdout,
    Stdin,
}

pub open spec fn m_parsed(p: Option<Arc<Block>>) -> Option<SBlock> {
    match p {
        Some(b) => Some(m_block(*b)),
        None => None,
    }
}

pub open spec fn m_vals(s: Seq<Value>) -> Seq<Obj>
    decreases s,
{
    if s.len() == 0 {
        Seq::empty()
    } else {
        m_vals(s.subrange(0, s.len() - 1)).push(m_val(s[s.len() - 1]))
    }
}

pub open spec fn m_val(v: Value) -> Obj
    decreases v,
{
    match v {
        Value::Str(s) => Obj::Str(s@),
        Value::Int(i) => Obj::Int(i),
        Value::Bool(b) => Obj::Bool(b),
        Value::Tuple(items) => Obj::Tuple(m_vals(items@)),
        Value::Code(c) => Obj::Code(c.text@, m_parsed(c.parsed)),
        Value::MovClos(m) => Obj::MovClos(m.code.text@, m_parsed(m.code.parsed), texts(m.names@)),
        Value::IntFn(_) => Obj::IntFn,
        Value::BoolFn(_) => Obj::BoolFn,
        Value::If(_) => Obj::If,
        Value::While(_) => Obj::While,
        Value::ScannerGen(_) => Obj::ScannerGen,
        Value::Scanner(s) => Obj::Scanner(Box::new(m_val(*s.inner))),
        Value::Puts => Obj::Puts,
        Value::Stdout => Obj::Stdout,
        Value::Stdin => Obj::Stdin,
    }
}

impl View for Value {
    type V = Obj;

    open spec fn view(&self) -> Obj {
        m_val(*self)
    }
}

pub proof fn lemma_m_vals(s: Seq<Value>)
    ensures
        m_vals(s).len() == s.len(),
        forall|i: int| 0 <= i < s.len() ==> #[trigger] m_vals(s)[i] == m_val(s[i]),
    decreases s.len(),
{
    if s.len() > 0 {
        lemma_m_vals(s.subrange(0, s.len() - 1));
        assert forall|i: int| 0 <= i < s.len() implies #[trigger] m_vals(s)[i] == m_val(s[i]) by {
            if i < s.len() - 1 {
                assert(s.subrange(0, s.len() - 1)[i] == s[i]);
            }
        }
    }
}

pub proof fn lemma_m_vals_push(s: Seq<Value>, x: Value)
    ensures
        m_vals(s.push(x)) == m_vals(s).push(m_val(x)),
{
    assert(s.push(x).subrange(0, s.len() as int) =~= s);
}

/// `m_vals` is the pointwise model.
pub proof fn lemma_m_vals_ext(s: Seq<Value>, o: Seq<Obj>)
    requires
        o.len() == s.len(),
        forall|i: int| 0 <= i < s.len() ==> o[i] == #[trigger] m_val(s[i]),
    ensures
        m_vals(s) == o,
{
    lemma_m_vals(s);
    assert(m_vals(s) =~= o);
}

/// The text of an object, as `to_string` gives it.
pub open spec fn display(o: Obj) -> Seq<char>
    decreases o,
{
    match o {
        Obj::Str(s) => s,
        Obj::Int(i) => int_text(i as int),
        Obj::Bool(b) => bool_text(b),
        Obj::Tuple(items) => seq!['(', ' '] + display_items(items) + seq![')'],
        Obj::Code(t, _) => t,
        Obj::MovClos(t, _, _) => t,
        Obj::Scanner(inner) => display(*inner),
        _ => Seq::empty(),
    }
}

/// Each item's text followed by a space.
pub open spec fn display_items(items: Seq<Obj>) -> Seq<char>
    decreases items,
{
    if items.len() == 0 {
        Seq::empty()
    } else {
        display_items(items.subrange(0, items.len() - 1)) + display(items[items.len() - 1])
            + seq![' ']
    }
}

/// The items of an object taken as a tuple, as `to_tuple` gives them.
pub open spec fn to_tuple(o: Obj) -> Seq<Obj>
    decreases o,
{
    match o {
        Obj::Tuple(items) => items,
        Obj::MovClos(t, p, _) => seq![Obj::Code(t, p)],
        Obj::Scanner(inner) => to_tuple(*inner),
        Obj::IntFn | Obj::If | Obj::While | Obj::ScannerGen => Seq::empty(),
        _ => seq![o],
    }
}

/// The object cannot be copied: it is a stream or a scanner, or a tuple that
/// holds one.
pub open spec fn has_stream(o: Obj) -> bool
    decreases o,
{
    match o {
        Obj::Stdout | Obj::Stdin | Obj::Scanner(_) => true,
        Obj::Tuple(items) => items_have_stream(items),
        _ => false,
    }
}

pub open spec fn items_have_stream(items: Seq<Obj>) -> bool
    decreases items,
{
    if items.len() == 0 {
        false
    } else {
        items_have_stream(items.subrange(0, items.len() - 1)) || has_stream(
            items[items.len() - 1],
        )
    }
}

/// What copying an object gives.
pub open spec fn copy_of(o: Obj) -> Result<Obj, SError> {
    if has_stream(o) {
        Err(SError::LinearTypeCloning)
    } else {
        Ok(o)
    }
}

/// `Arc::clone`: another handle to the same parsed body.
#[verifier::external_body]
pub(crate) fn share_block(b: &Arc<Block>) -> (r: Arc<Block>)
    ensures
        r == *b,
{
    Arc::clone(b)
}

/// `String::from_iter` over characters.
#[verifier::external_body]
pub(crate) fn chars_to_string(v: &Vec<char>) -> (r: String)
    ensures
        r@ == v@,
{
    v.iter().collect()
}

impl Code {
    /// Unparsed program text.
    pub fn from_string(s: String) -> (r: Code)
        ensures
            r.text@ == s@,
            r.parsed is None,
    {
        Code { text: crate::text::chars_of(&s), parsed: None }
    }

    /// A copy of this code, sharing the parsed body.
    pub fn copy(&self) -> (r: Code)
        ensures
            r.text@ == self.text@,
            m_parsed(r.parsed) == m_parsed(self.parsed),
    {
        let parsed = match &self.parsed {
            Some(b) => Some(share_block(b)),
            None => None,
        };
        Code { text: copy_chars(&self.text), parsed }
    }
}

pub fn copy_names(n: &Vec<Vec<char>>) -> (r: Vec<Vec<char>>)
    ensures
        texts(r@) == texts(n@),
{
    let mut r: Vec<Vec<char>> = Vec::new();
    let mut i: usize = 0;
    while i < n.len()
        invariant
            i <= n@.len(),
            r@.len() == i,
            forall|j: int| 0 <= j < i ==> #[trigger] r@[j]@ == n@[j]@,
        decreases n@.len() - i,
    {
        r.push(copy_chars(&n[i]));
        i += 1;
    }
    assert(texts(r@) =~= texts(n@));
    r
}

pub proof fn lemma_display_items_push(items: Seq<Obj>, o: Obj)
    ensures
        display_items(items.push(o)) == display_items(items) + display(o) + seq![' '],
{
    assert(items.push(o).subrange(0, items.len() as int) =~= items);
}

pub proof fn lemma_items_have_stream(items: Seq<Obj>)
    ensures
        items_have_stream(items) <==> exists|i: int| 0 <= i < items.len() && has_stream(#[trigger] items[i]),
    decreases items.len(),
{
    if items.len() > 0 {
        let pre = items.subrange(0, items.len() - 1);
        lemma_items_have_stream(pre);
        if items_have_stream(items) {
            if items_have_stream(pre) {
                let i = choose|i: int| 0 <= i < pre.len() && has_stream(#[trigger] pre[i]);
                assert(items[i] == pre[i]);
            } else {
                assert(has_stream(items[items.len() - 1]));
            }
        }
        if exists|i: int| 0 <= i < items.len() && has_stream(#[trigger] items[i]) {
            let i = choose|i: int| 0 <= i < items.len() && has_stream(#[trigger] items[i]);
            if i < items.len() - 1 {
                assert(pre[i] == items[i]);
            }
        }
    }
}

/// Each item's text followed by a space.
fn items_text(items: &Vec<Value>) -> (r: Vec<char>)
    ensures
        r@ == display_items(m_vals(items@)),
    decreases items,
{
    let ghost ms = m_vals(items@);
    proof {
        lemma_m_vals(items@);
    }
    let mut r: Vec<char> = Vec::new();
    let mut k: usize = 0;
    while k < items.len()
        invariant
            ms == m_vals(items@),
            ms.len() == items@.len(),
            forall|i: int| 0 <= i < items@.len() ==> #[trigger] ms[i] == items@[i]@,
            k <= items@.len(),
            r@ == display_items(ms.subrange(0, k as int)),
        decreases items@.len() - k,
    {
        let t = items[k].text();
        push_all(&mut r, &t);
        r.push(' ');
        proof {
            lemma_display_items_push(ms.subrange(0, k as int), ms[k as int]);
            assert(ms.subrange(0, k as int).push(ms[k as int]) =~= ms.subrange(0, k + 1));
        }
        k += 1;
        assert(r@ =~= display_items(ms.subrange(0, k as int)));
    }
    assert(ms.subrange(0, ms.len() as int) =~= ms);
    r
}

/// Copies of the items, or the error of the first that cannot be copied.
fn items_clone(items: &Vec<Value>) -> (r: Result<Vec<Value>, TrashError>)
    ensures
        match r {
            Ok(out) => !items_have_stream(m_vals(items@)) && m_vals(out@) == m_vals(items@),
            Err(e) => items_have_stream(m_vals(items@)) && e@ == SError::LinearTypeCloning,
        },
    decreases items,
{
    let ghost ms = m_vals(items@);
    proof {
        lemma_m_vals(items@);
        lemma_items_have_stream(ms);
    }
    let mut out: Vec<Value> = Vec::new();
    let mut k: usize = 0;
    while k < items.len()
        invariant
            ms == m_vals(items@),
            ms.len() == items@.len(),
            forall|i: int| 0 <= i < items@.len() ==> #[trigger] ms[i] == items@[i]@,
            items_have_stream(ms) <==> exists|i: int| 0 <= i < ms.len() && has_stream(#[trigger] ms[i]),
            k <= items@.len(),
            out@.len() == k,
            forall|i: int| 0 <= i < k ==> #[trigger] out@[i]@ == ms[i],
            forall|i: int| 0 <= i < k ==> !has_stream(#[trigger] ms[i]),
        decreases items@.len() - k,
    {
        match items[k].clone() {
            Ok(v) => {
                out.push(v);
            },
            Err(e) => {
                assert(has_stream(ms[k as int]));
                return Err(e);
            },
        }
        k += 1;
    }
    proof {
        assert forall|i: int| 0 <= i < out@.len() implies ms[i] == #[trigger] m_val(out@[i]) by {
            assert(out@[i]@ == ms[i]);
        }
        lemma_m_vals_ext(out@, ms);
    }
    Ok(out)
}

impl Value {
    /// The text of this object.
    pub fn text(&self) -> (r: Vec<char>)
        ensures
            r@ == display(self@),
        decreases self,
    {
        match self {
            Value::Str(s) => copy_chars(s),
            Value::Int(i) => i64_text(*i),
            Value::Bool(b) => bool_to_text(*b),
            Value::Tuple(items) => {
                let mut r = vec!['(', ' '];
                let t = items_text(items);
                push_all(&mut r, &t);
                r.push(')');
                assert(r@ =~= display(self@));
                r
            },
            Value::Code(c) => copy_chars(&c.text),
            Value::MovClos(m) => copy_chars(&m.code.text),
            Value::Scanner(s) => s.inner.text(),
            _ => Vec::new(),
        }
    }

    /// The text of this object as a `String`.
    pub fn to_string(&self) -> (r: String)
        ensures
            r@ == display(self@),
    {
        chars_to_string(&self.text())
    }

    /// The items of this object taken as a tuple.
    pub fn to_tuple(self) -> (r: Vec<Value>)
        ensures
            m_vals(r@) == to_tuple(self@),
        decreases self,
    {
        match self {
            Value::Tuple(items) => items,
            Value::Scanner(s) => (*s.inner).to_tuple(),
            Value::MovClos(m) => {
                let r = vec![Value::Code(m.code)];
                proof {
                    lemma_m_vals(r@);
                    assert(m_vals(r@) =~= to_tuple(self@));
                }
                r
            },
            Value::IntFn(_) | Value::If(_) | Value::While(_) | Value::ScannerGen(_) => {
                let r: Vec<Value> = Vec::new();
                proof {
                    lemma_m_vals(r@);
                    assert(m_vals(r@) =~= to_tuple(self@));
                }
                r
            },
            v => {
                let ghost o = v@;
                let r = vec![v];
                proof {
                    lemma_m_vals(r@);
                    assert(m_vals(r@) =~= seq![o]);
                }
                r
            },
        }
    }

    /// A copy of this object; streams cannot be copied.
    pub fn clone(&self) -> (r: Result<Value, TrashError>)
        ensures
            match r {
                Ok(v) => copy_of(self@) == Ok::<Obj, SError>(v@),
                Err(e) => copy_of(self@) == Err::<Obj, SError>(e@),
            },
        decreases self,
    {
        match self {
            Value::Str(s) => Ok(Value::Str(copy_chars(s))),
            Value::Int(i) => Ok(Value::Int(*i)),
            Value::Bool(b) => Ok(Value::Bool(*b)),
            Value::Tuple(items) => match items_clone(items) {
                Ok(out) => Ok(Value::Tuple(out)),
                Err(e) => Err(e),
            },
            Value::Code(c) => Ok(Value::Code(c.copy())),
            Value::MovClos(m) => Ok(
                Value::MovClos(MovClos { code: m.code.copy(), names: copy_names(&m.names) }),
            ),
            Value::IntFn(_) => Ok(Value::IntFn(Int)),
            Value::BoolFn(_) => Ok(Value::BoolFn(Bool)),
            Value::If(_) => Ok(Value::If(IfStatement)),
            Value::While(_) => Ok(Value::While(WhileStatement)),
            Value::ScannerGen(_) => Ok(Value::ScannerGen(ScannerGen)),
            Value::Scanner(_) => Err(TrashError::LinearTypeCloning),
            Value::Puts => Ok(Value::Puts),
            Value::Stdout => Err(TrashError::LinearTypeCloning),
            Value::Stdin => Err(TrashError::LinearTypeCloning),
        }
    }
}

} // verus!
