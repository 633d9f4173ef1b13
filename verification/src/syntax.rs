//! The syntax of Trash programs: the syntax tree, its mathematical model, the
//! grammar as spec functions over characters, and the parser that follows it.
//!
//! A program is a sequence of calls, one per line.  A call is a sequence of
//! objects on one line.  An object is an unquoted string of ASCII letters and
//! digits, a quoted string (with the escapes `\n` and `\\`), `$name` (move a
//! variable), `@name` (copy a variable), `[obj ...]` (a nested call),
//! `(obj ...)` (a tuple), `{ code }` (a closure) or `<{ code } name ...>`
//! (a closure that moves the named variables out of its caller).
use vstd::prelude::*;
use std::sync::Arc;
use crate::text::{texts, slice_chars};

verus! {

// ---------------------------------------------------------------------------
// Syntax tree and its model
// ---------------------------------------------------------------------------

/// What an object of the program denotes.
pub enum Def {
    /// An unquoted string.
    Str(Vec<char>),
    /// A quoted string, its escapes resolved.
    Quoted(Vec<char>),
    /// `$name`: the variable, moved out of the current frame.
    Move(Vec<char>),
    /// `@name`: a copy of the variable, looked up through all frames.
    Copy(Vec<char>),
    /// `[obj args...]`
    Call(Vec<ObjDef>),
    /// `(obj ...)`
    Tuple(Vec<ObjDef>),
    /// `{ code }`: its source text and parsed body.
    Closure(Vec<char>, Arc<Block>),
    /// `<{ code } names... >`: source text, parsed body, moved names.
    MoveClosure(Vec<char>, Arc<Block>, Vec<Vec<char>>),
}

/// An object of the program with the character range it was parsed from
/// and the source text in that range.
pub struct ObjDef {
    pub start: usize,
    pub end: usize,
    pub text: Vec<char>,
    pub def: Def,
}

/// A parsed program or closure body: its calls, in order.
pub struct Block {
    pub calls: Vec<Vec<ObjDef>>,
}

pub enum SDef {
    Str(Seq<char>),
    Quoted(Seq<char>),
    Move(Seq<char>),
    Copy(Seq<char>),
    Call(Seq<SObjDef>),
    Tuple(Seq<SObjDef>),
    Closure(Seq<char>, SBlock),
    MoveClosure(Seq<char>, SBlock, Seq<Seq<char>>),
}

pub struct SObjDef {
    pub start: int,
    pub end: int,
    pub text: Seq<char>,
    pub def: SDef,
}

pub struct SBlock {
    pub calls: Seq<Seq<SObjDef>>,
}

pub open spec fn m_objs(s: Seq<ObjDef>) -> Seq<SObjDef>
    decreases s,
{
    if s.len() == 0 {
        Seq::empty()
    } else {
        m_objs(s.subrange(0, s.len() - 1)).push(m_obj(s[s.len() - 1]))
    }
}

pub open spec fn m_calls(s: Seq<Vec<ObjDef>>) -> Seq<Seq<SObjDef>>
    decreases s,
{
    if s.len() == 0 {
        Seq::empty()
    } else {
        m_calls(s.subrange(0, s.len() - 1)).push(m_objs(s[s.len() - 1]@))
    }
}

pub open spec fn m_block(b: Block) -> SBlock
    decreases b,
{
    SBlock { calls: m_calls(b.calls@) }
}

pub open spec fn m_obj(d: ObjDef) -> SObjDef
    decreases d,
{
    SObjDef {
        start: d.start as int,
        end: d.end as int,
        text: d.text@,
        def: match d.def {
            Def::Str(t) => SDef::Str(t@),
            Def::Quoted(t) => SDef::Quoted(t@),
            Def::Move(t) => SDef::Move(t@),
            Def::Copy(t) => SDef::Copy(t@),
            Def::Call(v) => SDef::Call(m_objs(v@)),
            Def::Tuple(v) => SDef::Tuple(m_objs(v@)),
            Def::Closure(t, b) => SDef::Closure(t@, m_block(*b)),
            Def::MoveClosure(t, b, n) => SDef::MoveClosure(t@, m_block(*b), texts(n@)),
        },
    }
}

impl View for ObjDef {
    type V = SObjDef;

    open spec fn view(&self) -> SObjDef {
        m_obj(*self)
    }
}

impl View for Block {
    type V = SBlock;

    open spec fn view(&self) -> SBlock {
        m_block(*self)
    }
}

pub proof fn lemma_m_objs(s: Seq<ObjDef>)
    ensures
        m_objs(s).len() == s.len(),
        forall|i: int| 0 <= i < s.len() ==> #[trigger] m_objs(s)[i] == m_obj(s[i]),
    decreases s.len(),
{
    if s.len() > 0 {
        lemma_m_objs(s.subrange(0, s.len() - 1));
        assert forall|i: int| 0 <= i < s.len() implies #[trigger] m_objs(s)[i] == m_obj(s[i]) by {
            if i < s.len() - 1 {
                assert(s.subrange(0, s.len() - 1)[i] == s[i]);
            }
        }
    }
}

pub proof fn lemma_m_calls(s: Seq<Vec<ObjDef>>)
    ensures
        m_calls(s).len() == s.len(),
        forall|i: int| 0 <= i < s.len() ==> #[trigger] m_calls(s)[i] == m_objs(s[i]@),
    decreases s.len(),
{
    if s.len() > 0 {
        lemma_m_calls(s.subrange(0, s.len() - 1));
        assert forall|i: int| 0 <= i < s.len() implies #[trigger] m_calls(s)[i] == m_objs(
            s[i]@,
        ) by {
            if i < s.len() - 1 {
                assert(s.subrange(0, s.len() - 1)[i] == s[i]);
            }
        }
    }
}

pub proof fn lemma_m_objs_push(s: Seq<ObjDef>, o: ObjDef)
    ensures
        m_objs(s.push(o)) == m_objs(s).push(m_obj(o)),
{
    assert(s.push(o).subrange(0, s.len() as int) =~= s);
}

pub proof fn lemma_m_calls_push(s: Seq<Vec<ObjDef>>, o: Vec<ObjDef>)
    ensures
        m_calls(s.push(o)) == m_calls(s).push(m_objs(o@)),
{
    assert(s.push(o).subrange(0, s.len() as int) =~= s);
}

// ---------------------------------------------------------------------------
// Errors
// ---------------------------------------------------------------------------

/// Why a program text was rejected.
pub enum ParseErrorKind {
    /// The text does not follow the grammar at this position (the length
    /// of the text when it ended too early).
    Syntax,
    /// `$set` with nothing to assign to.
    ExpectedVariableName,
    /// `$set` with a target but no value.
    ExpectedVariableValue,
    /// A `$set` target that is neither an unquoted string nor a tuple.
    ExpectedNameOrTuple,
    /// `$name` where the variable was already moved by an earlier `$name`
    /// of the same body and not assigned since.
    GuaranteedMoved(Vec<char>),
}

pub struct ParseError {
    pub pos: usize,
    pub kind: ParseErrorKind,
}

pub enum SParseErrorKind {
    Syntax,
    ExpectedVariableName,
    ExpectedVariableValue,
    ExpectedNameOrTuple,
    GuaranteedMoved(Seq<char>),
}

pub struct SParseError {
    pub pos: int,
    pub kind: SParseErrorKind,
}

impl View for ParseError {
    type V = SParseError;

    open spec fn view(&self) -> SParseError {
        SParseError {
            pos: self.pos as int,
            kind: match self.kind {
                ParseErrorKind::Syntax => SParseErrorKind::Syntax,
                ParseErrorKind::ExpectedVariableName => SParseErrorKind::ExpectedVariableName,
                ParseErrorKind::ExpectedVariableValue => SParseErrorKind::ExpectedVariableValue,
                ParseErrorKind::ExpectedNameOrTuple => SParseErrorKind::ExpectedNameOrTuple,
                ParseErrorKind::GuaranteedMoved(n) => SParseErrorKind::GuaranteedMoved(n@),
            },
        }
    }
}

pub open spec fn syntax_err(pos: int) -> SParseError {
    SParseError { pos, kind: SParseErrorKind::Syntax }
}

fn syntax_error(pos: usize) -> (e: ParseError)
    ensures
        e@ == syntax_err(pos as int),
{
    ParseError { pos, kind: ParseErrorKind::Syntax }
}

// ---------------------------------------------------------------------------
// Grammar
// ---------------------------------------------------------------------------

/// Characters of unquoted strings and variable names.
pub open spec fn is_word_char(c: char) -> bool {
    ('a' <= c && c <= 'z') || ('A' <= c && c <= 'Z') || ('0' <= c && c <= '9')
}

/// Blanks that separate the objects of a call.
pub open spec fn is_blank(c: char) -> bool {
    c == ' ' || c == '\t' || c == '\r'
}

pub open spec fn is_space(c: char) -> bool {
    is_blank(c) || c == '\n'
}

/// The first position from `i` on that is not a blank.
pub open spec fn skip_blank(s: Seq<char>, i: int) -> int
    decreases s.len() - i,
{
    if 0 <= i < s.len() && is_blank(s[i]) {
        skip_blank(s, i + 1)
    } else {
        i
    }
}

/// The first position from `i` on that is not a blank or a newline.
pub open spec fn skip_space(s: Seq<char>, i: int) -> int
    decreases s.len() - i,
{
    if 0 <= i < s.len() && is_space(s[i]) {
        skip_space(s, i + 1)
    } else {
        i
    }
}

/// The first position from `i` on that does not hold a word character.
pub open spec fn word_end(s: Seq<char>, i: int) -> int
    decreases s.len() - i,
{
    if 0 <= i < s.len() && is_word_char(s[i]) {
        word_end(s, i + 1)
    } else {
        i
    }
}

pub proof fn lemma_skip_blank(s: Seq<char>, i: int)
    requires
        0 <= i <= s.len(),
    ensures
        i <= skip_blank(s, i) <= s.len(),
        skip_blank(s, i) < s.len() ==> !is_blank(s[skip_blank(s, i)]),
    decreases s.len() - i,
{
    if i < s.len() && is_blank(s[i]) {
        lemma_skip_blank(s, i + 1);
    }
}

pub proof fn lemma_skip_space(s: Seq<char>, i: int)
    requires
        0 <= i <= s.len(),
    ensures
        i <= skip_space(s, i) <= s.len(),
        skip_space(s, i) < s.len() ==> !is_space(s[skip_space(s, i)]),
    decreases s.len() - i,
{
    if i < s.len() && is_space(s[i]) {
        lemma_skip_space(s, i + 1);
    }
}

pub proof fn lemma_word_end(s: Seq<char>, i: int)
    requires
        0 <= i <= s.len(),
    ensures
        i <= word_end(s, i) <= s.len(),
        i < s.len() && is_word_char(s[i]) ==> i < word_end(s, i),
        forall|k: int| i <= k < word_end(s, i) ==> is_word_char(#[trigger] s[k]),
    decreases s.len() - i,
{
    if i < s.len() && is_word_char(s[i]) {
        lemma_word_end(s, i + 1);
    }
}

/// The rest of a quoted string from position `i` (after the opening quote),
/// with `acc` already read: its characters and the position after the
/// closing quote, or the position of the error.
pub open spec fn p_lit(s: Seq<char>, i: int, acc: Seq<char>) -> Result<(Seq<char>, int), int>
    decreases s.len() - i,
{
    if i < 0 || i >= s.len() {
        Err(i)
    } else if s[i] == '"' {
        Ok((acc, i + 1))
    } else if s[i] == '\\' {
        if i + 1 < s.len() && s[i + 1] == 'n' {
            p_lit(s, i + 2, acc.push('\n'))
        } else if i + 1 < s.len() && s[i + 1] == '\\' {
            p_lit(s, i + 2, acc.push('\\'))
        } else {
            Err(i)
        }
    } else {
        p_lit(s, i + 1, acc.push(s[i]))
    }
}

pub open spec fn mk_obj(s: Seq<char>, start: int, end: int, def: SDef) -> SObjDef {
    SObjDef { start, end, text: s.subrange(start, end), def }
}

/// An object starting at position `i`, and the position after it.
pub open spec fn p_obj(s: Seq<char>, i: int) -> Result<(SObjDef, int), SParseError>
    decreases s.len() - i, 0nat,
{
    if i < 0 || i >= s.len() {
        Err(syntax_err(i))
    } else {
        let c = s[i];
        if is_word_char(c) {
            let j = word_end(s, i);
            Ok((mk_obj(s, i, j, SDef::Str(s.subrange(i, j))), j))
        } else if c == '"' {
            match p_lit(s, i + 1, Seq::empty()) {
                Err(p) => Err(syntax_err(p)),
                Ok((t, j)) => Ok((mk_obj(s, i, j, SDef::Quoted(t)), j)),
            }
        } else if c == '$' || c == '@' {
            let j = word_end(s, i + 1);
            if j <= i + 1 {
                Err(syntax_err(i + 1))
            } else {
                let name = s.subrange(i + 1, j);
                Ok(
                    (
                        mk_obj(
                            s,
                            i,
                            j,
                            if c == '$' {
                                SDef::Move(name)
                            } else {
                                SDef::Copy(name)
                            },
                        ),
                        j,
                    ),
                )
            }
        } else if c == '[' {
            match p_items(s, i + 1, ']', Seq::empty()) {
                Err(e) => Err(e),
                Ok((items, j)) => if items.len() == 0 {
                    Err(syntax_err(j - 1))
                } else {
                    Ok((mk_obj(s, i, j, SDef::Call(items)), j))
                },
            }
        } else if c == '(' {
            match p_items(s, i + 1, ')', Seq::empty()) {
                Err(e) => Err(e),
                Ok((items, j)) => Ok((mk_obj(s, i, j, SDef::Tuple(items)), j)),
            }
        } else if c == '{' {
            match p_block(s, i + 1, false, Seq::empty()) {
                Err(e) => Err(e),
                Ok((calls, j)) => Ok(
                    (mk_obj(s, i, j + 1, SDef::Closure(s.subrange(i + 1, j), SBlock { calls })), j + 1),
                ),
            }
        } else if c == '<' {
            if i + 1 < s.len() && s[i + 1] == '{' {
                match p_block(s, i + 2, false, Seq::empty()) {
                    Err(e) => Err(e),
                    Ok((calls, j)) => match p_names(s, j + 1, Seq::empty()) {
                        Err(e) => Err(e),
                        Ok((names, k)) => Ok(
                            (
                                mk_obj(
                                    s,
                                    i,
                                    k,
                                    SDef::MoveClosure(s.subrange(i + 2, j), SBlock { calls }, names),
                                ),
                                k,
                            ),
                        ),
                    },
                }
            } else {
                Err(syntax_err(i + 1))
            }
        } else {
            Err(syntax_err(i))
        }
    }
}

/// The objects of a bracketed call or a tuple from position `i` up to the
/// closing `close`, with `acc` already read, and the position after `close`.
/// Blanks and newlines may separate them.
pub open spec fn p_items(s: Seq<char>, i: int, close: char, acc: Seq<SObjDef>) -> Result<
    (Seq<SObjDef>, int),
    SParseError,
>
    decreases s.len() - i, 1nat,
{
    if i < 0 || i > s.len() {
        Err(syntax_err(i))
    } else {
        let j = skip_space(s, i);
        proof {
            lemma_skip_space(s, i);
        }
        if j >= s.len() {
            Err(syntax_err(j))
        } else if s[j] == close {
            Ok((acc, j + 1))
        } else {
            match p_obj(s, j) {
                Err(e) => Err(e),
                Ok((o, k)) => if k <= i || k > s.len() {
                    Err(syntax_err(j))
                } else {
                    p_items(s, k, close, acc.push(o))
                },
            }
        }
    }
}

/// The objects of one call from position `i` up to the end of its line (a
/// newline, a `}` or the end of the text), with `acc` already read, and the
/// position where the line ends.  Blanks may separate them.
pub open spec fn p_call(s: Seq<char>, i: int, acc: Seq<SObjDef>) -> Result<
    (Seq<SObjDef>, int),
    SParseError,
>
    decreases s.len() - i, 2nat,
{
    if i < 0 || i > s.len() {
        Err(syntax_err(i))
    } else {
        let j = skip_blank(s, i);
        proof {
            lemma_skip_blank(s, i);
        }
        if j >= s.len() || s[j] == '\n' || s[j] == '}' {
            Ok((acc, j))
        } else {
            match p_obj(s, j) {
                Err(e) => Err(e),
                Ok((o, k)) => if k <= i || k > s.len() {
                    Err(syntax_err(j))
                } else {
                    p_call(s, k, acc.push(o))
                },
            }
        }
    }
}

/// The calls of a body from position `i`, with `acc` already read, and the
/// position where the body ends: the end of the text for a program (`top`),
/// the closing `}` for a closure.
pub open spec fn p_block(s: Seq<char>, i: int, top: bool, acc: Seq<Seq<SObjDef>>) -> Result<
    (Seq<Seq<SObjDef>>, int),
    SParseError,
>
    decreases s.len() - i, 3nat,
{
    if i < 0 || i > s.len() {
        Err(syntax_err(i))
    } else {
        let j = skip_space(s, i);
        proof {
            lemma_skip_space(s, i);
        }
        if j >= s.len() {
            if top {
                Ok((acc, j))
            } else {
                Err(syntax_err(j))
            }
        } else if s[j] == '}' {
            if top {
                Err(syntax_err(j))
            } else {
                Ok((acc, j))
            }
        } else {
            match p_call(s, j, Seq::empty()) {
                Err(e) => Err(e),
                Ok((objs, k)) => if k <= i || k > s.len() {
                    Err(syntax_err(k))
                } else {
                    p_block(s, k, top, acc.push(objs))
                },
            }
        }
    }
}

/// The names after the body of a moving closure from position `i`, with `acc`
/// already read, and the position after the closing `>`.
pub open spec fn p_names(s: Seq<char>, i: int, acc: Seq<Seq<char>>) -> Result<
    (Seq<Seq<char>>, int),
    SParseError,
>
    decreases s.len() - i,
{
    if i < 0 || i > s.len() {
        Err(syntax_err(i))
    } else {
        let j = skip_space(s, i);
        proof {
            lemma_skip_space(s, i);
        }
        if j >= s.len() {
            Err(syntax_err(j))
        } else if s[j] == '>' {
            Ok((acc, j + 1))
        } else if is_word_char(s[j]) {
            let k = word_end(s, j);
            proof {
                lemma_word_end(s, j);
            }
            p_names(s, k, acc.push(s.subrange(j, k)))
        } else {
            Err(syntax_err(j))
        }
    }
}

/// The syntax tree of a whole program text.
pub open spec fn p_program(s: Seq<char>) -> Result<SBlock, SParseError> {
    match p_block(s, 0, true, Seq::empty()) {
        Ok((calls, _)) => Ok(SBlock { calls }),
        Err(e) => Err(e),
    }
}

// ---------------------------------------------------------------------------
// Parser
// ---------------------------------------------------------------------------

pub open spec fn m_obj_res(r: Result<(ObjDef, usize), ParseError>) -> Result<
    (SObjDef, int),
    SParseError,
> {
    match r {
        Ok((o, k)) => Ok((o@, k as int)),
        Err(e) => Err(e@),
    }
}

pub open spec fn m_objs_res(r: Result<(Vec<ObjDef>, usize), ParseError>) -> Result<
    (Seq<SObjDef>, int),
    SParseError,
> {
    match r {
        Ok((o, k)) => Ok((m_objs(o@), k as int)),
        Err(e) => Err(e@),
    }
}

pub open spec fn m_calls_res(r: Result<(Vec<Vec<ObjDef>>, usize), ParseError>) -> Result<
    (Seq<Seq<SObjDef>>, int),
    SParseError,
> {
    match r {
        Ok((o, k)) => Ok((m_calls(o@), k as int)),
        Err(e) => Err(e@),
    }
}

fn is_word_char_exec(c: char) -> (r: bool)
    ensures
        r == is_word_char(c),
{
    ('a' <= c && c <= 'z') || ('A' <= c && c <= 'Z') || ('0' <= c && c <= '9')
}

fn skip_blank_exec(s: &Vec<char>, i: usize) -> (r: usize)
    requires
        i <= s@.len(),
    ensures
        r as int == skip_blank(s@, i as int),
        i <= r <= s@.len(),
        r < s@.len() ==> !is_blank(s@[r as int]),
{
    let mut k = i;
    while k < s.len() && (s[k] == ' ' || s[k] == '\t' || s[k] == '\r')
        invariant
            i <= k <= s@.len(),
            skip_blank(s@, i as int) == skip_blank(s@, k as int),
        decreases s@.len() - k,
    {
        k += 1;
    }
    k
}

fn skip_space_exec(s: &Vec<char>, i: usize) -> (r: usize)
    requires
        i <= s@.len(),
    ensures
        r as int == skip_space(s@, i as int),
        i <= r <= s@.len(),
        r < s@.len() ==> !is_space(s@[r as int]),
{
    let mut k = i;
    while k < s.len() && (s[k] == ' ' || s[k] == '\t' || s[k] == '\r' || s[k] == '\n')
        invariant
            i <= k <= s@.len(),
            skip_space(s@, i as int) == skip_space(s@, k as int),
        decreases s@.len() - k,
    {
        k += 1;
    }
    k
}

fn word_end_exec(s: &Vec<char>, i: usize) -> (r: usize)
    requires
        i <= s@.len(),
    ensures
        r as int == word_end(s@, i as int),
        i <= r <= s@.len(),
{
    let mut k = i;
    while k < s.len() && is_word_char_exec(s[k])
        invariant
            i <= k <= s@.len(),
            word_end(s@, i as int) == word_end(s@, k as int),
        decreases s@.len() - k,
    {
        k += 1;
    }
    k
}

fn parse_lit(s: &Vec<char>, i: usize) -> (r: Result<(Vec<char>, usize), usize>)
    requires
        i <= s@.len(),
    ensures
        match r {
            Ok((t, k)) => p_lit(s@, i as int, Seq::empty()) == Ok::<(Seq<char>, int), int>(
                (t@, k as int),
            ) && i < k <= s@.len(),
            Err(p) => p_lit(s@, i as int, Seq::empty()) == Err::<(Seq<char>, int), int>(p as int),
        },
{
    let mut acc: Vec<char> = Vec::new();
    let mut k = i;
    loop
        invariant
            i <= k <= s@.len(),
            p_lit(s@, k as int, acc@) == p_lit(s@, i as int, Seq::empty()),
        decreases s@.len() - k,
    {
        if k >= s.len() {
            return Err(k);
        }
        let c = s[k];
        if c == '"' {
            return Ok((acc, k + 1));
        } else if c == '\\' {
            if k + 1 < s.len() && s[k + 1] == 'n' {
                acc.push('\n');
                k = k + 2;
            } else if k + 1 < s.len() && s[k + 1] == '\\' {
                acc.push('\\');
                k = k + 2;
            } else {
                return Err(k);
            }
        } else {
            acc.push(c);
            k = k + 1;
        }
    }
}

fn mk_obj_exec(s: &Vec<char>, start: usize, end: usize, def: Def) -> (o: ObjDef)
    requires
        start <= end <= s@.len(),
    ensures
        o.start == start,
        o.end == end,
        o.text@ == s@.subrange(start as int, end as int),
        o.def == def,
{
    ObjDef { start, end, text: slice_chars(s, start, end), def }
}

/// Parses the object starting at position `i`.
pub(crate) fn parse_obj(s: &Vec<char>, i: usize) -> (r: Result<(ObjDef, usize), ParseError>)
    requires
        i <= s@.len(),
    ensures
        m_obj_res(r) == p_obj(s@, i as int),
        r matches Ok((_, k)) ==> i < k <= s@.len(),
    decreases s@.len() - i, 0nat,
{
    if i >= s.len() {
        return Err(syntax_error(i));
    }
    let c = s[i];
    if is_word_char_exec(c) {
        let j = word_end_exec(s, i);
        proof {
            lemma_word_end(s@, i as int);
        }
        let t = slice_chars(s, i, j);
        Ok((mk_obj_exec(s, i, j, Def::Str(t)), j))
    } else if c == '"' {
        match parse_lit(s, i + 1) {
            Err(p) => Err(syntax_error(p)),
            Ok((t, j)) => Ok((mk_obj_exec(s, i, j, Def::Quoted(t)), j)),
        }
    } else if c == '$' || c == '@' {
        let j = word_end_exec(s, i + 1);
        if j <= i + 1 {
            Err(syntax_error(i + 1))
        } else {
            let name = slice_chars(s, i + 1, j);
            let d = if c == '$' {
                Def::Move(name)
            } else {
                Def::Copy(name)
            };
            Ok((mk_obj_exec(s, i, j, d), j))
        }
    } else if c == '[' {
        match parse_items(s, i + 1, ']') {
            Err(e) => Err(e),
            Ok((items, j)) => {
                proof {
                    lemma_m_objs(items@);
                }
                if items.len() == 0 {
                    Err(syntax_error(j - 1))
                } else {
                    Ok((mk_obj_exec(s, i, j, Def::Call(items)), j))
                }
            },
        }
    } else if c == '(' {
        match parse_items(s, i + 1, ')') {
            Err(e) => Err(e),
            Ok((items, j)) => Ok((mk_obj_exec(s, i, j, Def::Tuple(items)), j)),
        }
    } else if c == '{' {
        match parse_block(s, i + 1, false) {
            Err(e) => Err(e),
            Ok((calls, j)) => {
                let text = slice_chars(s, i + 1, j);
                let body = Arc::new(Block { calls });
                Ok((mk_obj_exec(s, i, j + 1, Def::Closure(text, body)), j + 1))
            },
        }
    } else if c == '<' {
        if i + 1 < s.len() && s[i + 1] == '{' {
            match parse_block(s, i + 2, false) {
                Err(e) => Err(e),
                Ok((calls, j)) => match parse_names(s, j + 1) {
                    Err(e) => Err(e),
                    Ok((names, k)) => {
                        let text = slice_chars(s, i + 2, j);
                        let body = Arc::new(Block { calls });
                        Ok((mk_obj_exec(s, i, k, Def::MoveClosure(text, body, names)), k))
                    },
                },
            }
        } else {
            Err(syntax_error(i + 1))
        }
    } else {
        Err(syntax_error(i))
    }
}

/// Parses the objects of a bracketed call or tuple from `i` up to `close`.
pub(crate) fn parse_items(s: &Vec<char>, i: usize, close: char) -> (r: Result<
    (Vec<ObjDef>, usize),
    ParseError,
>)
    requires
        i <= s@.len(),
    ensures
        m_objs_res(r) == p_items(s@, i as int, close, Seq::empty()),
        r matches Ok((_, k)) ==> i < k <= s@.len(),
    decreases s@.len() - i, 1nat,
{
    let mut acc: Vec<ObjDef> = Vec::new();
    let mut p = i;
    loop
        invariant
            i <= p <= s@.len(),
            p_items(s@, p as int, close, m_objs(acc@)) == p_items(
                s@,
                i as int,
                close,
                Seq::empty(),
            ),
        decreases s@.len() - p,
    {
        let j = skip_space_exec(s, p);
        if j >= s.len() {
            return Err(syntax_error(j));
        } else if s[j] == close {
            return Ok((acc, j + 1));
        } else {
            match parse_obj(s, j) {
                Err(e) => {
                    return Err(e);
                },
                Ok((o, k)) => {
                    proof {
                        lemma_m_objs_push(acc@, o);
                    }
                    acc.push(o);
                    p = k;
                },
            }
        }
    }
}

/// Parses the objects of one call from `i` up to the end of its line.
pub(crate) fn parse_call(s: &Vec<char>, i: usize) -> (r: Result<(Vec<ObjDef>, usize), ParseError>)
    requires
        i <= s@.len(),
    ensures
        m_objs_res(r) == p_call(s@, i as int, Seq::empty()),
        r matches Ok((_, k)) ==> i <= k <= s@.len(),
        r matches Ok((v, k)) ==> k > i || (v@.len() == 0 && k as int == skip_blank(s@, i as int)),
        r matches Ok((v, k)) ==> v@.len() == 0 ==> (k >= s@.len() || s@[k as int] == '\n' || s@[k as int] == '}'),
    decreases s@.len() - i, 2nat,
{
    let mut acc: Vec<ObjDef> = Vec::new();
    let mut p = i;
    loop
        invariant
            i <= p <= s@.len(),
            p_call(s@, p as int, m_objs(acc@)) == p_call(s@, i as int, Seq::empty()),
            acc@.len() == 0 ==> p == i,
            acc@.len() > 0 ==> p > i,
        decreases s@.len() - p,
    {
        let j = skip_blank_exec(s, p);
        if j >= s.len() || s[j] == '\n' || s[j] == '}' {
            return Ok((acc, j));
        }
        match parse_obj(s, j) {
            Err(e) => {
                return Err(e);
            },
            Ok((o, k)) => {
                proof {
                    lemma_m_objs_push(acc@, o);
                }
                acc.push(o);
                p = k;
            },
        }
    }
}

/// Parses the calls of a body from `i`: up to the end of the text when
/// `top`, else up to the closing `}`.
pub(crate) fn parse_block(s: &Vec<char>, i: usize, top: bool) -> (r: Result<
    (Vec<Vec<ObjDef>>, usize),
    ParseError,
>)
    requires
        i <= s@.len(),
    ensures
        m_calls_res(r) == p_block(s@, i as int, top, Seq::empty()),
        r matches Ok((_, k)) ==> i <= k && (if top {
            k <= s@.len()
        } else {
            k < s@.len()
        }),
    decreases s@.len() - i, 3nat,
{
    let mut acc: Vec<Vec<ObjDef>> = Vec::new();
    let mut p = i;
    loop
        invariant
            i <= p <= s@.len(),
            p_block(s@, p as int, top, m_calls(acc@)) == p_block(
                s@,
                i as int,
                top,
                Seq::empty(),
            ),
        decreases s@.len() - p,
    {
        let j = skip_space_exec(s, p);
        if j >= s.len() {
            if top {
                return Ok((acc, j));
            } else {
                return Err(syntax_error(j));
            }
        } else if s[j] == '}' {
            if top {
                return Err(syntax_error(j));
            } else {
                return Ok((acc, j));
            }
        }
        match parse_call(s, j) {
            Err(e) => {
                return Err(e);
            },
            Ok((objs, k)) => {
                assert(skip_blank(s@, j as int) == j);
                proof {
                    lemma_m_calls_push(acc@, objs);
                }
                acc.push(objs);
                p = k;
            },
        }
    }
}

/// Parses the names after the body of a moving closure.
fn parse_names(s: &Vec<char>, i: usize) -> (r: Result<(Vec<Vec<char>>, usize), ParseError>)
    requires
        i <= s@.len(),
    ensures
        match r {
            Ok((n, k)) => p_names(s@, i as int, Seq::empty()) == Ok::<
                (Seq<Seq<char>>, int),
                SParseError,
            >((texts(n@), k as int)) && i < k <= s@.len(),
            Err(e) => p_names(s@, i as int, Seq::empty()) == Err::<
                (Seq<Seq<char>>, int),
                SParseError,
            >(e@),
        },
{
    let mut acc: Vec<Vec<char>> = Vec::new();
    let mut p = i;
    assert(texts(acc@) =~= Seq::<Seq<char>>::empty());
    loop
        invariant
            i <= p <= s@.len(),
            p_names(s@, p as int, texts(acc@)) == p_names(s@, i as int, Seq::empty()),
        decreases s@.len() - p,
    {
        let j = skip_space_exec(s, p);
        if j >= s.len() {
            return Err(syntax_error(j));
        } else if s[j] == '>' {
            return Ok((acc, j + 1));
        } else if is_word_char_exec(s[j]) {
            let k = word_end_exec(s, j);
            proof {
                lemma_word_end(s@, j as int);
            }
            let name = slice_chars(s, j, k);
            let ghost before = texts(acc@);
            acc.push(name);
            assert(texts(acc@) =~= before.push(s@.subrange(j as int, k as int)));
            p = k;
        } else {
            return Err(syntax_error(j));
        }
    }
}

/// Parses a whole program text against the grammar.
pub(crate) fn parse_text(s: &Vec<char>) -> (r: Result<Block, ParseError>)
    ensures
        match r {
            Ok(b) => p_program(s@) == Ok::<SBlock, SParseError>(b@),
            Err(e) => p_program(s@) == Err::<SBlock, SParseError>(e@),
        },
{
    match parse_block(s, 0, true) {
        Ok((calls, _)) => Ok(Block { calls }),
        Err(e) => Err(e),
    }
}

} // verus!
