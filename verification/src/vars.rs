//! Frames of variables: tables from names to objects.
use vstd::prelude::*;
use fnv::FnvHashMap;
use crate::value::{Value, Obj, m_vals, lemma_m_vals, copy_of};
use crate::error::{TrashError, SError};
use crate::text::{int_text, usize_text};

verus! {

/// The entries of a table of variables, each name taken by its characters.
pub uninterp spec fn var_table(m: FnvHashMap<Vec<char>, Value>) -> Map<Seq<char>, Value>;

/// `FnvHashMap::default` (that is `HashMap::default`): an empty table.
#[verifier::external_body]
fn table_new() -> (r: FnvHashMap<Vec<char>, Value>)
    ensures
        var_table(r) =~= Map::empty(),
{
    FnvHashMap::default()
}

/// `HashMap::insert`: afterwards `k` maps to `v`; the other entries stay.
#[verifier::external_body]
fn table_insert(m: &mut FnvHashMap<Vec<char>, Value>, k: Vec<char>, v: Value)
    ensures
        var_table(*final(m)) == var_table(*old(m)).insert(k@, v),
{
    m.insert(k, v);
}

/// `HashMap::remove`: takes the entry of `k` out, if there is one.
#[verifier::external_body]
fn table_remove(m: &mut FnvHashMap<Vec<char>, Value>, k: &Vec<char>) -> (r: Option<Value>)
    ensures
        var_table(*final(m)) == var_table(*old(m)).remove(k@),
        match r {
            Some(v) => var_table(*old(m)).contains_key(k@) && v == var_table(*old(m))[k@],
            None => !var_table(*old(m)).contains_key(k@),
        },
{
    m.remove(k)
}

/// `HashMap::get`: the object `k` maps to, if any.
#[verifier::external_body]
fn table_get<'a>(m: &'a FnvHashMap<Vec<char>, Value>, k: &Vec<char>) -> (r: Option<&'a Value>)
    ensures
        match r {
            Some(v) => var_table(*m).contains_key(k@) && *v == var_table(*m)[k@],
            None => !var_table(*m).contains_key(k@),
        },
{
    m.get(k)
}

/// The model of a frame.
pub open spec fn m_table(m: Map<Seq<char>, Value>) -> Map<Seq<char>, Obj> {
    m.map_values(|v: Value| v@)
}

/// The frame that holds the arguments of a call: `"1"` is the first, and so on.
pub open spec fn frame_of(args: Seq<Obj>) -> Map<Seq<char>, Obj>
    decreases args.len(),
{
    if args.len() == 0 {
        Map::empty()
    } else {
        frame_of(args.drop_last()).insert(int_text(args.len() as int), args.last())
    }
}

/// The object `n` names in the innermost frame that has it; the last frame is
/// the innermost.
pub open spec fn lookup(frames: Seq<Map<Seq<char>, Obj>>, n: Seq<char>) -> Option<Obj>
    decreases frames.len(),
{
    if frames.len() == 0 {
        None
    } else if frames.last().contains_key(n) {
        Some(frames.last()[n])
    } else {
        lookup(frames.drop_last(), n)
    }
}

/// A frame of variables.
pub struct Vars {
    pub table: FnvHashMap<Vec<char>, Value>,
}

pub open spec fn m_frames(s: Seq<Vars>) -> Seq<Map<Seq<char>, Obj>> {
    Seq::new(s.len(), |i: int| s[i]@)
}

impl View for Vars {
    type V = Map<Seq<char>, Obj>;

    open spec fn view(&self) -> Map<Seq<char>, Obj> {
        m_table(var_table(self.table))
    }
}

pub proof fn lemma_m_table_insert(m: Map<Seq<char>, Value>, k: Seq<char>, v: Value)
    ensures
        m_table(m.insert(k, v)) == m_table(m).insert(k, v@),
{
    assert(m_table(m.insert(k, v)) =~= m_table(m).insert(k, v@));
}

pub proof fn lemma_m_table_remove(m: Map<Seq<char>, Value>, k: Seq<char>)
    ensures
        m_table(m.remove(k)) == m_table(m).remove(k),
{
    assert(m_table(m.remove(k)) =~= m_table(m).remove(k));
}

impl Default for Vars {
    /// An empty frame.
    fn default() -> (r: Vars)
        ensures
            r@ == Map::<Seq<char>, Obj>::empty(),
    {
        Vars::new()
    }
}

impl Vars {
    /// An empty frame.
    pub fn new() -> (r: Vars)
        ensures
            r@ == Map::<Seq<char>, Obj>::empty(),
    {
        let r = Vars { table: table_new() };
        assert(r@ =~= Map::<Seq<char>, Obj>::empty());
        r
    }

    /// The frame of a call with these arguments.
    pub fn from_vec(v: Vec<Value>) -> (r: Vars)
        ensures
            r@ == frame_of(m_vals(v@)),
    {
        let ghost orig = v@;
        let ghost ms = m_vals(v@);
        proof {
            lemma_m_vals(v@);
        }
        let mut v = v;
        let mut r = Vars::new();
        let n = v.len();
        let mut k: usize = 0;
        assert(orig.subrange(0, 0) =~= Seq::<Value>::empty());
        assert(ms.subrange(0, 0) =~= Seq::<Obj>::empty());
        assert(v@ =~= orig.subrange(0, n as int));
        while k < n
            invariant
                n == orig.len(),
                ms == m_vals(orig),
                ms.len() == orig.len(),
                forall|i: int| 0 <= i < orig.len() ==> #[trigger] ms[i] == orig[i]@,
                k <= n,
                v@ == orig.subrange(k as int, n as int),
                r@ == frame_of(ms.subrange(0, k as int)),
            decreases n - k,
        {
            let x = v.remove(0);
            let name = usize_text(k + 1);
            r.add(name, x);
            k += 1;
            assert(v@ =~= orig.subrange(k as int, n as int));
            assert(ms.subrange(0, k as int).drop_last() =~= ms.subrange(0, k - 1));
        }
        assert(ms.subrange(0, n as int) =~= ms);
        r
    }

    /// Sets `name` to `value`.
    pub fn add(&mut self, name: Vec<char>, value: Value)
        ensures
            final(self)@ == old(self)@.insert(name@, value@),
    {
        proof {
            lemma_m_table_insert(var_table(self.table), name@, value);
        }
        table_insert(&mut self.table, name, value);
    }

    /// Takes the variable `name` out of this frame.
    pub fn get(&mut self, name: &Vec<char>) -> (r: Option<Value>)
        ensures
            final(self)@ == old(self)@.remove(name@),
            match r {
                Some(v) => old(self)@.contains_key(name@) && v@ == old(self)@[name@],
                None => !old(self)@.contains_key(name@),
            },
    {
        proof {
            lemma_m_table_remove(var_table(self.table), name@);
        }
        table_remove(&mut self.table, name)
    }

    /// Whether this frame has the variable `name`.
    pub fn contains(&self, name: &Vec<char>) -> (r: bool)
        ensures
            r == self@.contains_key(name@),
    {
        match table_get(&self.table, name) {
            Some(_) => true,
            None => false,
        }
    }

    /// A copy of the variable `name` of this frame, else of the innermost
    /// frame of `scope` that has it: `None` when none has it.
    pub fn get_cloned(&self, scope: &Vec<Vars>, name: &Vec<char>) -> (r: Option<
        Result<Value, TrashError>,
    >)
        ensures
            match lookup(m_frames(scope@).push(self@), name@) {
                None => r is None,
                Some(o) => match r {
                    Some(Ok(v)) => copy_of(o) == Ok::<Obj, SError>(v@),
                    Some(Err(e)) => copy_of(o) == Err::<Obj, SError>(e@),
                    None => false,
                },
            },
    {
        let ghost fs = m_frames(scope@).push(self@);
        assert(fs.drop_last() =~= m_frames(scope@));
        match table_get(&self.table, name) {
            Some(v) => {
                assert(self@.contains_key(name@));
                assert(self@[name@] == v@);
                assert(fs.last() == self@);
                assert(lookup(fs, name@) == Some(v@));
                return Some(v.clone());
            },
            None => {
                assert(!self@.contains_key(name@));
            },
        }
        assert(m_frames(scope@).subrange(0, scope@.len() as int) =~= m_frames(scope@));
        let mut k = scope.len();
        while k > 0
            invariant
                fs == m_frames(scope@).push(self@),
                k <= scope@.len(),
                lookup(fs, name@) == lookup(m_frames(scope@).subrange(0, k as int), name@),
            decreases k,
        {
            let ghost pre = m_frames(scope@).subrange(0, k as int);
            assert(pre.last() == scope@[k - 1]@);
            assert(pre.drop_last() =~= m_frames(scope@).subrange(0, k - 1));
            match table_get(&scope[k - 1].table, name) {
                Some(v) => {
                    assert(scope@[k - 1]@.contains_key(name@));
                    assert(scope@[k - 1]@[name@] == v@);
                    assert(lookup(pre, name@) == Some(v@));
                    return Some(v.clone());
                },
                None => {
                    assert(!scope@[k - 1]@.contains_key(name@));
                },
            }
            k -= 1;
        }
        assert(m_frames(scope@).subrange(0, 0).len() == 0);
        assert(lookup(m_frames(scope@).subrange(0, 0), name@) is None);
        assert(lookup(fs, name@) is None);
        None
    }
}

} // verus!
