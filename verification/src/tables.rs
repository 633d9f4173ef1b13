//! The FNV-hashed standard collections that hold names, and the trusted
//! statements of what their operations do.
use vstd::prelude::*;
use fnv::FnvHashSet;

verus! {

#[verifier::external_type_specification]
#[verifier::external_body]
pub struct ExFnvHasher(fnv::FnvHasher);

#[verifier::external_type_specification]
#[verifier::external_body]
#[verifier::reject_recursive_types(H)]
pub struct ExBuildHasherDefault<H>(std::hash::BuildHasherDefault<H>);

/// The names that a set of names holds, each taken by its characters.
pub uninterp spec fn name_set(s: FnvHashSet<Vec<char>>) -> Set<Seq<char>>;

/// `FnvHashSet::default` (that is `HashSet::default`): an empty set.
#[verifier::external_body]
pub(crate) fn name_set_new() -> (r: FnvHashSet<Vec<char>>)
    ensures
        name_set(r) =~= Set::empty(),
{
    FnvHashSet::default()
}

/// `HashSet::insert`: afterwards the set also holds `n`.
#[verifier::external_body]
pub(crate) fn name_set_insert(s: &mut FnvHashSet<Vec<char>>, n: Vec<char>)
    ensures
        name_set(*final(s)) == name_set(*old(s)).insert(n@),
{
    s.insert(n);
}

/// `HashSet::remove`: afterwards the set no longer holds `n`.
#[verifier::external_body]
pub(crate) fn name_set_remove(s: &mut FnvHashSet<Vec<char>>, n: &Vec<char>)
    ensures
        name_set(*final(s)) == name_set(*old(s)).remove(n@),
{
    s.remove(n);
}

/// `HashSet::contains`: whether the set holds `n`.
#[verifier::external_body]
pub(crate) fn name_set_contains(s: &FnvHashSet<Vec<char>>, n: &Vec<char>) -> (r: bool)
    ensures
        r == name_set(*s).contains(n@),
{
    s.contains(n)
}

} // verus!
