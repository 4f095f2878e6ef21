//! Interning of path components through `lasso`.

use vstd::prelude::*;
use lasso::Key;

verus! {

#[verifier::external_type_specification]
#[verifier::external_body]
#[verifier::reject_recursive_types(K)]
#[verifier::reject_recursive_types(S)]
pub struct ExRodeo<K, S>(lasso::Rodeo<K, S>);

#[verifier::external_type_specification]
#[verifier::external_body]
pub struct ExSpur(lasso::Spur);

/// The strings an interner holds, each at the index that is its key.
pub uninterp spec fn interned_strings(r: lasso::Rodeo) -> Seq<Seq<char>>;

/// Relies on lasso::Rodeo::new: a new interner holds no strings.
#[verifier::external_body]
pub fn new_interner() -> (r: lasso::Rodeo)
    ensures
        interned_strings(r) == Seq::<Seq<char>>::empty(),
{
    lasso::Rodeo::new()
}

/// Relies on lasso::Rodeo::get_or_intern: a string already held keeps its
/// key; a new one is pushed and gets the next index as its key. It panics
/// once `u32::MAX - 1` strings are held, which `requires` rules out.
#[verifier::external_body]
pub fn intern(r: &mut lasso::Rodeo, s: &str) -> (k: usize)
    requires
        interned_strings(*old(r)).len() < u32::MAX - 1,
    ensures
        (exists|i: int| 0 <= i < interned_strings(*old(r)).len() && interned_strings(*old(r))[i] == s@)
            ==> k < interned_strings(*old(r)).len() && interned_strings(*old(r))[k as int] == s@
            && interned_strings(*final(r)) == interned_strings(*old(r)),
        !(exists|i: int| 0 <= i < interned_strings(*old(r)).len() && interned_strings(*old(r))[i] == s@)
            ==> k == interned_strings(*old(r)).len() && interned_strings(*final(r))
            == interned_strings(*old(r)).push(s@),
{
    r.get_or_intern(s).into_usize()
}

/// Relies on lasso::Rodeo::resolve: the string held under key `k`.
#[verifier::external_body]
pub fn resolve(r: &lasso::Rodeo, k: usize) -> (s: String)
    requires
        k < interned_strings(*r).len(),
        k < u32::MAX,
    ensures
        s@ == interned_strings(*r)[k as int],
{
    r.resolve(&lasso::Spur::try_from_usize(k).unwrap()).to_string()
}

/// Relies on lasso::Rodeo::len: the number of strings held. A string is
/// pushed only after `Spur::try_from_usize` made a key of its index, which
/// takes indexes below `u32::MAX`, so at most `u32::MAX` are held.
#[verifier::external_body]
pub fn interned_count(r: &lasso::Rodeo) -> (n: usize)
    ensures
        n == interned_strings(*r).len(),
        n <= u32::MAX,
{
    r.len()
}

/// Relies on lasso::Rodeo::get: the key of a string already held, or none.
#[verifier::external_body]
pub fn lookup_key(r: &lasso::Rodeo, s: &str) -> (k: Option<usize>)
    ensures
        k matches Some(i) ==> i < interned_strings(*r).len() && interned_strings(*r)[i as int] == s@,
        k is None ==> forall|i: int| 0 <= i < interned_strings(*r).len() ==> interned_strings(*r)[i] != s@,
{
    r.get(s).map(|key| key.into_usize())
}

} // verus!
