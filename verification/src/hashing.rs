//! A convenience hash of any hashable value.
use vstd::prelude::*;
use std::hash::Hash;

verus! {

/// Relies on `std::hash::Hash` together with `DefaultHasher`: feeds the value
/// to a freshly created default hasher and returns what it settles on. The
/// algorithm is unspecified by std, so nothing further is promised.
#[verifier::external_body]
fn hash_with_default_hasher<T: Hash + ?Sized>(value: &T) -> u64 {
    let mut hasher = std::hash::DefaultHasher::new();
    value.hash(&mut hasher);
    std::hash::Hasher::finish(&hasher)
}

/// The default hash of a value.
pub fn hash<T: Hash + ?Sized>(value: &T) -> u64 {
    hash_with_default_hasher(value)
}

} // verus!
