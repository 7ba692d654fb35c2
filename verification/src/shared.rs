//! Shared numeric state: tempo and resolution live behind a reader/writer
//! lock that several threads read between their sleeps.

use vstd::prelude::*;

verus! {

#[verifier::external_type_specification]
#[verifier::external_body]
#[verifier::reject_recursive_types(T)]
pub struct ExRwLock<T: ?Sized>(std::sync::RwLock<T>);

/// Relies on `std::sync::RwLock::read`: it hands back the stored value, or
/// nothing when the lock is poisoned. What is stored is shared with other
/// threads, so nothing more can be said of the value.
#[verifier::external_body]
fn read_locked<T: Copy>(lock: &std::sync::Arc<std::sync::RwLock<T>>) -> (r: Option<T>) {
    lock.read().ok().map(|guard| *guard)
}

/// The value behind a shared reader/writer lock, or the given default when
/// the lock is poisoned.
pub fn unwrap_rw_lock<T: Copy>(thing: &std::sync::Arc<std::sync::RwLock<T>>, default: T) -> T {
    match read_locked(thing) {
        Some(v) => v,
        None => default,
    }
}

} // verus!
