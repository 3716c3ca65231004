//! A pool of reusable values guarded by a mutex and a condition variable.
//!
//! `lock` waits until a value is available and hands it out in a guard;
//! dropping the guard gives the value back and wakes one waiter.

use std::sync::{Condvar, Mutex, MutexGuard, PoisonError};
use vstd::prelude::*;

verus! {

#[verifier::external_type_specification]
#[verifier::external_body]
#[verifier::reject_recursive_types(T)]
pub struct ExMutex<T: ?Sized>(Mutex<T>);

#[verifier::external_type_specification]
#[verifier::external_body]
pub struct ExCondvar(Condvar);

#[verifier::external_type_specification]
#[verifier::external_body]
#[verifier::reject_recursive_types(T)]
pub struct ExMutexGuard<'a, T: ?Sized + 'a>(MutexGuard<'a, T>);

#[verifier::external_type_specification]
#[verifier::external_body]
#[verifier::reject_recursive_types(G)]
pub struct ExPoisonError<G>(PoisonError<G>);

pub assume_specification<T>[ Mutex::<T>::new ](t: T) -> Mutex<T>;

pub assume_specification[ Condvar::new ]() -> Condvar;

/// Relies on `Mutex::lock`: blocks until the lock is held, and fails once a
/// holder panicked (the mutex is poisoned). No caller holds the lock already,
/// so it does not panic.
#[verifier::external_body]
fn lock_vals<V>(m: &Mutex<Vec<V>>) -> (r: Result<MutexGuard<'_, Vec<V>>, PoisonError<MutexGuard<'_, Vec<V>>>>)
    opens_invariants none
    no_unwind
{
    m.lock()
}

/// Relies on `Condvar::wait_while`: sleeps, releasing the lock, until the
/// guarded vector is non-empty; fails once the mutex is poisoned.
#[verifier::external_body]
fn wait_nonempty<'a, V>(c: &Condvar, g: MutexGuard<'a, Vec<V>>) -> (r: Result<MutexGuard<'a, Vec<V>>, PoisonError<MutexGuard<'a, Vec<V>>>>) {
    c.wait_while(g, |vs: &mut Vec<V>| no_value_left(vs))
}

/// Whether a pool's vector holds no value.
pub fn no_value_left<V>(vs: &Vec<V>) -> (r: bool)
    ensures
        r == (vs@.len() == 0),
{
    vs.len() == 0
}

/// Relies on `Vec::pop` through the guard: takes the last value, if any.
#[verifier::external_body]
fn pop_val<V>(g: &mut MutexGuard<'_, Vec<V>>) -> (r: Option<V>) {
    g.pop()
}

/// Relies on `Vec::push` through the guard: stores the value. The pool never
/// holds more values than it was built with, so the capacity cannot overflow.
#[verifier::external_body]
fn push_val<V>(g: &mut MutexGuard<'_, Vec<V>>, v: V)
    opens_invariants none
    no_unwind
{
    g.push(v)
}

/// Relies on `Condvar::notify_one`: wakes one waiting thread, if any.
#[verifier::external_body]
fn notify(c: &Condvar)
    opens_invariants none
    no_unwind
{
    c.notify_one()
}

/// Why `lock` gave no value.
#[derive(Debug, PartialEq, Eq, Structural)]
pub enum PoolError {
    /// A holder of the lock panicked.
    Poisoned,
    /// The wait ended with no value left to take. The wait ends only once a
    /// value is there, so this is not expected.
    Exhausted,
}

#[verifier::reject_recursive_types(V)]
pub struct SyncPool<V> {
    vals: Mutex<Vec<V>>,
    cond: Condvar,
    built_with: Ghost<Seq<V>>,
}

/// A value taken from a pool; it goes back to the pool when the guard drops.
#[verifier::reject_recursive_types(V)]
pub struct SyncPoolGuard<'mutex, V: 'mutex> {
    m: &'mutex SyncPool<V>,
    v: Option<V>,
}

impl<'mutex, V> SyncPoolGuard<'mutex, V> {
    /// The guard holds its value; true of every guard that `lock` hands out.
    pub closed spec fn holds_value(&self) -> bool {
        self.v is Some
    }

    /// The pool the value came from.
    pub closed spec fn pool(&self) -> &'mutex SyncPool<V> {
        self.m
    }

    /// The value held.
    pub closed spec fn value(&self) -> V {
        self.v->Some_0
    }

    /// Borrows the value held.
    pub fn get(&self) -> (r: &V)
        requires
            self.holds_value(),
        ensures
            *r == self.value(),
    {
        self.v.as_ref().unwrap()
    }

    /// Borrows the value held, to change it.
    pub fn get_mut(&mut self) -> (r: &mut V)
        requires
            old(self).holds_value(),
        ensures
            *r == old(self).value(),
            final(self).holds_value(),
            final(self).pool() == old(self).pool(),
            final(self).value() == *final(r),
    {
        self.v.as_mut().unwrap()
    }
}

impl<'mutex, V> Drop for SyncPoolGuard<'mutex, V> {
    /// Gives the value back to the pool and wakes one waiter. Where the pool
    /// is poisoned the value is dropped instead.
    fn drop(&mut self)
        opens_invariants none
        no_unwind
    {
        let m = self.m;
        if let Ok(mut vals) = lock_vals(&m.vals) {
            let mut v: Option<V> = None;
            std::mem::swap(&mut v, &mut self.v);
            if let Some(v) = v {
                push_val(&mut vals, v);
            }
            notify(&m.cond);
        }
    }
}

impl<V> SyncPool<V> {
    /// The values the pool was built with. It records the construction only:
    /// what the mutex holds later is not modelled.
    pub closed spec fn initial(&self) -> Seq<V> {
        self.built_with@
    }

    /// How many values the pool was built with.
    pub open spec fn size(&self) -> nat {
        self.initial().len()
    }

    /// A pool holding the given values.
    pub fn new(vals: Vec<V>) -> (r: SyncPool<V>)
        ensures
            r.initial() == vals@,
            r.size() == vals@.len(),
    {
        let ghost built_with = vals@;
        SyncPool { vals: Mutex::new(vals), cond: Condvar::new(), built_with: Ghost(built_with) }
    }

    /// Waits until a value is free and takes it. Fails with `Poisoned` when a
    /// holder of the lock panicked.
    pub fn lock(&self) -> (r: Result<SyncPoolGuard<'_, V>, PoolError>)
        ensures
            r matches Ok(g) ==> g.pool() == self && g.holds_value(),
    {
        let vs = match lock_vals(&self.vals) {
            Ok(g) => g,
            Err(_) => return Err(PoolError::Poisoned),
        };
        let mut vs = match wait_nonempty(&self.cond, vs) {
            Ok(g) => g,
            Err(_) => return Err(PoolError::Poisoned),
        };
        self.take(pop_val(&mut vs))
    }

    /// Wraps the value taken from the pool in a guard; with no value, the
    /// pool was exhausted.
    pub fn take(&self, popped: Option<V>) -> (r: Result<SyncPoolGuard<'_, V>, PoolError>)
        ensures
            popped matches Some(v) ==> (r matches Ok(g) && g.pool() == self && g.holds_value()
                && g.value() == v),
            popped is None ==> r == Err::<SyncPoolGuard<'_, V>, PoolError>(PoolError::Exhausted),
    {
        match popped {
            Some(v) => Ok(SyncPoolGuard { m: self, v: Some(v) }),
            None => Err(PoolError::Exhausted),
        }
    }
}

} // verus!
