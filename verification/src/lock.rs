//! The reentrancy guard of a pool.

use vstd::prelude::*;
use crate::error::AmmError;

verus! {

/// The reentrancy flag of one contract instance. The guard is held while the
/// stored number is 1.
#[derive(Clone, Copy, Debug, PartialEq, Eq, Structural)]
pub struct Lock {
    pub state: u128,
}

impl Lock {
    /// Whether the guard is held.
    pub open spec fn held(&self) -> bool {
        self.state == 1
    }

    /// A guard that is not held.
    pub fn new() -> (r: Self)
        ensures
            r.state == 0,
            !r.held(),
    {
        Lock { state: 0 }
    }

    /// The stored number.
    pub fn get_lock(&self) -> (r: u128)
        ensures
            r == self.state,
    {
        self.state
    }

    /// Stores a number: 1 to hold the guard, anything else to release it.
    pub fn set_lock(&mut self, v: u128)
        ensures
            final(self).state == v,
    {
        self.state = v;
    }

    /// Whether the guard is held.
    pub fn is_held(&self) -> (r: bool)
        ensures
            r == self.held(),
    {
        self.state == 1
    }

    /// Takes the guard, or fails with `Locked` where it is already held. A
    /// failed attempt changes nothing.
    pub fn acquire(&mut self) -> (r: Result<(), AmmError>)
        ensures
            old(self).held() ==> r == Err::<(), AmmError>(AmmError::Locked) && *final(self) == *old(
                self,
            ),
            !old(self).held() ==> r is Ok && final(self).state == 1,
    {
        if self.state == 1 {
            return Err(AmmError::Locked);
        }
        self.state = 1;
        Ok(())
    }

    /// Releases the guard.
    pub fn release(&mut self)
        ensures
            final(self).state == 0,
            !final(self).held(),
    {
        self.state = 0;
    }

    /// Runs `func` under the guard. Where the guard is already held, `func`
    /// is not run, the result is `Locked` and nothing changes. Otherwise the
    /// guard is held while `func` runs and released when it returns, whether
    /// it succeeds or fails, and the result is that of `func`.
    pub fn lock<T, F: FnOnce() -> Result<T, AmmError>>(&mut self, func: F) -> (r: Result<
        T,
        AmmError,
    >)
        requires
            !old(self).held() ==> func.requires(()),
        ensures
            old(self).held() ==> r == Err::<T, AmmError>(AmmError::Locked) && *final(self) == *old(
                self,
            ),
            !old(self).held() ==> func.ensures((), r) && final(self).state == 0,
    {
        if self.state == 1 {
            return Err(AmmError::Locked);
        }
        self.set_lock(1);
        let ret = func();
        self.set_lock(0);
        ret
    }
}

impl Default for Lock {
    /// The same as [`Lock::new`].
    fn default() -> (r: Self)
        ensures
            r.state == 0,
    {
        Lock::new()
    }
}

} // verus!
