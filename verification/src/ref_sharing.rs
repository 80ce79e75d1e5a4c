//! The shared/exclusive borrow discipline that protects a dirstate while
//! foreign references to its guts are alive.
//!
//! A value may be leaked to any number of immutable holders, counted in
//! `leak_count`; a mutable borrow is exclusive: it is refused while any leak
//! is outstanding, and leaking is refused while a mutable borrow exists.

use vstd::prelude::*;

verus! {

/// A request that the discipline refuses: the value is already borrowed in
/// a way that excludes the requested access.
#[derive(Debug, Clone, Copy, PartialEq, Eq, Structural)]
pub struct AlreadyBorrowed;

/// Manages the state shared between the owner of a value and the holders of
/// leaked references to it.
#[derive(Debug, Clone, Copy, PartialEq, Eq, Structural)]
pub struct PySharedState {
    pub leak_count: usize,
    pub mutably_borrowed: bool,
}

impl Default for PySharedState {
    fn default() -> (r: Self)
        ensures
            r.leak_count == 0,
            !r.mutably_borrowed,
    {
        PySharedState { leak_count: 0, mutably_borrowed: false }
    }
}

impl PySharedState {
    /// Requests the exclusive (mutable) borrow: granted exactly when no
    /// mutable borrow and no leaked immutable reference is outstanding.
    pub fn borrow_mut(&mut self) -> (r: Result<(), AlreadyBorrowed>)
        ensures
            r is Ok <==> !old(self).mutably_borrowed && old(self).leak_count == 0,
            r is Ok ==> *final(self) == (PySharedState { mutably_borrowed: true, ..*old(self) }),
            r is Err ==> *final(self) == *old(self),
    {
        if self.mutably_borrowed {
            return Err(AlreadyBorrowed);
        }
        if self.leak_count == 0 {
            self.mutably_borrowed = true;
            Ok(())
        } else {
            Err(AlreadyBorrowed)
        }
    }

    /// Requests leaking an immutable reference: granted whenever no mutable
    /// borrow is outstanding, and counted so that the mutable borrow stays
    /// refused until every leak is returned.
    pub fn leak_immutable(&mut self) -> (r: Result<(), AlreadyBorrowed>)
        requires
            old(self).leak_count < usize::MAX,
        ensures
            r is Ok <==> !old(self).mutably_borrowed,
            r is Ok ==> *final(self) == (PySharedState {
                leak_count: (old(self).leak_count + 1) as usize,
                ..*old(self)
            }),
            r is Err ==> *final(self) == *old(self),
    {
        if self.mutably_borrowed {
            return Err(AlreadyBorrowed);
        }
        self.leak_count = self.leak_count + 1;
        Ok(())
    }

    /// Returns a borrow: the mutable one when `mutable`, one leaked
    /// immutable reference otherwise.
    pub fn decrease_leak_count(&mut self, mutable: bool)
        requires
            mutable ==> old(self).leak_count == 0 && old(self).mutably_borrowed,
            !mutable ==> old(self).leak_count > 0,
        ensures
            mutable ==> *final(self) == (PySharedState { mutably_borrowed: false, ..*old(self) }),
            !mutable ==> *final(self) == (PySharedState {
                leak_count: (old(self).leak_count - 1) as usize,
                ..*old(self)
            }),
    {
        if mutable {
            self.mutably_borrowed = false;
        } else {
            self.leak_count = self.leak_count - 1;
        }
    }
}

/// A cell to be used together with `PySharedState`: it pairs the protected
/// value with the borrow bookkeeping. Only immutable access is offered
/// through this interface.
#[derive(Debug)]
pub struct PySharedRefCell<T> {
    pub inner: T,
    pub py_shared_state: PySharedState,
}

impl<T> PySharedRefCell<T> {
    pub fn new(value: T) -> (r: Self)
        ensures
            r.inner == value,
            r.py_shared_state.leak_count == 0,
            !r.py_shared_state.mutably_borrowed,
    {
        Self { inner: value, py_shared_state: PySharedState::default() }
    }

    pub fn borrow(&self) -> (r: &T)
        ensures
            r == &self.inner,
    {
        &self.inner
    }
}

} // verus!
