//! A cell that hands out its value to one holder at a time.
use vstd::prelude::*;

verus! {

/// A value behind a try-lock: taking the lock while it is held fails at once
/// with [`AtomicError::Busy`] instead of waiting.
///
/// A guard holds the cell by borrowing it, so the cell is free again as soon as
/// the guard is gone. A holder without a guard claims it with
/// [`try_lock_internal`](AtomicCell::try_lock_internal) and gives it back with
/// [`release`](AtomicCell::release).
pub struct AtomicCell<T> {
    cell: T,
    busy: bool,
}

/// A try-lock around a borrowed value: `AtomicRefCell<&T>` or
/// `AtomicRefCell<&mut T>`.
pub struct AtomicRefCell<T> {
    cell: T,
    busy: bool,
}

/// Shared access to a locked value, for as long as the guard lives.
pub struct AtomicCellGuard<'a, T> {
    pub value: &'a T,
}

/// Exclusive access to a locked value, for as long as the guard lives.
pub struct MutAtomicCellGuard<'a, T> {
    pub value: &'a mut T,
}

#[derive(Debug, Clone, Copy, PartialEq, Eq, Structural)]
pub enum AtomicError {
    Busy,
}

pub trait AtomicLock<T> {
    fn lock(&mut self) -> Result<AtomicCellGuard<'_, T>, AtomicError>;
}

pub trait AtomicMutLock<T> {
    fn lock_mut(&mut self) -> Result<MutAtomicCellGuard<'_, T>, AtomicError>;
}

impl<T> View for AtomicCell<T> {
    type V = T;

    closed spec fn view(&self) -> T {
        self.cell
    }
}

impl<T> AtomicCell<T> {
    /// Whether the cell is claimed.
    pub closed spec fn is_busy(&self) -> bool {
        self.busy
    }

    /// Create a new, unlocked `AtomicCell`.
    pub fn new(value: T) -> (cell: Self)
        ensures
            cell@ == value,
            !cell.is_busy(),
    {
        AtomicCell { cell: value, busy: false }
    }

    /// Claim the cell without a guard, until it is released.
    pub fn try_lock_internal(&mut self) -> (r: Result<(), AtomicError>)
        ensures
            r == (if old(self).is_busy() {
                Err::<(), AtomicError>(AtomicError::Busy)
            } else {
                Ok(())
            }),
            final(self).is_busy(),
            final(self)@ == old(self)@,
    {
        if self.busy {
            Err(AtomicError::Busy)
        } else {
            self.busy = true;
            Ok(())
        }
    }

    /// Give a claim back: the cell is free again.
    pub fn release(&mut self)
        ensures
            !final(self).is_busy(),
            final(self)@ == old(self)@,
    {
        self.busy = false;
    }
}

impl<T> AtomicLock<T> for AtomicCell<T> {
    fn lock(&mut self) -> (r: Result<AtomicCellGuard<'_, T>, AtomicError>)
        ensures
            *final(self) == *old(self),
            match r {
                Ok(guard) => !old(self).is_busy() && *guard.value == old(self)@,
                Err(e) => old(self).is_busy() && e == AtomicError::Busy,
            },
    {
        if self.busy {
            return Err(AtomicError::Busy);
        }
        Ok(AtomicCellGuard { value: &self.cell })
    }
}

impl<T> AtomicMutLock<T> for AtomicCell<T> {
    fn lock_mut(&mut self) -> (r: Result<MutAtomicCellGuard<'_, T>, AtomicError>)
        ensures
            final(self).is_busy() == old(self).is_busy(),
            match r {
                Ok(guard) => {
                    &&& !old(self).is_busy()
                    &&& *guard.value == old(self)@
                    &&& final(self)@ == *final(guard.value)
                },
                Err(e) => {
                    &&& e == AtomicError::Busy
                    &&& old(self).is_busy()
                    &&& *final(self) == *old(self)
                },
            },
    {
        if self.busy {
            return Err(AtomicError::Busy);
        }
        Ok(MutAtomicCellGuard { value: &mut self.cell })
    }
}

impl<T> View for AtomicRefCell<T> {
    type V = T;

    closed spec fn view(&self) -> T {
        self.cell
    }
}

impl<T> AtomicRefCell<T> {
    /// Whether the cell is claimed.
    pub closed spec fn is_busy(&self) -> bool {
        self.busy
    }

    /// Create a new, unlocked `AtomicRefCell`.
    pub fn new(value: T) -> (cell: Self)
        ensures
            cell@ == value,
            !cell.is_busy(),
    {
        AtomicRefCell { cell: value, busy: false }
    }

    /// Claim the cell without a guard, until it is released.
    pub fn try_lock_internal(&mut self) -> (r: Result<(), AtomicError>)
        ensures
            r == (if old(self).is_busy() {
                Err::<(), AtomicError>(AtomicError::Busy)
            } else {
                Ok(())
            }),
            final(self).is_busy(),
            final(self)@ == old(self)@,
    {
        if self.busy {
            Err(AtomicError::Busy)
        } else {
            self.busy = true;
            Ok(())
        }
    }

    /// Give a claim back: the cell is free again.
    pub fn release(&mut self)
        ensures
            !final(self).is_busy(),
            final(self)@ == old(self)@,
    {
        self.busy = false;
    }
}

impl<'r, T> AtomicLock<T> for AtomicRefCell<&'r T> {
    fn lock(&mut self) -> (r: Result<AtomicCellGuard<'_, T>, AtomicError>)
        ensures
            *final(self) == *old(self),
            match r {
                Ok(guard) => !old(self).is_busy() && *guard.value == *old(self)@,
                Err(e) => old(self).is_busy() && e == AtomicError::Busy,
            },
    {
        if self.busy {
            return Err(AtomicError::Busy);
        }
        Ok(AtomicCellGuard { value: self.cell })
    }
}

impl<'r, T> AtomicLock<T> for AtomicRefCell<&'r mut T> {
    fn lock(&mut self) -> (r: Result<AtomicCellGuard<'_, T>, AtomicError>)
        ensures
            *final(self) == *old(self),
            match r {
                Ok(guard) => !old(self).is_busy() && *guard.value == *old(self)@,
                Err(e) => old(self).is_busy() && e == AtomicError::Busy,
            },
    {
        if self.busy {
            return Err(AtomicError::Busy);
        }
        Ok(AtomicCellGuard { value: &*self.cell })
    }
}

impl<'r, T> AtomicMutLock<T> for AtomicRefCell<&'r mut T> {
    fn lock_mut(&mut self) -> (r: Result<MutAtomicCellGuard<'_, T>, AtomicError>)
        ensures
            final(self).is_busy() == old(self).is_busy(),
            match r {
                Ok(guard) => {
                    &&& !old(self).is_busy()
                    &&& *guard.value == *old(self)@
                    &&& *final(self)@ == *final(guard.value)
                    &&& *final(final(self)@) == *final(old(self)@)
                },
                Err(e) => {
                    &&& e == AtomicError::Busy
                    &&& old(self).is_busy()
                    &&& *final(self) == *old(self)
                },
            },
    {
        if self.busy {
            return Err(AtomicError::Busy);
        }
        Ok(MutAtomicCellGuard { value: &mut *self.cell })
    }
}

/// Call `f` on `arg`.
fn apply<A, B, F: FnOnce(A) -> B>(arg: A, f: F) -> (result: B)
    requires
        f.requires((arg,)),
    ensures
        f.ensures((arg,), result),
{
    f(arg)
}

impl<'a, T> AtomicCellGuard<'a, T> {
    pub fn as_ref(&self) -> (value: &T)
        ensures
            *value == *self.value,
    {
        self.value
    }

    /// Transform the guarded reference while keeping the lock held.
    pub fn map<U, F: FnOnce(&'a T) -> &'a U>(self, f: F) -> (guard: AtomicCellGuard<'a, U>)
        requires
            f.requires((self.value,)),
        ensures
            f.ensures((self.value,), guard.value),
    {
        AtomicCellGuard { value: f(self.value) }
    }
}

impl<'a, T> MutAtomicCellGuard<'a, T> {
    pub fn as_ref(&self) -> (value: &T)
        ensures
            *value == *old(self.value),
    {
        &*self.value
    }

    pub fn as_mut(&mut self) -> (value: &mut T)
        ensures
            *value == *old(self).value,
            *final(self).value == *final(value),
            *final(final(self).value) == *final(old(self).value),
    {
        &mut *self.value
    }

    /// Transform the guarded reference while keeping the lock held.
    pub fn map<U, F: FnOnce(&'a mut T) -> &'a mut U>(self, f: F) -> (guard: MutAtomicCellGuard<'a, U>)
        requires
            f.requires((self.value,)),
        ensures
            exists|mapped: &'a mut U|
                #[trigger] f.ensures((self.value,), mapped) && *mapped == *guard.value
                    && *final(mapped) == *final(guard.value),
    {
        let MutAtomicCellGuard { value } = self;
        let mapped = apply(value, f);
        MutAtomicCellGuard { value: mapped }
    }
}

} // verus!
