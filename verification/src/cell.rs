//! Write-once storage for an initialized value.

use vstd::prelude::*;
use crate::symbol::Symbol;

verus! {

/// A value that is set once, by the action of the task that provides it, and
/// read afterwards.
#[derive(Debug)]
pub struct InitStatic<T> {
    symbol: &'static Symbol,
    inner: Option<T>,
}

impl<T> View for InitStatic<T> {
    type V = Option<T>;

    closed spec fn view(&self) -> Option<T> {
        self.inner
    }
}

impl<T> InitStatic<T> {
    /// The name under which the value was declared.
    pub closed spec fn name(&self) -> &'static Symbol {
        self.symbol
    }

    /// A cell for the value declared as `symbol`, not yet set.
    pub fn new(symbol: &'static Symbol) -> (cell: Self)
        ensures
            cell@ is None,
            cell.name() == symbol,
    {
        Self { symbol, inner: None }
    }

    /// Sets the value. This is done once: the cell must not be set yet.
    pub fn init(this: &mut Self, value: T)
        requires
            old(this)@ is None,
        ensures
            final(this)@ == Some(value),
            final(this).name() == old(this).name(),
    {
        this.inner = Some(value);
    }

    /// Sets the value if the cell is not set yet; otherwise hands the value
    /// back and leaves the cell as it is.
    pub fn try_init(this: &mut Self, value: T) -> (r: Result<(), T>)
        ensures
            final(this).name() == old(this).name(),
            match old(this)@ {
                None => r is Ok && final(this)@ == Some(value),
                Some(_) => r == Err::<(), T>(value) && final(this)@ == old(this)@,
            },
    {
        if this.inner.is_none() {
            this.inner = Some(value);
            Ok(())
        } else {
            Err(value)
        }
    }

    /// The name under which the value was declared.
    pub fn symbol(this: &Self) -> (symbol: &'static Symbol)
        ensures
            symbol == this.name(),
    {
        this.symbol
    }

    /// Whether the value has been set.
    pub fn is_set(this: &Self) -> (set: bool)
        ensures
            set == (this@ is Some),
    {
        this.inner.is_some()
    }

    /// The value, if it has been set.
    pub fn get(this: &Self) -> (value: Option<&T>)
        ensures
            match value {
                Some(v) => this@ == Some(*v),
                None => this@ is None,
            },
    {
        this.inner.as_ref()
    }

    /// The value. It must have been set.
    pub fn deref(&self) -> (value: &T)
        requires
            self@ is Some,
        ensures
            Some(*value) == self@,
    {
        self.inner.as_ref().unwrap()
    }

    /// The value, to be changed in place. It must have been set.
    pub fn deref_mut(&mut self) -> (value: &mut T)
        requires
            old(self)@ is Some,
        ensures
            Some(*value) == old(self)@,
            final(self)@ == Some(*final(value)),
            final(self).name() == old(self).name(),
    {
        self.inner.as_mut().unwrap()
    }
}

/// What may or may not be a declared value with a name.
pub trait MaybeInitStatic {
    /// The name of `self` where it is a declared value.
    fn __get_symbol(&self) -> Option<&'static Symbol>;
}

impl<T> MaybeInitStatic for InitStatic<T> {
    fn __get_symbol(&self) -> (symbol: Option<&'static Symbol>)
        ensures
            symbol == Some(self.name()),
    {
        Some(self.symbol)
    }
}

impl<T> MaybeInitStatic for &T {
    fn __get_symbol(&self) -> (symbol: Option<&'static Symbol>)
        ensures
            symbol is None,
    {
        None
    }
}

} // verus!
