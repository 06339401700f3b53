use vstd::prelude::*;

verus! {

/// Overlay of an optional value: either a present inner overlay, or an
/// absence that carries its own explicitness bit (`true` for an explicit
/// clear, `false` when nothing was ever supplied).
#[derive(Debug, Clone, Copy, PartialEq, Eq)]
pub enum OptionImpex<T> {
    Present(T),
    Absent(bool),
}

impl<T> OptionImpex<T> {
    pub fn explicit_none() -> (r: Self)
        ensures
            r == OptionImpex::<T>::Absent(true),
    {
        OptionImpex::Absent(true)
    }

    pub fn implicit_none() -> (r: Self)
        ensures
            r == OptionImpex::<T>::Absent(false),
    {
        OptionImpex::Absent(false)
    }

    pub fn is_some(&self) -> (r: bool)
        ensures
            r == (*self is Present),
    {
        match self {
            OptionImpex::Present(_) => true,
            OptionImpex::Absent(_) => false,
        }
    }

    pub fn is_none(&self) -> (r: bool)
        ensures
            r == (*self is Absent),
    {
        match self {
            OptionImpex::Present(_) => false,
            OptionImpex::Absent(_) => true,
        }
    }

    pub fn as_ref(&self) -> (r: Option<&T>)
        ensures
            *self is Present ==> r == Some(&self->Present_0),
            *self is Absent ==> r is None,
    {
        match self {
            OptionImpex::Present(x) => Some(x),
            OptionImpex::Absent(_) => None,
        }
    }

    pub fn as_mut(&mut self) -> (r: Option<&mut T>)
        ensures
            *old(self) is Absent ==> r is None && *final(self) == *old(self),
            *old(self) is Present ==> r is Some && *r->Some_0 == old(self)->Present_0
                && *final(self) == OptionImpex::<T>::Present(*final(r->Some_0)),
    {
        match self {
            OptionImpex::Present(x) => Some(x),
            OptionImpex::Absent(_) => None,
        }
    }
}

/// By default nothing was ever supplied: an implicit absence.
impl<T> Default for OptionImpex<T> {
    fn default() -> (r: Self)
        ensures
            r == OptionImpex::<T>::Absent(false),
    {
        OptionImpex::Absent(false)
    }
}

} // verus!
