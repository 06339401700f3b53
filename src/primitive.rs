use vstd::prelude::*;

verus! {

/// Marker for the value types that are wrapped whole by a leaf overlay.
pub trait ImpexPrimitive {}

impl ImpexPrimitive for String {}

impl ImpexPrimitive for u32 {}

impl ImpexPrimitive for i32 {}

impl ImpexPrimitive for i64 {}

/// Wraps any value so that it is treated as a single leaf.
#[derive(PartialEq, Eq, Debug, Default, Clone)]
pub struct PrimitiveWrapper<T>(pub T);

impl<T> ImpexPrimitive for PrimitiveWrapper<T> {}

/// A leaf overlay: one value and one explicitness bit.
#[derive(PartialEq, Eq, Copy, Clone, Debug)]
pub struct ImpexPrimitiveValue<T> {
    value: T,
    is_explicit: bool,
}

impl<T> ImpexPrimitiveValue<T> {
    /// The wrapped value.
    pub closed spec fn spec_value(&self) -> T {
        self.value
    }

    /// Whether the value was supplied explicitly.
    pub closed spec fn spec_explicit(&self) -> bool {
        self.is_explicit
    }

    pub fn new(value: T, is_explicit: bool) -> (r: Self)
        ensures
            r.spec_value() == value,
            r.spec_explicit() == is_explicit,
    {
        ImpexPrimitiveValue { value, is_explicit }
    }

    /// Marks the leaf explicit and hands out its value for editing.
    pub fn make_explicit(&mut self) -> (r: &mut T)
        ensures
            *r == old(self).spec_value(),
            final(self).spec_value() == *final(r),
            final(self).spec_explicit(),
    {
        self.is_explicit = true;
        &mut self.value
    }

    pub fn is_explicit(&self) -> (r: bool)
        ensures
            r == self.spec_explicit(),
    {
        self.is_explicit
    }

    pub fn is_implicit(&self) -> (r: bool)
        ensures
            r == !self.spec_explicit(),
    {
        !self.is_explicit
    }

    pub fn set_explicit(&mut self, value: T)
        ensures
            final(self).spec_value() == value,
            final(self).spec_explicit(),
    {
        self.is_explicit = true;
        self.value = value;
    }

    /// Replaces the value and the flag together.
    pub fn set_impex(&mut self, value: T, is_explicit: bool)
        ensures
            final(self).spec_value() == value,
            final(self).spec_explicit() == is_explicit,
    {
        self.is_explicit = is_explicit;
        self.value = value;
    }

    pub fn value(&self) -> (r: &T)
        ensures
            *r == self.spec_value(),
    {
        &self.value
    }

    pub fn into_value(self) -> (r: T)
        ensures
            r == self.spec_value(),
    {
        self.value
    }
}

/// The type's default value, implicit.
impl<T: Default> Default for ImpexPrimitiveValue<T> {
    fn default() -> (r: Self)
        ensures
            !r.spec_explicit(),
            call_ensures(T::default, (), r.spec_value()),
    {
        ImpexPrimitiveValue::new(T::default(), false)
    }
}

} // verus!
