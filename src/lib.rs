//! Explicitness overlays: for every leaf and composite inside a value, track
//! whether it was supplied explicitly or is only the type's default.

use vstd::prelude::*;

pub mod decode;
pub mod encode;
pub mod laws;
pub mod model;
pub mod option;
pub mod overlay;
pub mod primitive;
pub mod round_trip;
pub mod strategy;
pub mod value;
pub mod wire;

pub use option::OptionImpex;
pub use overlay::{Overlay, VariantMarker};
pub use primitive::{ImpexPrimitive, ImpexPrimitiveValue, PrimitiveWrapper};
pub use strategy::{LeafOverlay, LeafVisitor, TaggedValue};
pub use value::{Prim, Value};

use model::{construct, extract};

verus! {

/// An overlay: a structure that mirrors a plain value and carries
/// explicitness bits.
pub trait Impex: Sized {
    type Value;

    /// Whether some leaf or marker of the overlay is explicit.
    spec fn spec_explicit(&self) -> bool;

    /// Whether the overlay carries the plain value `v`.
    spec fn carries(&self, v: Self::Value) -> bool;

    /// Whether the overlay is `v` with every bit set to `is_explicit`.
    spec fn stamped(&self, v: Self::Value, is_explicit: bool) -> bool;

    /// A value stamped into an overlay is the value the overlay carries.
    proof fn lemma_stamped_carries(&self, v: Self::Value, is_explicit: bool)
        requires
            self.stamped(v, is_explicit),
        ensures
            self.carries(v),
    ;

    fn is_explicit(&self) -> (r: bool)
        ensures
            r == self.spec_explicit(),
    ;

    fn is_implicit(&self) -> (r: bool)
        ensures
            r == !self.spec_explicit(),
    {
        !self.is_explicit()
    }

    fn into_value(self) -> (r: Self::Value)
        ensures
            self.carries(r),
    ;

    /// The overlay of `v` with every bit set to `is_explicit`.
    fn from_value(v: Self::Value, is_explicit: bool) -> (r: Self)
        ensures
            r.stamped(v, is_explicit),
    ;

    /// Replaces the whole value, with every bit set to `is_explicit`.
    fn set_impex(&mut self, v: Self::Value, is_explicit: bool)
        ensures
            final(self).stamped(v, is_explicit),
    {
        *self = Self::from_value(v, is_explicit);
    }

    fn set_explicit(&mut self, v: Self::Value)
        ensures
            final(self).stamped(v, true),
    {
        self.set_impex(v, true);
    }

    fn set_implicit(&mut self, v: Self::Value)
        ensures
            final(self).stamped(v, false),
    {
        self.set_impex(v, false);
    }
}

/// A plain value that can be turned into its overlay.
pub trait IntoImpex: Sized {
    type Impex: Impex<Value = Self>;

    fn into_impex(self, is_explicit: bool) -> (r: Self::Impex)
        ensures
            r.stamped(self, is_explicit),
    ;

    fn into_implicit(self) -> (r: Self::Impex)
        ensures
            r.stamped(self, false),
    {
        self.into_impex(false)
    }

    fn into_explicit(self) -> (r: Self::Impex)
        ensures
            r.stamped(self, true),
    {
        self.into_impex(true)
    }
}

/// The default way of building leaf overlays: a plain value and one bit.
#[derive(PartialEq, Eq, Debug, Default, Clone, Copy)]
pub struct DefaultWrapperSettings;

impl DefaultWrapperSettings {
    pub fn create_primitive<T: ImpexPrimitive>(value: T, is_explicit: bool) -> (r:
        ImpexPrimitiveValue<T>)
        ensures
            r.spec_value() == value,
            r.spec_explicit() == is_explicit,
    {
        ImpexPrimitiveValue::new(value, is_explicit)
    }
}

impl<T: ImpexPrimitive> Impex for ImpexPrimitiveValue<T> {
    type Value = T;

    open spec fn spec_explicit(&self) -> bool {
        self.spec_explicit()
    }

    open spec fn carries(&self, v: T) -> bool {
        self.spec_value() == v
    }

    open spec fn stamped(&self, v: T, is_explicit: bool) -> bool {
        self.spec_value() == v && self.spec_explicit() == is_explicit
    }

    proof fn lemma_stamped_carries(&self, v: T, is_explicit: bool) {
    }

    fn is_explicit(&self) -> (r: bool) {
        ImpexPrimitiveValue::is_explicit(self)
    }

    fn into_value(self) -> (r: T) {
        ImpexPrimitiveValue::into_value(self)
    }

    fn from_value(v: T, is_explicit: bool) -> (r: Self) {
        ImpexPrimitiveValue::new(v, is_explicit)
    }

    fn set_impex(&mut self, v: T, is_explicit: bool) {
        ImpexPrimitiveValue::set_impex(self, v, is_explicit);
    }
}

impl<T: ImpexPrimitive> IntoImpex for T {
    type Impex = ImpexPrimitiveValue<T>;

    fn into_impex(self, is_explicit: bool) -> (r: ImpexPrimitiveValue<T>) {
        DefaultWrapperSettings::create_primitive(self, is_explicit)
    }
}

impl<L: strategy::LeafOverlay> Impex for Overlay<L> {
    type Value = Value;

    open spec fn spec_explicit(&self) -> bool {
        model::explicit(self@)
    }

    open spec fn carries(&self, v: Value) -> bool {
        extract(self@) == v@
    }

    open spec fn stamped(&self, v: Value, is_explicit: bool) -> bool {
        self@ == construct(v@, is_explicit)
    }

    proof fn lemma_stamped_carries(&self, v: Value, is_explicit: bool) {
        model::lemma_extract_construct(v@, is_explicit);
    }

    fn is_explicit(&self) -> (r: bool) {
        self.explicit()
    }

    fn into_value(self) -> (r: Value) {
        self.value()
    }

    fn from_value(v: Value, is_explicit: bool) -> (r: Self) {
        v.overlay_as(is_explicit)
    }
}

impl IntoImpex for Value {
    type Impex = Overlay;

    fn into_impex(self, is_explicit: bool) -> (r: Overlay) {
        self.overlay(is_explicit)
    }
}

impl<T: Impex> OptionImpex<T> {
    /// A present optional reports its inner overlay; an absent one its own bit.
    pub open spec fn spec_explicit(&self) -> bool {
        match self {
            OptionImpex::Present(x) => x.spec_explicit(),
            OptionImpex::Absent(b) => *b,
        }
    }

    pub fn is_explicit(&self) -> (r: bool)
        ensures
            r == self.spec_explicit(),
    {
        match self {
            OptionImpex::Present(x) => x.is_explicit(),
            OptionImpex::Absent(b) => *b,
        }
    }

    pub fn is_implicit(&self) -> (r: bool)
        ensures
            r == !self.spec_explicit(),
    {
        !self.is_explicit()
    }
}

impl<T: IntoImpex> IntoImpex for Option<T> {
    type Impex = OptionImpex<T::Impex>;

    fn into_impex(self, is_explicit: bool) -> (r: OptionImpex<T::Impex>) {
        match self {
            Some(x) => {
                let ghost gx = x;
                let inner = x.into_impex(is_explicit);
                assert(inner.stamped(gx, is_explicit));
                let r = OptionImpex::Present(inner);
                assert(r.stamped(Some(gx), is_explicit));
                r
            },
            None => OptionImpex::Absent(is_explicit),
        }
    }
}

impl<T: Impex> Impex for OptionImpex<T> {
    type Value = Option<T::Value>;

    open spec fn spec_explicit(&self) -> bool {
        match self {
            OptionImpex::Present(x) => x.spec_explicit(),
            OptionImpex::Absent(b) => *b,
        }
    }

    open spec fn carries(&self, v: Option<T::Value>) -> bool {
        match (self, v) {
            (OptionImpex::Present(x), Some(y)) => x.carries(y),
            (OptionImpex::Absent(_), None) => true,
            _ => false,
        }
    }

    open spec fn stamped(&self, v: Option<T::Value>, is_explicit: bool) -> bool {
        match (self, v) {
            (OptionImpex::Present(x), Some(y)) => x.stamped(y, is_explicit),
            (OptionImpex::Absent(b), None) => *b == is_explicit,
            _ => false,
        }
    }

    proof fn lemma_stamped_carries(&self, v: Option<T::Value>, is_explicit: bool) {
        match (self, v) {
            (OptionImpex::Present(x), Some(y)) => x.lemma_stamped_carries(y, is_explicit),
            _ => {},
        }
    }

    fn is_explicit(&self) -> (r: bool) {
        match self {
            OptionImpex::Present(x) => x.is_explicit(),
            OptionImpex::Absent(b) => *b,
        }
    }

    fn into_value(self) -> (r: Option<T::Value>) {
        match self {
            OptionImpex::Present(x) => Some(x.into_value()),
            OptionImpex::Absent(_) => None,
        }
    }

    fn from_value(v: Option<T::Value>, is_explicit: bool) -> (r: Self) {
        match v {
            Some(x) => OptionImpex::Present(T::from_value(x, is_explicit)),
            None => OptionImpex::Absent(is_explicit),
        }
    }
}

impl<T: IntoImpex> IntoImpex for Vec<T> {
    type Impex = Vec<T::Impex>;

    fn into_impex(self, is_explicit: bool) -> (r: Vec<T::Impex>) {
        let ghost orig = self;
        let mut src = self;
        let mut out: Vec<T::Impex> = Vec::new();
        while src.len() > 0
            invariant
                out@.len() + src@.len() == orig@.len(),
                src@ == orig@.subrange(out@.len() as int, orig@.len() as int),
                forall|j: int|
                    0 <= j < out@.len() ==> #[trigger] out@[j].stamped(orig@[j], is_explicit),
            decreases src.len(),
        {
            let x = src.remove(0);
            let ghost gx = x;
            assert(gx == orig@[out@.len() as int]);
            let y = x.into_impex(is_explicit);
            assert(y.stamped(gx, is_explicit));
            out.push(y);
        }
        assert(out.stamped(orig, is_explicit));
        out
    }
}

impl<T: Impex> Impex for Vec<T> {
    type Value = Vec<T::Value>;

    open spec fn spec_explicit(&self) -> bool {
        exists|i: int| 0 <= i < self.len() && #[trigger] self@[i].spec_explicit()
    }

    open spec fn carries(&self, v: Vec<T::Value>) -> bool {
        &&& v.len() == self.len()
        &&& forall|i: int| 0 <= i < self.len() ==> #[trigger] self@[i].carries(v@[i])
    }

    open spec fn stamped(&self, v: Vec<T::Value>, is_explicit: bool) -> bool {
        &&& v.len() == self.len()
        &&& forall|i: int|
            0 <= i < self.len() ==> #[trigger] self@[i].stamped(v@[i], is_explicit)
    }

    proof fn lemma_stamped_carries(&self, v: Vec<T::Value>, is_explicit: bool) {
        assert forall|i: int| 0 <= i < self.len() implies #[trigger] self@[i].carries(v@[i]) by {
            self@[i].lemma_stamped_carries(v@[i], is_explicit);
        }
    }

    fn is_explicit(&self) -> (r: bool) {
        let mut i: usize = 0;
        while i < self.len()
            invariant
                i <= self.len(),
                forall|j: int| 0 <= j < i ==> !#[trigger] self@[j].spec_explicit(),
            decreases self.len() - i,
        {
            if self[i].is_explicit() {
                return true;
            }
            i += 1;
        }
        false
    }

    fn into_value(self) -> (r: Vec<T::Value>) {
        let ghost orig = self;
        let mut src = self;
        let mut out: Vec<T::Value> = Vec::new();
        while src.len() > 0
            invariant
                out@.len() + src@.len() == orig@.len(),
                src@ == orig@.subrange(out@.len() as int, orig@.len() as int),
                forall|j: int| 0 <= j < out@.len() ==> #[trigger] orig@[j].carries(out@[j]),
            decreases src.len(),
        {
            let x = src.remove(0);
            let ghost gx = x;
            assert(gx == orig@[out@.len() as int]);
            out.push(x.into_value());
        }
        out
    }

    fn from_value(v: Vec<T::Value>, is_explicit: bool) -> (r: Self) {
        let ghost orig = v;
        let mut src = v;
        let mut out: Vec<T> = Vec::new();
        while src.len() > 0
            invariant
                out@.len() + src@.len() == orig@.len(),
                src@ == orig@.subrange(out@.len() as int, orig@.len() as int),
                forall|j: int|
                    0 <= j < out@.len() ==> #[trigger] out@[j].stamped(orig@[j], is_explicit),
            decreases src.len(),
        {
            let x = src.remove(0);
            assert(x == orig@[out@.len() as int]);
            out.push(T::from_value(x, is_explicit));
        }
        out
    }
}

impl<A: IntoImpex, B: IntoImpex> IntoImpex for (A, B) {
    type Impex = (A::Impex, B::Impex);

    fn into_impex(self, is_explicit: bool) -> (r: (A::Impex, B::Impex)) {
        let ghost g = self;
        let (a, b) = self;
        let r = (a.into_impex(is_explicit), b.into_impex(is_explicit));
        assert(r.stamped(g, is_explicit));
        r
    }
}

/// A pair is a composite: it reports explicit iff one of its fields does.
impl<A: Impex, B: Impex> Impex for (A, B) {
    type Value = (A::Value, B::Value);

    open spec fn spec_explicit(&self) -> bool {
        self.0.spec_explicit() || self.1.spec_explicit()
    }

    open spec fn carries(&self, v: (A::Value, B::Value)) -> bool {
        self.0.carries(v.0) && self.1.carries(v.1)
    }

    open spec fn stamped(&self, v: (A::Value, B::Value), is_explicit: bool) -> bool {
        self.0.stamped(v.0, is_explicit) && self.1.stamped(v.1, is_explicit)
    }

    proof fn lemma_stamped_carries(&self, v: (A::Value, B::Value), is_explicit: bool) {
        self.0.lemma_stamped_carries(v.0, is_explicit);
        self.1.lemma_stamped_carries(v.1, is_explicit);
    }

    fn is_explicit(&self) -> (r: bool) {
        self.0.is_explicit() || self.1.is_explicit()
    }

    fn into_value(self) -> (r: (A::Value, B::Value)) {
        let (a, b) = self;
        (a.into_value(), b.into_value())
    }

    fn from_value(v: (A::Value, B::Value), is_explicit: bool) -> (r: Self) {
        let (a, b) = v;
        (A::from_value(a, is_explicit), B::from_value(b, is_explicit))
    }
}

} // verus!
