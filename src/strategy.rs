use vstd::prelude::*;

use crate::model::PrimM;
use crate::primitive::ImpexPrimitiveValue;
use crate::value::Prim;

verus! {

/// A wrapper strategy: the representation that overlays use for their
/// leaves. Whatever else a representation keeps (where a value came from,
/// say), it holds one primitive and one explicitness bit.
pub trait LeafOverlay: Sized {
    spec fn leaf_value(&self) -> PrimM;

    spec fn leaf_explicit(&self) -> bool;

    fn create(value: Prim, is_explicit: bool) -> (r: Self)
        ensures
            r.leaf_value() == value@,
            r.leaf_explicit() == is_explicit,
    ;

    fn leaf_is_explicit(&self) -> (r: bool)
        ensures
            r == self.leaf_explicit(),
    ;

    /// A copy of the primitive.
    fn leaf_prim(&self) -> (r: Prim)
        ensures
            r@ == self.leaf_value(),
    ;
}

/// A leaf representation that can take in a side context of type `C`
/// (a source identifier, say) when an overlay is visited.
pub trait LeafVisitor<C>: LeafOverlay {
    /// Whether the leaf has taken in `ctx`.
    spec fn took(&self, ctx: C) -> bool;

    fn visit_leaf(&mut self, ctx: &C)
        ensures
            final(self).leaf_value() == old(self).leaf_value(),
            final(self).leaf_explicit() == old(self).leaf_explicit(),
            final(self).took(*ctx),
    ;
}

/// The default strategy: the plain `{value, explicit}` leaf.
impl LeafOverlay for ImpexPrimitiveValue<Prim> {
    open spec fn leaf_value(&self) -> PrimM {
        self.spec_value()@
    }

    open spec fn leaf_explicit(&self) -> bool {
        self.spec_explicit()
    }

    fn create(value: Prim, is_explicit: bool) -> (r: Self) {
        ImpexPrimitiveValue::new(value, is_explicit)
    }

    fn leaf_is_explicit(&self) -> (r: bool) {
        ImpexPrimitiveValue::is_explicit(self)
    }

    fn leaf_prim(&self) -> (r: Prim) {
        self.value().duplicate()
    }
}

/// The default leaf keeps nothing besides its value and bit, so visiting it
/// changes nothing.
impl<C> LeafVisitor<C> for ImpexPrimitiveValue<Prim> {
    open spec fn took(&self, ctx: C) -> bool {
        true
    }

    fn visit_leaf(&mut self, ctx: &C) {
    }
}

/// An alternate strategy: a leaf that also carries a tag (where the value
/// came from, say). The tag starts empty and is set by visiting.
#[derive(PartialEq, Eq, Debug)]
pub struct TaggedValue<C> {
    pub value: Prim,
    pub is_explicit: bool,
    pub tag: Option<C>,
}

impl<C> LeafOverlay for TaggedValue<C> {
    open spec fn leaf_value(&self) -> PrimM {
        self.value@
    }

    open spec fn leaf_explicit(&self) -> bool {
        self.is_explicit
    }

    fn create(value: Prim, is_explicit: bool) -> (r: Self) {
        TaggedValue { value, is_explicit, tag: None }
    }

    fn leaf_is_explicit(&self) -> (r: bool) {
        self.is_explicit
    }

    fn leaf_prim(&self) -> (r: Prim) {
        self.value.duplicate()
    }
}

/// Visiting stamps the context on the leaf as its tag.
impl<C: Copy> LeafVisitor<C> for TaggedValue<C> {
    open spec fn took(&self, ctx: C) -> bool {
        self.tag == Some(ctx)
    }

    fn visit_leaf(&mut self, ctx: &C) {
        self.tag = Some(*ctx);
    }
}

} // verus!
