use vstd::prelude::*;

use crate::model::{
    any_explicit, construct, construct_all, explicit, extract, extract_all, lemma_any_explicit,
    lemma_construct_all, lemma_extract_all, OverlayM,
};
use crate::option::OptionImpex;
use crate::primitive::ImpexPrimitiveValue;
use crate::strategy::{LeafOverlay, LeafVisitor};
use crate::value::{copy_strings, lemma_value_views, string_views, value_views, Prim, Value};

verus! {

/// The presence marker of a data-free enum variant: the one explicitness bit
/// that such a variant has.
#[derive(Debug, Clone, Copy, PartialEq, Eq, Default)]
pub struct VariantMarker {
    pub is_explicit: bool,
}

/// The overlay of a `Value`: the same shape, with an explicitness bit on every
/// leaf, on every absent optional and on every data-free variant.
#[derive(Debug, PartialEq, Eq)]
pub enum Overlay<L = ImpexPrimitiveValue<Prim>> {
    Leaf(L),
    Opt(OptionImpex<Box<Overlay<L>>>),
    List(Vec<Overlay<L>>),
    Record(Vec<String>, Vec<Overlay<L>>),
    Unit(String, VariantMarker),
    Variant(String, Box<Overlay<L>>),
}

pub open spec fn overlay_view<L: LeafOverlay>(o: Overlay<L>) -> OverlayM
    decreases o,
{
    match o {
        Overlay::Leaf(l) => OverlayM::Leaf(l.leaf_value(), l.leaf_explicit()),
        Overlay::Opt(OptionImpex::Present(x)) => OverlayM::Present(Box::new(overlay_view(*x))),
        Overlay::Opt(OptionImpex::Absent(b)) => OverlayM::Absent(b),
        Overlay::List(s) => OverlayM::List(overlay_views(s@)),
        Overlay::Record(ns, s) => OverlayM::Record(string_views(ns@), overlay_views(s@)),
        Overlay::Unit(n, m) => OverlayM::Unit(n@, m.is_explicit),
        Overlay::Variant(n, p) => OverlayM::Variant(n@, Box::new(overlay_view(*p))),
    }
}

pub open spec fn overlay_views<L: LeafOverlay>(s: Seq<Overlay<L>>) -> Seq<OverlayM>
    decreases s,
{
    if s.len() == 0 {
        Seq::empty()
    } else {
        overlay_views(s.drop_last()).push(overlay_view(s.last()))
    }
}

impl<L: LeafOverlay> View for Overlay<L> {
    type V = OverlayM;

    open spec fn view(&self) -> OverlayM {
        overlay_view(*self)
    }
}

pub proof fn lemma_overlay_views<L: LeafOverlay>(s: Seq<Overlay<L>>)
    ensures
        overlay_views(s).len() == s.len(),
        forall|i: int| 0 <= i < s.len() ==> #[trigger] overlay_views(s)[i] == s[i]@,
    decreases s.len(),
{
    if s.len() > 0 {
        lemma_overlay_views(s.drop_last());
    }
}

impl Value {
    /// Builds the overlay of this value with every bit set to `is_explicit`.
    pub fn overlay(&self, is_explicit: bool) -> (r: Overlay)
        ensures
            r@ == construct(self@, is_explicit),
    {
        self.overlay_as(is_explicit)
    }

    /// Builds the overlay of this value with leaves of representation `L`.
    pub fn overlay_as<L: LeafOverlay>(&self, is_explicit: bool) -> (r: Overlay<L>)
        ensures
            r@ == construct(self@, is_explicit),
        decreases self,
    {
        match self {
            Value::Prim(p) => Overlay::Leaf(L::create(p.duplicate(), is_explicit)),
            Value::Nil => Overlay::Opt(OptionImpex::Absent(is_explicit)),
            Value::Just(x) => Overlay::Opt(
                OptionImpex::Present(Box::new((**x).overlay_as(is_explicit))),
            ),
            Value::List(s) => Overlay::List(overlay_all(s, is_explicit)),
            Value::Record(ns, s) => Overlay::Record(copy_strings(ns), overlay_all(s, is_explicit)),
            Value::Unit(n) => Overlay::Unit(n.clone(), VariantMarker { is_explicit }),
            Value::Variant(n, p) => Overlay::Variant(
                n.clone(),
                Box::new((**p).overlay_as(is_explicit)),
            ),
        }
    }
}

fn overlay_all<L: LeafOverlay>(s: &Vec<Value>, is_explicit: bool) -> (r: Vec<Overlay<L>>)
    ensures
        overlay_views(r@) == construct_all(value_views(s@), is_explicit),
    decreases s,
{
    let mut r: Vec<Overlay<L>> = Vec::new();
    let mut i: usize = 0;
    while i < s.len()
        invariant
            i <= s.len(),
            r@.len() == i,
            forall|j: int| 0 <= j < i ==> #[trigger] r@[j]@ == construct(s@[j]@, is_explicit),
        decreases s.len() - i,
    {
        proof {
            vstd::std_specs::vec::axiom_vec_index_decreases(*s, i as int);
        }
        let x = s[i].overlay_as(is_explicit);
        r.push(x);
        i += 1;
    }
    proof {
        lemma_overlay_views(r@);
        lemma_value_views(s@);
        lemma_construct_all(value_views(s@), is_explicit);
        assert(overlay_views(r@) =~= construct_all(value_views(s@), is_explicit));
    }
    r
}

impl<L: LeafOverlay> Overlay<L> {
    /// Whether any leaf, absence or marker of the overlay is explicit.
    pub fn explicit(&self) -> (r: bool)
        ensures
            r == explicit(self@),
        decreases self,
    {
        match self {
            Overlay::Leaf(l) => l.leaf_is_explicit(),
            Overlay::Opt(OptionImpex::Present(x)) => (**x).explicit(),
            Overlay::Opt(OptionImpex::Absent(b)) => *b,
            Overlay::List(s) => explicit_any(s),
            Overlay::Record(_, s) => explicit_any(s),
            Overlay::Unit(_, m) => m.is_explicit,
            Overlay::Variant(_, p) => (**p).explicit(),
        }
    }

    /// The plain value that the overlay carries.
    pub fn value(&self) -> (r: Value)
        ensures
            r@ == extract(self@),
        decreases self,
    {
        match self {
            Overlay::Leaf(l) => Value::Prim(l.leaf_prim()),
            Overlay::Opt(OptionImpex::Present(x)) => Value::Just(Box::new((**x).value())),
            Overlay::Opt(OptionImpex::Absent(_)) => Value::Nil,
            Overlay::List(s) => Value::List(value_all(s)),
            Overlay::Record(ns, s) => Value::Record(copy_strings(ns), value_all(s)),
            Overlay::Unit(n, _) => Value::Unit(n.clone()),
            Overlay::Variant(n, p) => Value::Variant(n.clone(), Box::new((**p).value())),
        }
    }
}

/// Whether every leaf of an overlay has taken in `ctx`: the leaves of a
/// present optional, of every element and field, and of the active variant.
pub open spec fn every_leaf_took<L: LeafVisitor<C>, C>(o: Overlay<L>, ctx: C) -> bool
    decreases o,
{
    match o {
        Overlay::Leaf(l) => l.took(ctx),
        Overlay::Opt(OptionImpex::Present(x)) => every_leaf_took(*x, ctx),
        Overlay::Opt(OptionImpex::Absent(_)) => true,
        Overlay::List(s) => all_took(s@, ctx),
        Overlay::Record(_, s) => all_took(s@, ctx),
        Overlay::Unit(_, _) => true,
        Overlay::Variant(_, p) => every_leaf_took(*p, ctx),
    }
}

pub open spec fn all_took<L: LeafVisitor<C>, C>(s: Seq<Overlay<L>>, ctx: C) -> bool
    decreases s,
{
    if s.len() == 0 {
        true
    } else {
        all_took(s.drop_last(), ctx) && every_leaf_took(s.last(), ctx)
    }
}

pub proof fn lemma_all_took<L: LeafVisitor<C>, C>(s: Seq<Overlay<L>>, ctx: C)
    requires
        forall|i: int| 0 <= i < s.len() ==> #[trigger] every_leaf_took(s[i], ctx),
    ensures
        all_took(s, ctx),
    decreases s.len(),
{
    if s.len() > 0 {
        assert(every_leaf_took(s[s.len() - 1], ctx));
        assert forall|i: int| 0 <= i < s.len() - 1 implies #[trigger] every_leaf_took(
            s.drop_last()[i],
            ctx,
        ) by {
            assert(every_leaf_took(s[i], ctx));
        }
        lemma_all_took(s.drop_last(), ctx);
    }
}

impl<L: LeafOverlay> Overlay<L> {
    /// Hands `ctx` to every leaf, in order: the fields of a struct, the
    /// elements of a collection, the fields of the active variant. Every leaf
    /// takes it in; values and explicitness stay as they were.
    pub fn visit<C>(&mut self, ctx: &C)
        where
            L: LeafVisitor<C>,
        ensures
            final(self)@ == old(self)@,
            every_leaf_took(*final(self), *ctx),
        decreases *old(self), 1int,
    {
        let ghost whole = *self;
        match self {
            Overlay::Leaf(l) => l.visit_leaf(ctx),
            Overlay::Opt(OptionImpex::Present(x)) => (**x).visit(ctx),
            Overlay::Opt(OptionImpex::Absent(_)) => {},
            Overlay::List(s) => visit_each(s, ctx, Ghost(whole)),
            Overlay::Record(_, s) => visit_each(s, ctx, Ghost(whole)),
            Overlay::Unit(_, _) => {},
            Overlay::Variant(_, p) => (**p).visit(ctx),
        }
    }
}

/// Visits each element of `s`, a part of `whole`.
fn visit_each<L: LeafVisitor<C>, C>(s: &mut Vec<Overlay<L>>, ctx: &C, Ghost(whole): Ghost<Overlay<L>>)
    requires
        decreases_to!(whole => *old(s)),
    ensures
        overlay_views(final(s)@) == overlay_views(old(s)@),
        all_took(final(s)@, *ctx),
    decreases whole, 0int,
{
    let ghost old_s = *s;
    let mut i: usize = 0;
    while i < s.len()
        invariant
            i <= s.len(),
            decreases_to!(whole => old_s),
            s@.len() == old_s@.len(),
            forall|j: int| 0 <= j < s@.len() ==> #[trigger] s@[j]@ == old_s@[j]@,
            forall|j: int| i <= j < s@.len() ==> s@[j] == old_s@[j],
            forall|j: int| 0 <= j < i ==> #[trigger] every_leaf_took(s@[j], *ctx),
        decreases s.len() - i,
    {
        let ghost cur = s@;
        let mut x = s.remove(i);
        proof {
            vstd::std_specs::vec::axiom_vec_index_decreases(old_s, i as int);
            assert(decreases_to!(whole => x));
        }
        x.visit(ctx);
        s.insert(i, x);
        proof {
            assert(s@ =~= cur.update(i as int, x));
        }
        i += 1;
    }
    proof {
        lemma_overlay_views(s@);
        lemma_overlay_views(old_s@);
        assert(overlay_views(s@) =~= overlay_views(old_s@));
        lemma_all_took(s@, *ctx);
    }
}

fn explicit_any<L: LeafOverlay>(s: &Vec<Overlay<L>>) -> (r: bool)
    ensures
        r == any_explicit(overlay_views(s@)),
    decreases s,
{
    let mut i: usize = 0;
    while i < s.len()
        invariant
            i <= s.len(),
            forall|j: int| 0 <= j < i ==> !explicit(#[trigger] s@[j]@),
        decreases s.len() - i,
    {
        proof {
            vstd::std_specs::vec::axiom_vec_index_decreases(*s, i as int);
        }
        if s[i].explicit() {
            proof {
                lemma_overlay_views(s@);
                lemma_any_explicit(overlay_views(s@));
                assert(explicit(overlay_views(s@)[i as int]));
            }
            return true;
        }
        i += 1;
    }
    proof {
        lemma_overlay_views(s@);
        lemma_any_explicit(overlay_views(s@));
        assert(forall|j: int| 0 <= j < s@.len() ==> !explicit(#[trigger] overlay_views(s@)[j]));
    }
    false
}

fn value_all<L: LeafOverlay>(s: &Vec<Overlay<L>>) -> (r: Vec<Value>)
    ensures
        value_views(r@) == extract_all(overlay_views(s@)),
    decreases s,
{
    let mut r: Vec<Value> = Vec::new();
    let mut i: usize = 0;
    while i < s.len()
        invariant
            i <= s.len(),
            r@.len() == i,
            forall|j: int| 0 <= j < i ==> #[trigger] r@[j]@ == extract(s@[j]@),
        decreases s.len() - i,
    {
        proof {
            vstd::std_specs::vec::axiom_vec_index_decreases(*s, i as int);
        }
        let x = s[i].value();
        r.push(x);
        i += 1;
    }
    proof {
        lemma_overlay_views(s@);
        lemma_value_views(r@);
        lemma_extract_all(overlay_views(s@));
        assert(value_views(r@) =~= extract_all(overlay_views(s@)));
    }
    r
}

} // verus!
