use vstd::prelude::*;

verus! {

/// Mathematical form of a primitive value.
pub enum PrimM {
    U32(u32),
    I32(i32),
    I64(i64),
    Str(Seq<char>),
}

/// Mathematical form of a plain value of any shape.
pub enum ValueM {
    Prim(PrimM),
    /// An empty optional.
    Nil,
    /// A filled optional.
    Just(Box<ValueM>),
    /// A sequence, a fixed-size array or a tuple.
    List(Seq<ValueM>),
    /// A struct: field names and field values, in declaration order.
    Record(Seq<Seq<char>>, Seq<ValueM>),
    /// An enum in a variant that carries no data.
    Unit(Seq<char>),
    /// An enum in a variant that carries data (a `Record` or a `List`).
    Variant(Seq<char>, Box<ValueM>),
}

/// Mathematical form of an overlay: the value's shape with explicitness bits.
pub enum OverlayM {
    Leaf(PrimM, bool),
    Absent(bool),
    Present(Box<OverlayM>),
    List(Seq<OverlayM>),
    Record(Seq<Seq<char>>, Seq<OverlayM>),
    /// A data-free variant with its presence marker.
    Unit(Seq<char>, bool),
    Variant(Seq<char>, Box<OverlayM>),
}

/// The overlay of `v` with every leaf, absence and marker stamped `b`.
pub open spec fn construct(v: ValueM, b: bool) -> OverlayM
    decreases v,
{
    match v {
        ValueM::Prim(p) => OverlayM::Leaf(p, b),
        ValueM::Nil => OverlayM::Absent(b),
        ValueM::Just(x) => OverlayM::Present(Box::new(construct(*x, b))),
        ValueM::List(s) => OverlayM::List(construct_all(s, b)),
        ValueM::Record(ns, s) => OverlayM::Record(ns, construct_all(s, b)),
        ValueM::Unit(n) => OverlayM::Unit(n, b),
        ValueM::Variant(n, p) => OverlayM::Variant(n, Box::new(construct(*p, b))),
    }
}

pub open spec fn construct_all(s: Seq<ValueM>, b: bool) -> Seq<OverlayM>
    decreases s,
{
    if s.len() == 0 {
        Seq::empty()
    } else {
        construct_all(s.drop_last(), b).push(construct(s.last(), b))
    }
}

/// The plain value that an overlay carries.
pub open spec fn extract(o: OverlayM) -> ValueM
    decreases o,
{
    match o {
        OverlayM::Leaf(p, _) => ValueM::Prim(p),
        OverlayM::Absent(_) => ValueM::Nil,
        OverlayM::Present(x) => ValueM::Just(Box::new(extract(*x))),
        OverlayM::List(s) => ValueM::List(extract_all(s)),
        OverlayM::Record(ns, s) => ValueM::Record(ns, extract_all(s)),
        OverlayM::Unit(n, _) => ValueM::Unit(n),
        OverlayM::Variant(n, p) => ValueM::Variant(n, Box::new(extract(*p))),
    }
}

pub open spec fn extract_all(s: Seq<OverlayM>) -> Seq<ValueM>
    decreases s,
{
    if s.len() == 0 {
        Seq::empty()
    } else {
        extract_all(s.drop_last()).push(extract(s.last()))
    }
}

/// An overlay reports explicit iff some reachable leaf, absence or variant
/// marker is explicit; an empty collection reports implicit.
pub open spec fn explicit(o: OverlayM) -> bool
    decreases o,
{
    match o {
        OverlayM::Leaf(_, b) => b,
        OverlayM::Absent(b) => b,
        OverlayM::Present(x) => explicit(*x),
        OverlayM::List(s) => any_explicit(s),
        OverlayM::Record(_, s) => any_explicit(s),
        OverlayM::Unit(_, b) => b,
        OverlayM::Variant(_, p) => explicit(*p),
    }
}

pub open spec fn any_explicit(s: Seq<OverlayM>) -> bool
    decreases s,
{
    if s.len() == 0 {
        false
    } else {
        any_explicit(s.drop_last()) || explicit(s.last())
    }
}

/// Whether a value holds at least one leaf, absence or data-free variant,
/// that is, a place where an explicitness bit is kept.
pub open spec fn has_slot(v: ValueM) -> bool
    decreases v,
{
    match v {
        ValueM::Prim(_) => true,
        ValueM::Nil => true,
        ValueM::Just(x) => has_slot(*x),
        ValueM::List(s) => any_slot(s),
        ValueM::Record(_, s) => any_slot(s),
        ValueM::Unit(_) => true,
        ValueM::Variant(_, p) => has_slot(*p),
    }
}

pub open spec fn any_slot(s: Seq<ValueM>) -> bool
    decreases s,
{
    if s.len() == 0 {
        false
    } else {
        any_slot(s.drop_last()) || has_slot(s.last())
    }
}

/// Whether every leaf, absence and marker of an overlay is stamped `b`.
pub open spec fn uniform(o: OverlayM, b: bool) -> bool
    decreases o,
{
    match o {
        OverlayM::Leaf(_, f) => f == b,
        OverlayM::Absent(f) => f == b,
        OverlayM::Present(x) => uniform(*x, b),
        OverlayM::List(s) => all_uniform(s, b),
        OverlayM::Record(_, s) => all_uniform(s, b),
        OverlayM::Unit(_, f) => f == b,
        OverlayM::Variant(_, p) => uniform(*p, b),
    }
}

pub open spec fn all_uniform(s: Seq<OverlayM>, b: bool) -> bool
    decreases s,
{
    if s.len() == 0 {
        true
    } else {
        all_uniform(s.drop_last(), b) && uniform(s.last(), b)
    }
}

pub proof fn lemma_construct_all(s: Seq<ValueM>, b: bool)
    ensures
        construct_all(s, b).len() == s.len(),
        forall|i: int| 0 <= i < s.len() ==> #[trigger] construct_all(s, b)[i] == construct(s[i], b),
    decreases s.len(),
{
    if s.len() > 0 {
        lemma_construct_all(s.drop_last(), b);
    }
}

pub proof fn lemma_extract_all(s: Seq<OverlayM>)
    ensures
        extract_all(s).len() == s.len(),
        forall|i: int| 0 <= i < s.len() ==> #[trigger] extract_all(s)[i] == extract(s[i]),
    decreases s.len(),
{
    if s.len() > 0 {
        lemma_extract_all(s.drop_last());
    }
}

pub proof fn lemma_any_explicit(s: Seq<OverlayM>)
    ensures
        any_explicit(s) <==> exists|i: int| 0 <= i < s.len() && #[trigger] explicit(s[i]),
    decreases s.len(),
{
    if s.len() > 0 {
        lemma_any_explicit(s.drop_last());
        if explicit(s.last()) {
            assert(explicit(s[s.len() - 1]));
        }
        if any_explicit(s.drop_last()) {
            let i = choose|i: int| 0 <= i < s.len() - 1 && #[trigger] explicit(s.drop_last()[i]);
            assert(explicit(s[i]));
        }
        if exists|i: int| 0 <= i < s.len() && #[trigger] explicit(s[i]) {
            let i = choose|i: int| 0 <= i < s.len() && #[trigger] explicit(s[i]);
            if i < s.len() - 1 {
                assert(explicit(s.drop_last()[i]));
            }
        }
    }
}

pub proof fn lemma_extract_construct(v: ValueM, b: bool)
    ensures
        extract(construct(v, b)) == v,
    decreases v,
{
    match v {
        ValueM::Just(x) => {
            lemma_extract_construct(*x, b);
        },
        ValueM::List(s) => {
            lemma_extract_construct_all(s, b);
        },
        ValueM::Record(_, s) => {
            lemma_extract_construct_all(s, b);
        },
        ValueM::Variant(_, p) => {
            lemma_extract_construct(*p, b);
        },
        _ => {},
    }
}

pub proof fn lemma_extract_construct_all(s: Seq<ValueM>, b: bool)
    ensures
        extract_all(construct_all(s, b)) == s,
    decreases s,
{
    if s.len() > 0 {
        lemma_extract_construct_all(s.drop_last(), b);
        lemma_extract_construct(s.last(), b);
        let c = construct_all(s, b);
        assert(c.drop_last() =~= construct_all(s.drop_last(), b));
        assert(extract_all(c) =~= s);
    }
}

/// A freshly constructed overlay is stamped uniformly.
pub proof fn lemma_construct_uniform(v: ValueM, b: bool)
    ensures
        uniform(construct(v, b), b),
    decreases v,
{
    match v {
        ValueM::Just(x) => {
            lemma_construct_uniform(*x, b);
        },
        ValueM::List(s) => {
            lemma_construct_uniform_all(s, b);
        },
        ValueM::Record(_, s) => {
            lemma_construct_uniform_all(s, b);
        },
        ValueM::Variant(_, p) => {
            lemma_construct_uniform(*p, b);
        },
        _ => {},
    }
}

pub proof fn lemma_construct_uniform_all(s: Seq<ValueM>, b: bool)
    ensures
        all_uniform(construct_all(s, b), b),
    decreases s,
{
    if s.len() > 0 {
        lemma_construct_uniform_all(s.drop_last(), b);
        lemma_construct_uniform(s.last(), b);
        let c = construct_all(s, b);
        assert(c.drop_last() =~= construct_all(s.drop_last(), b));
    }
}

/// An overlay stamped implicit throughout reports implicit.
pub proof fn lemma_uniform_implicit(o: OverlayM)
    requires
        uniform(o, false),
    ensures
        !explicit(o),
    decreases o,
{
    match o {
        OverlayM::Present(x) => {
            lemma_uniform_implicit(*x);
        },
        OverlayM::List(s) => {
            lemma_uniform_implicit_all(s);
        },
        OverlayM::Record(_, s) => {
            lemma_uniform_implicit_all(s);
        },
        OverlayM::Variant(_, p) => {
            lemma_uniform_implicit(*p);
        },
        _ => {},
    }
}

pub proof fn lemma_uniform_implicit_all(s: Seq<OverlayM>)
    requires
        all_uniform(s, false),
    ensures
        !any_explicit(s),
    decreases s,
{
    if s.len() > 0 {
        lemma_uniform_implicit_all(s.drop_last());
        lemma_uniform_implicit(s.last());
    }
}

/// Stamping a value explicit makes the overlay explicit exactly when the
/// value has somewhere to keep the bit.
pub proof fn lemma_construct_explicit(v: ValueM)
    ensures
        explicit(construct(v, true)) == has_slot(v),
    decreases v,
{
    match v {
        ValueM::Just(x) => {
            lemma_construct_explicit(*x);
        },
        ValueM::List(s) => {
            lemma_construct_explicit_all(s);
        },
        ValueM::Record(_, s) => {
            lemma_construct_explicit_all(s);
        },
        ValueM::Variant(_, p) => {
            lemma_construct_explicit(*p);
        },
        _ => {},
    }
}

pub proof fn lemma_construct_explicit_all(s: Seq<ValueM>)
    ensures
        any_explicit(construct_all(s, true)) == any_slot(s),
    decreases s,
{
    if s.len() > 0 {
        lemma_construct_explicit_all(s.drop_last());
        lemma_construct_explicit(s.last());
        let c = construct_all(s, true);
        assert(c.drop_last() =~= construct_all(s.drop_last(), true));
    }
}

/// Extracting the value of a uniformly stamped overlay and stamping it again
/// at the same flag rebuilds the same overlay.
pub proof fn lemma_construct_extract(o: OverlayM, b: bool)
    requires
        uniform(o, b),
    ensures
        construct(extract(o), b) == o,
    decreases o,
{
    match o {
        OverlayM::Present(x) => {
            lemma_construct_extract(*x, b);
        },
        OverlayM::List(s) => {
            lemma_construct_extract_all(s, b);
        },
        OverlayM::Record(_, s) => {
            lemma_construct_extract_all(s, b);
        },
        OverlayM::Variant(_, p) => {
            lemma_construct_extract(*p, b);
        },
        _ => {},
    }
}

pub proof fn lemma_construct_extract_all(s: Seq<OverlayM>, b: bool)
    requires
        all_uniform(s, b),
    ensures
        construct_all(extract_all(s), b) == s,
    decreases s,
{
    if s.len() > 0 {
        lemma_construct_extract_all(s.drop_last(), b);
        lemma_construct_extract(s.last(), b);
        let e = extract_all(s);
        assert(e.drop_last() =~= extract_all(s.drop_last()));
        assert(construct_all(e, b) =~= s);
    }
}

} // verus!
