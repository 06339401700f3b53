use vstd::prelude::*;

use crate::model::{PrimM, ValueM};

verus! {

/// A primitive value: the types that a leaf overlay wraps whole.
#[derive(Debug, PartialEq, Eq)]
pub enum Prim {
    U32(u32),
    I32(i32),
    I64(i64),
    Str(String),
}

impl View for Prim {
    type V = PrimM;

    open spec fn view(&self) -> PrimM {
        match self {
            Prim::U32(x) => PrimM::U32(*x),
            Prim::I32(x) => PrimM::I32(*x),
            Prim::I64(x) => PrimM::I64(*x),
            Prim::Str(s) => PrimM::Str(s@),
        }
    }
}

impl Prim {
    /// A copy of the primitive.
    pub fn duplicate(&self) -> (r: Prim)
        ensures
            r@ == self@,
    {
        match self {
            Prim::U32(x) => Prim::U32(*x),
            Prim::I32(x) => Prim::I32(*x),
            Prim::I64(x) => Prim::I64(*x),
            Prim::Str(s) => Prim::Str(s.clone()),
        }
    }
}

/// A plain value of any shape, described at run time.
#[derive(Debug, PartialEq, Eq)]
pub enum Value {
    Prim(Prim),
    /// An empty optional.
    Nil,
    /// A filled optional.
    Just(Box<Value>),
    /// A sequence, a fixed-size array or a tuple.
    List(Vec<Value>),
    /// A struct: field names and field values, in declaration order.
    Record(Vec<String>, Vec<Value>),
    /// An enum in a variant that carries no data.
    Unit(String),
    /// An enum in a variant that carries data: its name and its fields (a
    /// `Record` for named fields, a `List` for positional ones).
    Variant(String, Box<Value>),
}

pub open spec fn value_view(v: Value) -> ValueM
    decreases v,
{
    match v {
        Value::Prim(p) => ValueM::Prim(p@),
        Value::Nil => ValueM::Nil,
        Value::Just(x) => ValueM::Just(Box::new(value_view(*x))),
        Value::List(s) => ValueM::List(value_views(s@)),
        Value::Record(ns, s) => ValueM::Record(string_views(ns@), value_views(s@)),
        Value::Unit(n) => ValueM::Unit(n@),
        Value::Variant(n, p) => ValueM::Variant(n@, Box::new(value_view(*p))),
    }
}

pub open spec fn value_views(s: Seq<Value>) -> Seq<ValueM>
    decreases s,
{
    if s.len() == 0 {
        Seq::empty()
    } else {
        value_views(s.drop_last()).push(value_view(s.last()))
    }
}

/// The character sequences of a sequence of strings.
pub open spec fn string_views(s: Seq<String>) -> Seq<Seq<char>> {
    s.map_values(|x: String| x@)
}

impl View for Value {
    type V = ValueM;

    open spec fn view(&self) -> ValueM {
        value_view(*self)
    }
}

pub proof fn lemma_value_views(s: Seq<Value>)
    ensures
        value_views(s).len() == s.len(),
        forall|i: int| 0 <= i < s.len() ==> #[trigger] value_views(s)[i] == s[i]@,
    decreases s.len(),
{
    if s.len() > 0 {
        lemma_value_views(s.drop_last());
    }
}

/// Copies a sequence of strings.
pub fn copy_strings(s: &Vec<String>) -> (r: Vec<String>)
    ensures
        string_views(r@) == string_views(s@),
        r@.len() == s@.len(),
{
    let mut r: Vec<String> = Vec::new();
    let mut i: usize = 0;
    while i < s.len()
        invariant
            i <= s.len(),
            r@.len() == i,
            forall|j: int| 0 <= j < i ==> #[trigger] r@[j]@ == s@[j]@,
        decreases s.len() - i,
    {
        r.push(s[i].clone());
        i += 1;
    }
    assert(string_views(r@) =~= string_views(s@));
    r
}

impl Value {
    /// A copy of the value.
    pub fn duplicate(&self) -> (r: Value)
        ensures
            r@ == self@,
        decreases self,
    {
        match self {
            Value::Prim(p) => Value::Prim(p.duplicate()),
            Value::Nil => Value::Nil,
            Value::Just(x) => Value::Just(Box::new((**x).duplicate())),
            Value::List(s) => Value::List(duplicate_all(s)),
            Value::Record(ns, s) => Value::Record(copy_strings(ns), duplicate_all(s)),
            Value::Unit(n) => Value::Unit(n.clone()),
            Value::Variant(n, p) => Value::Variant(n.clone(), Box::new((**p).duplicate())),
        }
    }
}

fn duplicate_all(s: &Vec<Value>) -> (r: Vec<Value>)
    ensures
        value_views(r@) == value_views(s@),
    decreases s,
{
    let mut r: Vec<Value> = Vec::new();
    let mut i: usize = 0;
    while i < s.len()
        invariant
            i <= s.len(),
            r@.len() == i,
            forall|j: int| 0 <= j < i ==> #[trigger] r@[j]@ == s@[j]@,
        decreases s.len() - i,
    {
        proof {
            vstd::std_specs::vec::axiom_vec_index_decreases(*s, i as int);
        }
        let x = s[i].duplicate();
        r.push(x);
        i += 1;
    }
    proof {
        lemma_value_views(r@);
        lemma_value_views(s@);
        assert(value_views(r@) =~= value_views(s@));
    }
    r
}

} // verus!
