use vstd::prelude::*;

use crate::model::{construct, explicit, OverlayM, PrimM, ValueM};
use crate::value::{string_views, value_views, Value};

verus! {

/// Mathematical form of a wire document.
pub enum DocM {
    Null,
    Int(int),
    Str(Seq<char>),
    Arr(Seq<DocM>),
    /// An object: keys and values, in order.
    Obj(Seq<Seq<char>>, Seq<DocM>),
}

/// A wire document: the object/array/string/number tree that a host
/// serialization library reads and writes.
#[derive(Debug, PartialEq, Eq)]
pub enum Doc {
    Null,
    Int(i64),
    Str(String),
    Arr(Vec<Doc>),
    Obj(Vec<String>, Vec<Doc>),
}

pub open spec fn doc_view(d: Doc) -> DocM
    decreases d,
{
    match d {
        Doc::Null => DocM::Null,
        Doc::Int(i) => DocM::Int(i as int),
        Doc::Str(s) => DocM::Str(s@),
        Doc::Arr(s) => DocM::Arr(doc_views(s@)),
        Doc::Obj(ks, s) => DocM::Obj(string_views(ks@), doc_views(s@)),
    }
}

pub open spec fn doc_views(s: Seq<Doc>) -> Seq<DocM>
    decreases s,
{
    if s.len() == 0 {
        Seq::empty()
    } else {
        doc_views(s.drop_last()).push(doc_view(s.last()))
    }
}

impl View for Doc {
    type V = DocM;

    open spec fn view(&self) -> DocM {
        doc_view(*self)
    }
}

pub proof fn lemma_doc_views(s: Seq<Doc>)
    ensures
        doc_views(s).len() == s.len(),
        forall|i: int| 0 <= i < s.len() ==> #[trigger] doc_views(s)[i] == s[i]@,
    decreases s.len(),
{
    if s.len() > 0 {
        lemma_doc_views(s.drop_last());
    }
}

/// The document of a primitive value.
pub open spec fn prim_doc(p: PrimM) -> DocM {
    match p {
        PrimM::U32(x) => DocM::Int(x as int),
        PrimM::I32(x) => DocM::Int(x as int),
        PrimM::I64(x) => DocM::Int(x as int),
        PrimM::Str(s) => DocM::Str(s),
    }
}

/// The encoding of an overlay. An implicit leaf and an absent optional give
/// `Null`; a struct keeps only its explicit fields; a data-free variant is its
/// bare name; a data-carrying variant is a one-key object whose value is its
/// fields (an object for named fields, the single value for one positional
/// field, an array for several).
pub open spec fn encode(o: OverlayM) -> DocM
    decreases o,
{
    match o {
        OverlayM::Leaf(p, b) => if b {
            prim_doc(p)
        } else {
            DocM::Null
        },
        OverlayM::Absent(_) => DocM::Null,
        OverlayM::Present(x) => encode(*x),
        OverlayM::List(s) => DocM::Arr(encode_all(s)),
        OverlayM::Record(ns, s) => DocM::Obj(field_keys(ns, s), field_docs(s)),
        OverlayM::Unit(n, _) => DocM::Str(n),
        OverlayM::Variant(n, p) => DocM::Obj(
            seq![n],
            seq![
                match *p {
                    OverlayM::List(s) => if s.len() == 1 {
                        encode(s[0])
                    } else {
                        DocM::Arr(encode_all(s))
                    },
                    OverlayM::Record(ns, s) => DocM::Obj(ns, encode_all(s)),
                    _ => encode(*p),
                },
            ],
        ),
    }
}

pub open spec fn encode_all(s: Seq<OverlayM>) -> Seq<DocM>
    decreases s,
{
    if s.len() == 0 {
        Seq::empty()
    } else {
        encode_all(s.drop_last()).push(encode(s.last()))
    }
}

/// The name of field `i`; a field without a name has the empty one.
pub open spec fn key_at(ns: Seq<Seq<char>>, i: int) -> Seq<char> {
    if 0 <= i < ns.len() {
        ns[i]
    } else {
        Seq::empty()
    }
}

/// The keys of the explicit fields, in order.
pub open spec fn field_keys(ns: Seq<Seq<char>>, s: Seq<OverlayM>) -> Seq<Seq<char>>
    decreases s.len(),
{
    if s.len() == 0 {
        Seq::empty()
    } else if explicit(s.last()) {
        field_keys(ns, s.drop_last()).push(key_at(ns, s.len() - 1))
    } else {
        field_keys(ns, s.drop_last())
    }
}

/// The encodings of the explicit fields, in order.
pub open spec fn field_docs(s: Seq<OverlayM>) -> Seq<DocM>
    decreases s,
{
    if s.len() == 0 {
        Seq::empty()
    } else if explicit(s.last()) {
        field_docs(s.drop_last()).push(encode(s.last()))
    } else {
        field_docs(s.drop_last())
    }
}

/// The primitive types.
#[derive(PartialEq, Eq, Debug, Clone, Copy)]
pub enum PrimKind {
    U32,
    I32,
    I64,
    Str,
}

/// Mathematical form of a type description.
pub enum TyM {
    Prim(PrimKind),
    Opt(Box<TyM>),
    Sequence(Box<TyM>),
    Array(Box<TyM>, nat),
    Tuple(Seq<TyM>),
    /// Field names, field types and the struct's default field values.
    Record(Seq<Seq<char>>, Seq<TyM>, Seq<ValueM>),
    /// Variant names and the type of each variant's data: `Unit` for a
    /// data-free variant, `Tuple` for positional fields, `Record` for named
    /// ones.
    Enum(Seq<Seq<char>>, Seq<TyM>),
    /// What a data-free variant carries.
    Unit,
}

/// The description of a value type, which decoding follows.
#[derive(Debug, PartialEq, Eq)]
pub enum Ty {
    Prim(PrimKind),
    Opt(Box<Ty>),
    Sequence(Box<Ty>),
    Array(Box<Ty>, usize),
    Tuple(Vec<Ty>),
    Record(Vec<String>, Vec<Ty>, Vec<Value>),
    Enum(Vec<String>, Vec<Ty>),
    Unit,
}

pub open spec fn ty_view(t: Ty) -> TyM
    decreases t,
{
    match t {
        Ty::Prim(k) => TyM::Prim(k),
        Ty::Opt(x) => TyM::Opt(Box::new(ty_view(*x))),
        Ty::Sequence(x) => TyM::Sequence(Box::new(ty_view(*x))),
        Ty::Array(x, n) => TyM::Array(Box::new(ty_view(*x)), n as nat),
        Ty::Tuple(s) => TyM::Tuple(ty_views(s@)),
        Ty::Record(ns, s, ds) => TyM::Record(string_views(ns@), ty_views(s@), value_views(ds@)),
        Ty::Enum(ns, s) => TyM::Enum(string_views(ns@), ty_views(s@)),
        Ty::Unit => TyM::Unit,
    }
}

pub open spec fn ty_views(s: Seq<Ty>) -> Seq<TyM>
    decreases s,
{
    if s.len() == 0 {
        Seq::empty()
    } else {
        ty_views(s.drop_last()).push(ty_view(s.last()))
    }
}

impl View for Ty {
    type V = TyM;

    open spec fn view(&self) -> TyM {
        ty_view(*self)
    }
}

pub proof fn lemma_ty_views(s: Seq<Ty>)
    ensures
        ty_views(s).len() == s.len(),
        forall|i: int| 0 <= i < s.len() ==> #[trigger] ty_views(s)[i] == s[i]@,
    decreases s.len(),
{
    if s.len() > 0 {
        lemma_ty_views(s.drop_last());
    }
}

/// Whether a type description is well formed: a struct has one name, one
/// type and one default per field, and an enum one name per variant.
pub open spec fn well_formed(t: TyM) -> bool
    decreases t,
{
    match t {
        TyM::Prim(_) => true,
        TyM::Opt(x) => well_formed(*x),
        TyM::Sequence(x) => well_formed(*x),
        TyM::Array(x, _) => well_formed(*x),
        TyM::Tuple(ts) => all_well_formed(ts),
        TyM::Record(ns, ts, defs) => ns.len() == ts.len() && defs.len() == ts.len()
            && all_well_formed(ts),
        TyM::Enum(names, pts) => names.len() == pts.len() && all_well_formed(pts),
        TyM::Unit => true,
    }
}

pub open spec fn all_well_formed(s: Seq<TyM>) -> bool
    decreases s,
{
    if s.len() == 0 {
        true
    } else {
        all_well_formed(s.drop_last()) && well_formed(s.last())
    }
}

pub proof fn lemma_all_well_formed(s: Seq<TyM>)
    ensures
        all_well_formed(s) <==> forall|i: int| 0 <= i < s.len() ==> #[trigger] well_formed(s[i]),
    decreases s.len(),
{
    if s.len() > 0 {
        lemma_all_well_formed(s.drop_last());
        if all_well_formed(s) {
            assert forall|i: int| 0 <= i < s.len() implies #[trigger] well_formed(s[i]) by {
                if i < s.len() - 1 {
                    assert(well_formed(s.drop_last()[i]));
                }
            }
        }
        if forall|i: int| 0 <= i < s.len() ==> #[trigger] well_formed(s[i]) {
            assert forall|i: int| 0 <= i < s.len() - 1 implies #[trigger] well_formed(
                s.drop_last()[i],
            ) by {
                assert(well_formed(s[i]));
            }
            assert(well_formed(s[s.len() - 1]));
        }
    }
}

/// Why a document does not decode.
#[derive(PartialEq, Eq, Debug, Clone, Copy)]
pub enum WireError {
    /// The document's shape does not match the expected leaf, collection or
    /// object.
    FormatMismatch,
    /// A tag or key names no declared variant.
    UnknownVariant,
    /// A data-carrying variant's map has no key or several, or the wrong
    /// number of fields.
    MalformedVariantEncoding,
    /// A fixed-size collection or a tuple has the wrong number of elements.
    LengthMismatch,
}

/// The primitive of kind `k` that a document holds, if it holds one.
pub open spec fn prim_of(k: PrimKind, d: DocM) -> Option<PrimM> {
    match d {
        DocM::Int(i) => match k {
            PrimKind::U32 => if 0 <= i <= u32::MAX {
                Some(PrimM::U32(i as u32))
            } else {
                None
            },
            PrimKind::I32 => if i32::MIN <= i <= i32::MAX {
                Some(PrimM::I32(i as i32))
            } else {
                None
            },
            PrimKind::I64 => if i64::MIN <= i <= i64::MAX {
                Some(PrimM::I64(i as i64))
            } else {
                None
            },
            PrimKind::Str => None,
        },
        DocM::Str(s) => match k {
            PrimKind::Str => Some(PrimM::Str(s)),
            _ => None,
        },
        _ => None,
    }
}

/// The index of the first occurrence of `k` in `keys`, or -1.
pub open spec fn key_index(keys: Seq<Seq<char>>, k: Seq<char>) -> int
    decreases keys.len(),
{
    if keys.len() == 0 {
        -1
    } else {
        let r = key_index(keys.drop_last(), k);
        if r >= 0 {
            r
        } else if keys.last() == k {
            keys.len() - 1
        } else {
            -1
        }
    }
}

pub proof fn lemma_key_index_range(keys: Seq<Seq<char>>, k: Seq<char>)
    ensures
        -1 <= key_index(keys, k) < keys.len(),
        key_index(keys, k) >= 0 ==> keys[key_index(keys, k)] == k,
    decreases keys.len(),
{
    if keys.len() > 0 {
        lemma_key_index_range(keys.drop_last(), k);
    }
}

/// The default of field `i`.
pub open spec fn default_at(defs: Seq<ValueM>, i: int) -> ValueM {
    if 0 <= i < defs.len() {
        defs[i]
    } else {
        ValueM::Nil
    }
}

/// Decoding a document against a type. Every present token decodes
/// explicit; a struct field whose key is missing takes the struct's default
/// for it, implicit; keys that name no field are passed over.
pub open spec fn decode(t: TyM, d: DocM) -> Result<OverlayM, WireError>
    decreases d, t,
{
    match t {
        TyM::Prim(k) => match prim_of(k, d) {
            Some(p) => Ok(OverlayM::Leaf(p, true)),
            None => Err(WireError::FormatMismatch),
        },
        TyM::Opt(inner) => if d is Null {
            Ok(OverlayM::Absent(true))
        } else {
            match decode(*inner, d) {
                Ok(x) => Ok(OverlayM::Present(Box::new(x))),
                Err(e) => Err(e),
            }
        },
        TyM::Sequence(inner) => match d {
            DocM::Arr(items) => match decode_list(*inner, items) {
                Ok(s) => Ok(OverlayM::List(s)),
                Err(e) => Err(e),
            },
            _ => Err(WireError::FormatMismatch),
        },
        TyM::Array(inner, n) => match d {
            DocM::Arr(items) => if items.len() != n {
                Err(WireError::LengthMismatch)
            } else {
                match decode_list(*inner, items) {
                    Ok(s) => Ok(OverlayM::List(s)),
                    Err(e) => Err(e),
                }
            },
            _ => Err(WireError::FormatMismatch),
        },
        TyM::Tuple(ts) => match d {
            DocM::Arr(items) => if items.len() != ts.len() {
                Err(WireError::LengthMismatch)
            } else {
                match decode_tuple(ts, items) {
                    Ok(s) => Ok(OverlayM::List(s)),
                    Err(e) => Err(e),
                }
            },
            _ => Err(WireError::FormatMismatch),
        },
        TyM::Record(ns, ts, defs) => match d {
            DocM::Obj(keys, docs) => match decode_fields(ns, ts, defs, keys, docs) {
                Ok(s) => Ok(OverlayM::Record(ns, s)),
                Err(e) => Err(e),
            },
            _ => Err(WireError::FormatMismatch),
        },
        TyM::Enum(names, pts) => match d {
            DocM::Str(n) => {
                let i = key_index(names, n);
                if i < 0 || i >= pts.len() {
                    Err(WireError::UnknownVariant)
                } else if pts[i] is Unit {
                    Ok(OverlayM::Unit(n, true))
                } else {
                    Err(WireError::MalformedVariantEncoding)
                }
            },
            DocM::Obj(keys, docs) => if keys.len() != 1 || docs.len() != 1 {
                Err(WireError::MalformedVariantEncoding)
            } else {
                let n = keys[0];
                let i = key_index(names, n);
                if i < 0 || i >= pts.len() {
                    Err(WireError::UnknownVariant)
                } else {
                    match pts[i] {
                        TyM::Unit => Ok(OverlayM::Unit(n, true)),
                        TyM::Tuple(ts) => if ts.len() == 1 {
                            match decode(ts[0], docs[0]) {
                                Ok(x) => Ok(OverlayM::Variant(n, Box::new(OverlayM::List(seq![x])))),
                                Err(e) => Err(e),
                            }
                        } else {
                            match docs[0] {
                                DocM::Arr(items) => if items.len() != ts.len() {
                                    Err(WireError::MalformedVariantEncoding)
                                } else {
                                    match decode_tuple(ts, items) {
                                        Ok(s) => Ok(
                                            OverlayM::Variant(n, Box::new(OverlayM::List(s))),
                                        ),
                                        Err(e) => Err(e),
                                    }
                                },
                                _ => Err(WireError::MalformedVariantEncoding),
                            }
                        },
                        _ => match decode(pts[i], docs[0]) {
                            Ok(x) => Ok(OverlayM::Variant(n, Box::new(x))),
                            Err(e) => Err(e),
                        },
                    }
                }
            },
            _ => Err(WireError::FormatMismatch),
        },
        TyM::Unit => Err(WireError::FormatMismatch),
    }
}

/// Decoding each item against one type; the first failure wins.
pub open spec fn decode_list(t: TyM, items: Seq<DocM>) -> Result<Seq<OverlayM>, WireError>
    decreases items, t,
{
    if items.len() == 0 {
        Ok(Seq::empty())
    } else {
        match decode_list(t, items.drop_last()) {
            Ok(s) => match decode(t, items.last()) {
                Ok(x) => Ok(s.push(x)),
                Err(e) => Err(e),
            },
            Err(e) => Err(e),
        }
    }
}

/// Decoding item `i` against type `i`; the first failure wins.
pub open spec fn decode_tuple(ts: Seq<TyM>, items: Seq<DocM>) -> Result<Seq<OverlayM>, WireError>
    decreases items, ts,
{
    if ts.len() == 0 || items.len() == 0 {
        Ok(Seq::empty())
    } else {
        match decode_tuple(ts.drop_last(), items.drop_last()) {
            Ok(s) => match decode(ts.last(), items.last()) {
                Ok(x) => Ok(s.push(x)),
                Err(e) => Err(e),
            },
            Err(e) => Err(e),
        }
    }
}

/// Decoding the fields of a struct from an object, in declaration order.
pub open spec fn decode_fields(
    ns: Seq<Seq<char>>,
    ts: Seq<TyM>,
    defs: Seq<ValueM>,
    keys: Seq<Seq<char>>,
    docs: Seq<DocM>,
) -> Result<Seq<OverlayM>, WireError>
    decreases docs, ts,
{
    if ts.len() == 0 {
        Ok(Seq::empty())
    } else {
        let k = ts.len() - 1;
        match decode_fields(ns, ts.drop_last(), defs, keys, docs) {
            Ok(s) => {
                let j = key_index(keys, key_at(ns, k));
                if 0 <= j < docs.len() {
                    match decode(ts[k], docs[j]) {
                        Ok(x) => Ok(s.push(x)),
                        Err(e) => Err(e),
                    }
                } else {
                    Ok(s.push(construct(default_at(defs, k), false)))
                }
            },
            Err(e) => Err(e),
        }
    }
}

} // verus!
