use vstd::prelude::*;

use crate::model::{OverlayM, ValueM};
use crate::option::OptionImpex;
use crate::overlay::{lemma_overlay_views, overlay_views, Overlay, VariantMarker};
use crate::strategy::LeafOverlay;
use crate::value::{copy_strings, lemma_value_views, string_views, value_views, Prim, Value};
use crate::wire::{
    decode, decode_fields, decode_list, decode_tuple, doc_views, key_at, key_index,
    lemma_all_well_formed, lemma_doc_views, lemma_key_index_range, lemma_ty_views,
    all_well_formed, well_formed, prim_of, ty_views, Doc, DocM, PrimKind, Ty, TyM, WireError,
};

verus! {

pub open spec fn result_view<L: LeafOverlay>(r: Result<Overlay<L>, WireError>) -> Result<OverlayM, WireError> {
    match r {
        Ok(o) => Ok(o@),
        Err(e) => Err(e),
    }
}

pub open spec fn results_view<L: LeafOverlay>(r: Result<Vec<Overlay<L>>, WireError>) -> Result<
    Seq<OverlayM>,
    WireError,
> {
    match r {
        Ok(v) => Ok(overlay_views(v@)),
        Err(e) => Err(e),
    }
}

proof fn lemma_key_index_prefix(keys: Seq<Seq<char>>, k: Seq<char>, i: int)
    requires
        0 <= i <= keys.len(),
        key_index(keys.take(i), k) >= 0,
    ensures
        key_index(keys, k) == key_index(keys.take(i), k),
    decreases keys.len(),
{
    if i == keys.len() {
        assert(keys.take(i) =~= keys);
    } else {
        assert(keys.drop_last().take(i) =~= keys.take(i));
        lemma_key_index_prefix(keys.drop_last(), k, i);
    }
}

/// Finds the first position of `k` in `keys`.
fn find_key(keys: &Vec<String>, k: &String) -> (r: Option<usize>)
    ensures
        match r {
            Some(j) => key_index(string_views(keys@), k@) == j as int,
            None => key_index(string_views(keys@), k@) == -1,
        },
{
    let ghost sv = string_views(keys@);
    let mut i: usize = 0;
    while i < keys.len()
        invariant
            i <= keys.len(),
            sv == string_views(keys@),
            key_index(sv.take(i as int), k@) == -1,
        decreases keys.len() - i,
    {
        proof {
            assert(sv.take(i as int + 1).drop_last() =~= sv.take(i as int));
        }
        if keys[i] == *k {
            proof {
                lemma_key_index_prefix(sv, k@, i as int + 1);
            }
            return Some(i);
        }
        i += 1;
    }
    proof {
        assert(sv.take(keys.len() as int) =~= sv);
    }
    None
}

fn prim_from_doc(k: PrimKind, d: &Doc) -> (r: Option<Prim>)
    ensures
        match r {
            Some(p) => prim_of(k, d@) == Some(p@),
            None => prim_of(k, d@) is None,
        },
{
    match d {
        Doc::Int(i) => match k {
            PrimKind::U32 => if 0 <= *i && *i <= 4294967295 {
                Some(Prim::U32(*i as u32))
            } else {
                None
            },
            PrimKind::I32 => if -2147483648 <= *i && *i <= 2147483647 {
                Some(Prim::I32(*i as i32))
            } else {
                None
            },
            PrimKind::I64 => Some(Prim::I64(*i)),
            PrimKind::Str => None,
        },
        Doc::Str(s) => match k {
            PrimKind::Str => Some(Prim::Str(s.clone())),
            _ => None,
        },
        _ => None,
    }
}

proof fn lemma_decode_list_prefix(t: TyM, s: Seq<DocM>, i: int)
    requires
        0 <= i <= s.len(),
        decode_list(t, s.take(i)) is Err,
    ensures
        decode_list(t, s) == decode_list(t, s.take(i)),
    decreases s.len(),
{
    if i == s.len() {
        assert(s.take(i) =~= s);
    } else {
        assert(s.drop_last().take(i) =~= s.take(i));
        lemma_decode_list_prefix(t, s.drop_last(), i);
    }
}

proof fn lemma_decode_tuple_prefix(ts: Seq<TyM>, s: Seq<DocM>, i: int)
    requires
        ts.len() == s.len(),
        0 <= i <= s.len(),
        decode_tuple(ts.take(i), s.take(i)) is Err,
    ensures
        decode_tuple(ts, s) == decode_tuple(ts.take(i), s.take(i)),
    decreases s.len(),
{
    if i == s.len() {
        assert(s.take(i) =~= s);
        assert(ts.take(i) =~= ts);
    } else {
        assert(s.drop_last().take(i) =~= s.take(i));
        assert(ts.drop_last().take(i) =~= ts.take(i));
        lemma_decode_tuple_prefix(ts.drop_last(), s.drop_last(), i);
    }
}

proof fn lemma_decode_fields_prefix(
    ns: Seq<Seq<char>>,
    ts: Seq<TyM>,
    defs: Seq<ValueM>,
    keys: Seq<Seq<char>>,
    docs: Seq<DocM>,
    i: int,
)
    requires
        0 <= i <= ts.len(),
        decode_fields(ns, ts.take(i), defs, keys, docs) is Err,
    ensures
        decode_fields(ns, ts, defs, keys, docs) == decode_fields(ns, ts.take(i), defs, keys, docs),
    decreases ts.len(),
{
    if i == ts.len() {
        assert(ts.take(i) =~= ts);
    } else {
        assert(ts.drop_last().take(i) =~= ts.take(i));
        lemma_decode_fields_prefix(ns, ts.drop_last(), defs, keys, docs, i);
    }
}

impl Ty {
    /// Whether the description is well formed; see `well_formed`.
    pub fn is_well_formed(&self) -> (r: bool)
        ensures
            r == well_formed(self@),
        decreases self,
    {
        match self {
            Ty::Prim(_) => true,
            Ty::Opt(x) => (**x).is_well_formed(),
            Ty::Sequence(x) => (**x).is_well_formed(),
            Ty::Array(x, _) => (**x).is_well_formed(),
            Ty::Tuple(ts) => all_are_well_formed(ts),
            Ty::Record(ns, ts, defs) => {
                proof {
                    lemma_ty_views(ts@);
                    lemma_value_views(defs@);
                }
                ns.len() == ts.len() && defs.len() == ts.len() && all_are_well_formed(ts)
            },
            Ty::Enum(names, pts) => {
                proof {
                    lemma_ty_views(pts@);
                }
                names.len() == pts.len() && all_are_well_formed(pts)
            },
            Ty::Unit => true,
        }
    }

    /// Decodes a document against this type; see `decode`.
    pub fn decode(&self, doc: &Doc) -> (r: Result<Overlay, WireError>)
        ensures
            result_view(r) == decode(self@, doc@),
    {
        self.decode_as(doc)
    }

    /// Decodes a document against this type, with leaves of representation
    /// `L`.
    pub fn decode_as<L: LeafOverlay>(&self, doc: &Doc) -> (r: Result<Overlay<L>, WireError>)
        ensures
            result_view(r) == decode(self@, doc@),
        decreases doc, self,
    {
        match self {
            Ty::Prim(k) => match prim_from_doc(*k, doc) {
                Some(p) => Ok(Overlay::Leaf(L::create(p, true))),
                None => Err(WireError::FormatMismatch),
            },
            Ty::Opt(inner) => match doc {
                Doc::Null => Ok(Overlay::Opt(OptionImpex::Absent(true))),
                _ => match (**inner).decode_as(doc) {
                    Ok(x) => Ok(Overlay::Opt(OptionImpex::Present(Box::new(x)))),
                    Err(e) => Err(e),
                },
            },
            Ty::Sequence(inner) => match doc {
                Doc::Arr(items) => match decode_items(&**inner, items) {
                    Ok(s) => Ok(Overlay::List(s)),
                    Err(e) => Err(e),
                },
                _ => Err(WireError::FormatMismatch),
            },
            Ty::Array(inner, n) => match doc {
                Doc::Arr(items) => {
                    proof {
                        lemma_doc_views(items@);
                    }
                    if items.len() != *n {
                        Err(WireError::LengthMismatch)
                    } else {
                        match decode_items(&**inner, items) {
                            Ok(s) => Ok(Overlay::List(s)),
                            Err(e) => Err(e),
                        }
                    }
                },
                _ => Err(WireError::FormatMismatch),
            },
            Ty::Tuple(ts) => match doc {
                Doc::Arr(items) => {
                    proof {
                        lemma_doc_views(items@);
                        lemma_ty_views(ts@);
                    }
                    if items.len() != ts.len() {
                        Err(WireError::LengthMismatch)
                    } else {
                        match decode_positional(ts, items) {
                            Ok(s) => Ok(Overlay::List(s)),
                            Err(e) => Err(e),
                        }
                    }
                },
                _ => Err(WireError::FormatMismatch),
            },
            Ty::Record(ns, ts, defs) => match doc {
                Doc::Obj(keys, docs) => match decode_record(ns, ts, defs, keys, docs) {
                    Ok(s) => Ok(Overlay::Record(copy_strings(ns), s)),
                    Err(e) => Err(e),
                },
                _ => Err(WireError::FormatMismatch),
            },
            Ty::Enum(names, pts) => decode_enum(names, pts, doc),
            Ty::Unit => Err(WireError::FormatMismatch),
        }
    }
}

fn all_are_well_formed(ts: &Vec<Ty>) -> (r: bool)
    ensures
        r == all_well_formed(ty_views(ts@)),
    decreases ts,
{
    let mut i: usize = 0;
    while i < ts.len()
        invariant
            i <= ts.len(),
            forall|j: int| 0 <= j < i ==> #[trigger] well_formed(ts@[j]@),
        decreases ts.len() - i,
    {
        proof {
            vstd::std_specs::vec::axiom_vec_index_decreases(*ts, i as int);
        }
        if !ts[i].is_well_formed() {
            proof {
                lemma_ty_views(ts@);
                lemma_all_well_formed(ty_views(ts@));
                assert(!well_formed(ty_views(ts@)[i as int]));
            }
            return false;
        }
        i += 1;
    }
    proof {
        lemma_ty_views(ts@);
        lemma_all_well_formed(ty_views(ts@));
        assert forall|j: int| 0 <= j < ts@.len() implies #[trigger] well_formed(
            ty_views(ts@)[j],
        ) by {
            assert(well_formed(ts@[j]@));
        }
    }
    true
}

fn decode_enum<L: LeafOverlay>(names: &Vec<String>, pts: &Vec<Ty>, doc: &Doc) -> (r: Result<
    Overlay<L>,
    WireError,
>)
    ensures
        result_view(r) == decode(TyM::Enum(string_views(names@), ty_views(pts@)), doc@),
    decreases doc, pts,
{
    proof {
        lemma_ty_views(pts@);
    }
    match doc {
        Doc::Str(n) => {
            match find_key(names, n) {
                Some(i) => {
                    if i >= pts.len() {
                        Err(WireError::UnknownVariant)
                    } else {
                        match &pts[i] {
                            Ty::Unit => Ok(
                                Overlay::Unit(n.clone(), VariantMarker { is_explicit: true }),
                            ),
                            _ => Err(WireError::MalformedVariantEncoding),
                        }
                    }
                },
                None => Err(WireError::UnknownVariant),
            }
        },
        Doc::Obj(keys, docs) => decode_variant_map(names, pts, keys, docs),
        _ => Err(WireError::FormatMismatch),
    }
}

fn decode_variant_map<L: LeafOverlay>(
    names: &Vec<String>,
    pts: &Vec<Ty>,
    keys: &Vec<String>,
    docs: &Vec<Doc>,
) -> (r: Result<Overlay<L>, WireError>)
    ensures
        result_view(r) == decode(
            TyM::Enum(string_views(names@), ty_views(pts@)),
            DocM::Obj(string_views(keys@), doc_views(docs@)),
        ),
    decreases docs, pts,
{
    proof {
        lemma_ty_views(pts@);
        lemma_doc_views(docs@);
    }
    if keys.len() != 1 || docs.len() != 1 {
        return Err(WireError::MalformedVariantEncoding);
    }
    let n = &keys[0];
    proof {
        assert(string_views(keys@)[0] == n@);
        vstd::std_specs::vec::axiom_vec_index_decreases(*docs, 0);
    }
    let i = match find_key(names, n) {
        Some(i) => i,
        None => return Err(WireError::UnknownVariant),
    };
    if i >= pts.len() {
        return Err(WireError::UnknownVariant);
    }
    match &pts[i] {
        Ty::Unit => Ok(Overlay::Unit(n.clone(), VariantMarker { is_explicit: true })),
        Ty::Tuple(ts) => {
            proof {
                lemma_ty_views(ts@);
                assert(ty_views(pts@)[i as int] == TyM::Tuple(ty_views(ts@)));
            }
            if ts.len() == 1 {
                let x = match ts[0].decode_as(&docs[0]) {
                    Ok(x) => x,
                    Err(e) => return Err(e),
                };
                let mut s: Vec<Overlay<L>> = Vec::new();
                s.push(x);
                proof {
                    lemma_overlay_views(s@);
                    assert(overlay_views(s@) =~= seq![x@]);
                }
                let payload = Overlay::List(s);
                assert(payload@ == OverlayM::List(seq![x@]));
                Ok(Overlay::Variant(n.clone(), Box::new(payload)))
            } else {
                match &docs[0] {
                    Doc::Arr(items) => {
                        proof {
                            lemma_doc_views(items@);
                        }
                        if items.len() != ts.len() {
                            return Err(WireError::MalformedVariantEncoding);
                        }
                        let s = match decode_positional(ts, items) {
                            Ok(s) => s,
                            Err(e) => return Err(e),
                        };
                        let payload = Overlay::List(s);
                        assert(payload@ == OverlayM::List(overlay_views(s@)));
                        Ok(Overlay::Variant(n.clone(), Box::new(payload)))
                    },
                    _ => Err(WireError::MalformedVariantEncoding),
                }
            }
        },
        other => {
            assert(!(other@ is Unit) && !(other@ is Tuple));
            match other.decode_as(&docs[0]) {
                Ok(x) => Ok(Overlay::Variant(n.clone(), Box::new(x))),
                Err(e) => Err(e),
            }
        },
    }
}

fn decode_items<L: LeafOverlay>(t: &Ty, items: &Vec<Doc>) -> (r: Result<
    Vec<Overlay<L>>,
    WireError,
>)
    ensures
        results_view(r) == decode_list(t@, doc_views(items@)),
    decreases items, t,
{
    let ghost dv = doc_views(items@);
    let mut out: Vec<Overlay<L>> = Vec::new();
    let mut i: usize = 0;
    while i < items.len()
        invariant
            i <= items.len(),
            dv == doc_views(items@),
            decode_list(t@, dv.take(i as int)) == Ok::<Seq<OverlayM>, WireError>(
                overlay_views(out@),
            ),
        decreases items.len() - i,
    {
        proof {
            vstd::std_specs::vec::axiom_vec_index_decreases(*items, i as int);
            lemma_doc_views(items@);
            assert(dv.take(i as int + 1).drop_last() =~= dv.take(i as int));
        }
        match t.decode_as(&items[i]) {
            Ok(x) => {
                proof {
                    assert((out@.push(x)).drop_last() =~= out@);
                }
                out.push(x);
            },
            Err(e) => {
                proof {
                    lemma_decode_list_prefix(t@, dv, i as int + 1);
                }
                return Err(e);
            },
        }
        i += 1;
    }
    proof {
        lemma_doc_views(items@);
        assert(dv.take(items.len() as int) =~= dv);
    }
    Ok(out)
}

fn decode_positional<L: LeafOverlay>(ts: &Vec<Ty>, items: &Vec<Doc>) -> (r: Result<
    Vec<Overlay<L>>,
    WireError,
>)
    requires
        ts.len() == items.len(),
    ensures
        results_view(r) == decode_tuple(ty_views(ts@), doc_views(items@)),
    decreases items, ts,
{
    let ghost dv = doc_views(items@);
    let ghost tv = ty_views(ts@);
    proof {
        lemma_doc_views(items@);
        lemma_ty_views(ts@);
    }
    let mut out: Vec<Overlay<L>> = Vec::new();
    let mut i: usize = 0;
    while i < items.len()
        invariant
            i <= items.len(),
            ts.len() == items.len(),
            dv == doc_views(items@),
            tv == ty_views(ts@),
            dv.len() == items.len(),
            tv.len() == ts.len(),
            decode_tuple(tv.take(i as int), dv.take(i as int)) == Ok::<Seq<OverlayM>, WireError>(
                overlay_views(out@),
            ),
        decreases items.len() - i,
    {
        proof {
            vstd::std_specs::vec::axiom_vec_index_decreases(*items, i as int);
            lemma_doc_views(items@);
            lemma_ty_views(ts@);
            assert(dv.take(i as int + 1).drop_last() =~= dv.take(i as int));
            assert(tv.take(i as int + 1).drop_last() =~= tv.take(i as int));
        }
        match ts[i].decode_as(&items[i]) {
            Ok(x) => {
                proof {
                    assert((out@.push(x)).drop_last() =~= out@);
                }
                out.push(x);
            },
            Err(e) => {
                proof {
                    lemma_decode_tuple_prefix(tv, dv, i as int + 1);
                }
                return Err(e);
            },
        }
        i += 1;
    }
    proof {
        assert(dv.take(items.len() as int) =~= dv);
        assert(tv.take(items.len() as int) =~= tv);
    }
    Ok(out)
}

fn decode_record<L: LeafOverlay>(
    ns: &Vec<String>,
    ts: &Vec<Ty>,
    defs: &Vec<Value>,
    keys: &Vec<String>,
    docs: &Vec<Doc>,
) -> (r: Result<Vec<Overlay<L>>, WireError>)
    ensures
        results_view(r) == decode_fields(
            string_views(ns@),
            ty_views(ts@),
            value_views(defs@),
            string_views(keys@),
            doc_views(docs@),
        ),
    decreases docs, ts,
{
    let ghost nv = string_views(ns@);
    let ghost tv = ty_views(ts@);
    let ghost vv = value_views(defs@);
    let ghost kv = string_views(keys@);
    let ghost dv = doc_views(docs@);
    let mut out: Vec<Overlay<L>> = Vec::new();
    let mut i: usize = 0;
    while i < ts.len()
        invariant
            i <= ts.len(),
            nv == string_views(ns@),
            tv == ty_views(ts@),
            vv == value_views(defs@),
            kv == string_views(keys@),
            dv == doc_views(docs@),
            decode_fields(nv, tv.take(i as int), vv, kv, dv) == Ok::<Seq<OverlayM>, WireError>(
                overlay_views(out@),
            ),
        decreases ts.len() - i,
    {
        proof {
            lemma_ty_views(ts@);
            lemma_doc_views(docs@);
            lemma_value_views(defs@);
            assert(tv.take(i as int + 1).drop_last() =~= tv.take(i as int));
        }
        let name = if i < ns.len() {
            ns[i].clone()
        } else {
            String::new()
        };
        proof {
            if i < ns.len() {
                assert(nv[i as int] == ns@[i as int]@);
            }
            assert(name@ == key_at(nv, i as int));
            lemma_key_index_range(kv, name@);
        }
        let found = find_key(keys, &name);
        let x = match found {
            Some(j) => {
                if j < docs.len() {
                    proof {
                        vstd::std_specs::vec::axiom_vec_index_decreases(*docs, j as int);
                    }
                    match ts[i].decode_as(&docs[j]) {
                        Ok(x) => x,
                        Err(e) => {
                            proof {
                                lemma_decode_fields_prefix(nv, tv, vv, kv, dv, i as int + 1);
                            }
                            return Err(e);
                        },
                    }
                } else {
                    if i < defs.len() {
                        defs[i].overlay_as(false)
                    } else {
                        Value::Nil.overlay_as(false)
                    }
                }
            },
            None => {
                if i < defs.len() {
                    defs[i].overlay_as(false)
                } else {
                    Value::Nil.overlay_as(false)
                }
            },
        };
        proof {
            assert((out@.push(x)).drop_last() =~= out@);
        }
        out.push(x);
        i += 1;
    }
    proof {
        lemma_ty_views(ts@);
        assert(tv.take(ts.len() as int) =~= tv);
    }
    Ok(out)
}

} // verus!
