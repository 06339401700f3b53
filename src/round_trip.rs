use vstd::prelude::*;

use crate::model::{construct, explicit, lemma_construct_uniform, lemma_uniform_implicit, OverlayM};
use crate::wire::{
    decode, decode_fields, decode_list, decode_tuple, default_at, encode, encode_all, field_docs,
    field_keys, key_at, key_index, lemma_key_index_range, prim_doc, prim_of, DocM, TyM, WireError,
};

verus! {

/// No name occurs twice.
pub open spec fn distinct(ns: Seq<Seq<char>>) -> bool {
    forall|i: int, j: int| 0 <= i < j < ns.len() ==> ns[i] != ns[j]
}

/// Every key names a field, and the keys follow the fields' order.
pub open spec fn fields_in_order(ns: Seq<Seq<char>>, keys: Seq<Seq<char>>) -> bool {
    &&& forall|j: int| 0 <= j < keys.len() ==> 0 <= #[trigger] key_index(ns, keys[j])
    &&& forall|j1: int, j2: int|
        0 <= j1 < j2 < keys.len() ==> #[trigger] key_index(ns, keys[j1]) < #[trigger] key_index(
            ns,
            keys[j2],
        )
}

/// The documents that decoding and then encoding reproduce: every value has
/// the shape its type asks for; an object of a struct holds only keys that
/// name fields, in declaration order, each of which decodes explicit; a
/// data-free variant is written by its bare name; a data-carrying variant
/// with named fields writes all of them, in order.
pub open spec fn canonical(t: TyM, d: DocM) -> bool
    decreases d, t,
{
    match t {
        TyM::Prim(k) => prim_of(k, d) is Some,
        TyM::Opt(inner) => d is Null || canonical(*inner, d),
        TyM::Sequence(inner) => match d {
            DocM::Arr(items) => canonical_all(*inner, items),
            _ => false,
        },
        TyM::Array(inner, n) => match d {
            DocM::Arr(items) => items.len() == n && canonical_all(*inner, items),
            _ => false,
        },
        TyM::Tuple(ts) => match d {
            DocM::Arr(items) => items.len() == ts.len() && canonical_each(ts, items),
            _ => false,
        },
        TyM::Record(ns, ts, _) => match d {
            DocM::Obj(keys, docs) => {
                &&& ns.len() == ts.len()
                &&& distinct(ns)
                &&& keys.len() == docs.len()
                &&& fields_in_order(ns, keys)
                &&& canonical_entries(ns, ts, keys, docs)
            },
            _ => false,
        },
        TyM::Enum(names, pts) => match d {
            DocM::Str(n) => 0 <= key_index(names, n) < pts.len() && pts[key_index(names, n)] is Unit,
            DocM::Obj(keys, docs) => {
                &&& keys.len() == 1
                &&& docs.len() == 1
                &&& 0 <= key_index(names, keys[0]) < pts.len()
                &&& match pts[key_index(names, keys[0])] {
                    TyM::Tuple(ts) => if ts.len() == 1 {
                        canonical(ts[0], docs[0])
                    } else {
                        match docs[0] {
                            DocM::Arr(items) => items.len() == ts.len() && canonical_each(
                                ts,
                                items,
                            ),
                            _ => false,
                        }
                    },
                    TyM::Record(ns, ts, _) => match docs[0] {
                        DocM::Obj(ks, ds) => {
                            &&& ks == ns
                            &&& ds.len() == ns.len()
                            &&& ts.len() == ns.len()
                            &&& distinct(ns)
                            &&& canonical_each(ts, ds)
                        },
                        _ => false,
                    },
                    _ => false,
                }
            },
            _ => false,
        },
        TyM::Unit => false,
    }
}

pub open spec fn canonical_all(t: TyM, items: Seq<DocM>) -> bool
    decreases items, t,
{
    if items.len() == 0 {
        true
    } else {
        canonical_all(t, items.drop_last()) && canonical(t, items.last())
    }
}

pub open spec fn canonical_each(ts: Seq<TyM>, items: Seq<DocM>) -> bool
    decreases items, ts,
{
    if items.len() == 0 || ts.len() == 0 {
        true
    } else {
        canonical_each(ts.drop_last(), items.drop_last()) && canonical(ts.last(), items.last())
    }
}

/// Each entry of a struct's object is canonical for the field it names and
/// decodes explicit.
pub open spec fn canonical_entries(
    ns: Seq<Seq<char>>,
    ts: Seq<TyM>,
    keys: Seq<Seq<char>>,
    docs: Seq<DocM>,
) -> bool
    decreases docs, ts,
{
    if keys.len() == 0 || docs.len() == 0 {
        true
    } else {
        let f = key_index(ns, keys.last());
        &&& canonical_entries(ns, ts, keys.drop_last(), docs.drop_last())
        &&& 0 <= f < ts.len()
        &&& canonical(ts[f], docs.last())
        &&& decode(ts[f], docs.last()) is Ok
        &&& explicit(decode(ts[f], docs.last())->Ok_0)
    }
}

proof fn lemma_key_index_first(keys: Seq<Seq<char>>, k: Seq<char>, c: int)
    requires
        0 <= c < keys.len(),
        keys[c] == k,
        forall|j: int| 0 <= j < c ==> keys[j] != k,
    ensures
        key_index(keys, k) == c,
    decreases keys.len(),
{
    if c < keys.len() - 1 {
        lemma_key_index_first(keys.drop_last(), k, c);
    } else {
        lemma_key_index_absent(keys.drop_last(), k);
    }
}

proof fn lemma_key_index_absent(keys: Seq<Seq<char>>, k: Seq<char>)
    requires
        forall|j: int| 0 <= j < keys.len() ==> keys[j] != k,
    ensures
        key_index(keys, k) == -1,
    decreases keys.len(),
{
    if keys.len() > 0 {
        assert(keys[keys.len() - 1] != k);
        lemma_key_index_absent(keys.drop_last(), k);
    }
}

proof fn lemma_key_index_distinct(ns: Seq<Seq<char>>, m: int)
    requires
        distinct(ns),
        0 <= m < ns.len(),
    ensures
        key_index(ns, ns[m]) == m,
{
    lemma_key_index_first(ns, ns[m], m);
}

proof fn lemma_canonical_each_elem(ts: Seq<TyM>, items: Seq<DocM>, i: int)
    requires
        ts.len() == items.len(),
        canonical_each(ts, items),
        0 <= i < items.len(),
    ensures
        canonical(ts[i], items[i]),
    decreases items.len(),
{
    if i < items.len() - 1 {
        lemma_canonical_each_elem(ts.drop_last(), items.drop_last(), i);
    }
}

proof fn lemma_entries_elem(
    ns: Seq<Seq<char>>,
    ts: Seq<TyM>,
    keys: Seq<Seq<char>>,
    docs: Seq<DocM>,
    j: int,
)
    requires
        keys.len() == docs.len(),
        canonical_entries(ns, ts, keys, docs),
        0 <= j < keys.len(),
    ensures
        0 <= key_index(ns, keys[j]) < ts.len(),
        canonical(ts[key_index(ns, keys[j])], docs[j]),
        decode(ts[key_index(ns, keys[j])], docs[j]) is Ok,
        explicit(decode(ts[key_index(ns, keys[j])], docs[j])->Ok_0),
    decreases keys.len(),
{
    if j < keys.len() - 1 {
        lemma_entries_elem(ns, ts, keys.drop_last(), docs.drop_last(), j);
    }
}

/// Decoding a canonical document succeeds, and encoding the result gives the
/// document back: the same keys, in the same order, with the same values.
pub proof fn law_round_trip_on_explicit_subset(t: TyM, d: DocM)
    requires
        canonical(t, d),
    ensures
        decode(t, d) is Ok,
        encode(decode(t, d)->Ok_0) == d,
{
    lemma_round_trip(t, d);
}

proof fn lemma_round_trip(t: TyM, d: DocM)
    requires
        canonical(t, d),
    ensures
        decode(t, d) is Ok,
        encode(decode(t, d)->Ok_0) == d,
    decreases d, t, 0int,
{
    match t {
        TyM::Prim(k) => {
            assert(prim_doc(prim_of(k, d)->Some_0) == d);
        },
        TyM::Opt(inner) => {
            if !(d is Null) {
                lemma_round_trip(*inner, d);
            }
        },
        TyM::Sequence(inner) => {
            let items = d->Arr_0;
            lemma_round_trip_all(*inner, items);
        },
        TyM::Array(inner, n) => {
            let items = d->Arr_0;
            lemma_round_trip_all(*inner, items);
        },
        TyM::Tuple(ts) => {
            let items = d->Arr_0;
            lemma_round_trip_each(ts, items);
        },
        TyM::Record(ns, ts, defs) => {
            let keys = d->Obj_0;
            let docs = d->Obj_1;
            assert forall|j: int| 0 <= j < keys.len() implies key_index(ns, keys[j]) < ts.len() by {
                lemma_key_index_range(ns, keys[j]);
            }
            lemma_round_trip_fields(ns, ts, defs, keys, docs, ts.len() as int, keys.len() as int);
            assert(ts.take(ts.len() as int) =~= ts);
            assert(keys.take(keys.len() as int) =~= keys);
            assert(docs.take(docs.len() as int) =~= docs);
        },
        TyM::Enum(names, pts) => {
            match d {
                DocM::Obj(keys, docs) => {
                    let i = key_index(names, keys[0]);
                    match pts[i] {
                        TyM::Tuple(ts) => {
                            if ts.len() == 1 {
                                lemma_round_trip(ts[0], docs[0]);
                                let x = decode(ts[0], docs[0])->Ok_0;
                                assert(seq![x].len() == 1 && seq![x][0] == x);
                                let o = OverlayM::Variant(keys[0], Box::new(OverlayM::List(seq![x])));
                                assert(decode(t, d) == Ok::<OverlayM, WireError>(o));
                                assert(encode(o) == DocM::Obj(seq![keys[0]], seq![encode(x)]));
                                assert(seq![keys[0]] =~= keys);
                                assert(seq![docs[0]] =~= docs);
                            } else {
                                let items = docs[0]->Arr_0;
                                lemma_round_trip_each(ts, items);
                                let sx = decode_tuple(ts, items)->Ok_0;
                                let o = OverlayM::Variant(keys[0], Box::new(OverlayM::List(sx)));
                                assert(decode(t, d) == Ok::<OverlayM, WireError>(o));
                                assert(encode(o) == DocM::Obj(seq![keys[0]], seq![DocM::Arr(encode_all(sx))]));
                                assert(seq![keys[0]] =~= keys);
                                assert(seq![docs[0]] =~= docs);
                            }
                        },
                        TyM::Record(ns, ts, defs) => {
                            let ds = docs[0]->Obj_1;
                            lemma_round_trip_full(ns, ts, defs, ds, ts.len() as int);
                            assert(ts.take(ts.len() as int) =~= ts);
                            assert(ds.take(ds.len() as int) =~= ds);
                            let sx = decode_fields(ns, ts, defs, ns, ds)->Ok_0;
                            let inner = OverlayM::Record(ns, sx);
                            assert(decode(pts[i], docs[0]) == Ok::<OverlayM, WireError>(inner));
                            let o = OverlayM::Variant(keys[0], Box::new(inner));
                            assert(decode(t, d) == Ok::<OverlayM, WireError>(o));
                            assert(encode(o) == DocM::Obj(seq![keys[0]], seq![DocM::Obj(ns, encode_all(sx))]));
                            assert(seq![keys[0]] =~= keys);
                            assert(seq![docs[0]] =~= docs);
                        },
                        _ => {},
                    }
                },
                _ => {},
            }
        },
        TyM::Unit => {},
    }
}

proof fn lemma_round_trip_all(t: TyM, items: Seq<DocM>)
    requires
        canonical_all(t, items),
    ensures
        decode_list(t, items) is Ok,
        encode_all(decode_list(t, items)->Ok_0) == items,
    decreases items, t, 0int,
{
    if items.len() > 0 {
        lemma_round_trip_all(t, items.drop_last());
        lemma_round_trip(t, items.last());
        let s = decode_list(t, items.drop_last())->Ok_0;
        let x = decode(t, items.last())->Ok_0;
        assert(s.push(x).drop_last() =~= s);
        assert(encode_all(s.push(x)) =~= items);
    }
}

proof fn lemma_round_trip_each(ts: Seq<TyM>, items: Seq<DocM>)
    requires
        ts.len() == items.len(),
        canonical_each(ts, items),
    ensures
        decode_tuple(ts, items) is Ok,
        decode_tuple(ts, items)->Ok_0.len() == items.len(),
        encode_all(decode_tuple(ts, items)->Ok_0) == items,
    decreases items, ts, 0int,
{
    if items.len() > 0 {
        lemma_round_trip_each(ts.drop_last(), items.drop_last());
        lemma_round_trip(ts.last(), items.last());
        let s = decode_tuple(ts.drop_last(), items.drop_last())->Ok_0;
        let x = decode(ts.last(), items.last())->Ok_0;
        assert(s.push(x).drop_last() =~= s);
        assert(encode_all(s.push(x)) =~= items);
    }
}

/// The first `l` fields of a struct decode from a canonical object, and keep
/// exactly the first `c` keys, where `c` counts the keys that name those
/// fields.
proof fn lemma_round_trip_fields(
    ns: Seq<Seq<char>>,
    ts: Seq<TyM>,
    defs: Seq<crate::model::ValueM>,
    keys: Seq<Seq<char>>,
    docs: Seq<DocM>,
    l: int,
    c: int,
)
    requires
        ns.len() == ts.len(),
        distinct(ns),
        keys.len() == docs.len(),
        fields_in_order(ns, keys),
        canonical_entries(ns, ts, keys, docs),
        0 <= l <= ts.len(),
        0 <= c <= keys.len(),
        forall|j: int| 0 <= j < c ==> #[trigger] key_index(ns, keys[j]) < l,
        forall|j: int| c <= j < keys.len() ==> #[trigger] key_index(ns, keys[j]) >= l,
    ensures
        decode_fields(ns, ts.take(l), defs, keys, docs) is Ok,
        decode_fields(ns, ts.take(l), defs, keys, docs)->Ok_0.len() == l,
        field_keys(ns, decode_fields(ns, ts.take(l), defs, keys, docs)->Ok_0) == keys.take(c),
        field_docs(decode_fields(ns, ts.take(l), defs, keys, docs)->Ok_0) == docs.take(c),
    decreases docs, ts, l,
{
    if l == 0 {
        if c > 0 {
            assert(key_index(ns, keys[0]) >= 0);
        }
        assert(keys.take(0) =~= Seq::<Seq<char>>::empty());
        assert(docs.take(0) =~= Seq::<DocM>::empty());
    } else {
        let k = l - 1;
        let present = c > 0 && key_index(ns, keys[c - 1]) == k;
        let c2 = if present {
            c - 1
        } else {
            c
        };
        assert forall|j: int| 0 <= j < c2 implies #[trigger] key_index(ns, keys[j]) < k by {
            if present {
                assert(key_index(ns, keys[j]) < key_index(ns, keys[c - 1]));
            } else {
                assert(key_index(ns, keys[j]) <= key_index(ns, keys[c - 1]));
            }
        }
        lemma_round_trip_fields(ns, ts, defs, keys, docs, k, c2);
        let tl = ts.take(l);
        assert(tl.drop_last() =~= ts.take(k));
        assert(tl[k] == ts[k]);
        let s = decode_fields(ns, ts.take(k), defs, keys, docs)->Ok_0;
        lemma_key_index_distinct(ns, k);
        assert(key_at(ns, k) == ns[k]);
        if present {
            lemma_key_index_range(ns, keys[c - 1]);
            assert(keys[c - 1] == ns[k]);
            assert forall|j: int| 0 <= j < c - 1 implies keys[j] != ns[k] by {
                assert(key_index(ns, keys[j]) < k);
            }
            lemma_key_index_first(keys, ns[k], c - 1);
            lemma_entries_elem(ns, ts, keys, docs, c - 1);
            lemma_round_trip(ts[k], docs[c - 1]);
            let x = decode(ts[k], docs[c - 1])->Ok_0;
            let s2 = s.push(x);
            assert(s2.drop_last() =~= s);
            assert(keys.take(c) =~= keys.take(c - 1).push(keys[c - 1]));
            assert(docs.take(c) =~= docs.take(c - 1).push(docs[c - 1]));
        } else {
            assert forall|j: int| 0 <= j < keys.len() implies keys[j] != ns[k] by {
                if keys[j] == ns[k] {
                    assert(key_index(ns, keys[j]) == k);
                }
            }
            lemma_key_index_absent(keys, ns[k]);
            let x = construct(default_at(defs, k), false);
            lemma_construct_uniform(default_at(defs, k), false);
            lemma_uniform_implicit(x);
            let s2 = s.push(x);
            assert(s2.drop_last() =~= s);
        }
    }
}

/// The first `l` fields of a data-carrying variant, all written in order,
/// decode and encode back to the same values.
proof fn lemma_round_trip_full(
    ns: Seq<Seq<char>>,
    ts: Seq<TyM>,
    defs: Seq<crate::model::ValueM>,
    docs: Seq<DocM>,
    l: int,
)
    requires
        ns.len() == ts.len(),
        docs.len() == ns.len(),
        distinct(ns),
        canonical_each(ts, docs),
        0 <= l <= ts.len(),
    ensures
        decode_fields(ns, ts.take(l), defs, ns, docs) is Ok,
        decode_fields(ns, ts.take(l), defs, ns, docs)->Ok_0.len() == l,
        encode_all(decode_fields(ns, ts.take(l), defs, ns, docs)->Ok_0) == docs.take(l),
    decreases docs, ts, l,
{
    if l == 0 {
        assert(docs.take(0) =~= Seq::<DocM>::empty());
    } else {
        let k = l - 1;
        lemma_round_trip_full(ns, ts, defs, docs, k);
        let tl = ts.take(l);
        assert(tl.drop_last() =~= ts.take(k));
        assert(tl[k] == ts[k]);
        lemma_key_index_distinct(ns, k);
        assert(key_at(ns, k) == ns[k]);
        lemma_canonical_each_elem(ts, docs, k);
        lemma_round_trip(ts[k], docs[k]);
        let s = decode_fields(ns, ts.take(k), defs, ns, docs)->Ok_0;
        let x = decode(ts[k], docs[k])->Ok_0;
        assert(s.push(x).drop_last() =~= s);
        assert(docs.take(l) =~= docs.take(k).push(docs[k]));
    }
}

} // verus!
