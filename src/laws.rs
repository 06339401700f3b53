use vstd::prelude::*;

use crate::model::{
    construct, explicit, has_slot, lemma_any_explicit, lemma_construct_all,
    lemma_construct_explicit, lemma_construct_uniform, lemma_uniform_implicit, uniform, OverlayM,
    ValueM,
};
use crate::wire::{
    decode, decode_fields, default_at, encode, field_docs, field_keys, key_at, key_index,
    prim_doc, prim_of, well_formed, DocM, PrimKind, TyM, WireError,
};

verus! {

/// Fields that all report implicit leave no key and no value behind.
pub proof fn lemma_implicit_fields_vanish(ns: Seq<Seq<char>>, s: Seq<OverlayM>)
    requires
        forall|i: int| 0 <= i < s.len() ==> !#[trigger] explicit(s[i]),
    ensures
        field_keys(ns, s) == Seq::<Seq<char>>::empty(),
        field_docs(s) == Seq::<DocM>::empty(),
    decreases s.len(),
{
    if s.len() > 0 {
        assert(!explicit(s[s.len() - 1]));
        lemma_implicit_fields_vanish(ns, s.drop_last());
    }
}

/// A struct whose fields were all constructed implicit encodes to the empty
/// object.
pub proof fn law_implicit_struct_encodes_empty(ns: Seq<Seq<char>>, vs: Seq<ValueM>)
    ensures
        encode(construct(ValueM::Record(ns, vs), false)) == DocM::Obj(
            Seq::empty(),
            Seq::empty(),
        ),
        !explicit(construct(ValueM::Record(ns, vs), false)),
{
    let o = construct(ValueM::Record(ns, vs), false);
    lemma_construct_uniform(ValueM::Record(ns, vs), false);
    lemma_uniform_implicit(o);
    let s = o->Record_1;
    lemma_construct_all(vs, false);
    assert forall|i: int| 0 <= i < s.len() implies !#[trigger] explicit(s[i]) by {
        lemma_construct_uniform(vs[i], false);
        lemma_uniform_implicit(s[i]);
    }
    lemma_implicit_fields_vanish(ns, s);
}

/// A struct reports explicit iff one of its fields does. With two fields of
/// which only the first is explicit, the struct is explicit, the second
/// field stays implicit, and the struct's encoding holds the first field
/// alone.
pub proof fn law_struct_explicit_is_or(ns: Seq<Seq<char>>, a: OverlayM, b: OverlayM)
    requires
        ns.len() == 2,
        explicit(a),
        !explicit(b),
    ensures
        explicit(OverlayM::Record(ns, seq![a, b])),
        !explicit(b),
        encode(OverlayM::Record(ns, seq![a, b])) == DocM::Obj(seq![ns[0]], seq![encode(a)]),
{
    let s = seq![a, b];
    lemma_any_explicit(s);
    assert(explicit(s[0]));
    assert(s.drop_last() =~= seq![a]);
    assert(seq![a].drop_last() =~= Seq::<OverlayM>::empty());
    assert(seq![a].last() == a);
    assert(field_keys(ns, Seq::<OverlayM>::empty()) == Seq::<Seq<char>>::empty());
    assert(field_docs(Seq::<OverlayM>::empty()) == Seq::<DocM>::empty());
    assert(field_keys(ns, seq![a]) =~= seq![ns[0]]);
    assert(field_docs(seq![a]) =~= seq![encode(a)]);
    assert(s.last() == b);
    assert(field_keys(ns, s) == field_keys(ns, seq![a]));
    assert(field_docs(s) == field_docs(seq![a]));
}

/// Whatever state an overlay was in, replacing its value by `v` at flag
/// `true` gives `construct(v, true)` (the contract of `set_impex`): every
/// leaf and marker of the new variant is explicit, and each of its fields
/// that holds a leaf, an absence or a data-free variant reports explicit.
pub proof fn law_variant_switch_resets(n: Seq<char>, ns: Seq<Seq<char>>, vs: Seq<ValueM>)
    ensures
        ({
            let o = construct(ValueM::Variant(n, Box::new(ValueM::Record(ns, vs))), true);
            &&& o == OverlayM::Variant(n, Box::new(construct(ValueM::Record(ns, vs), true)))
            &&& uniform(o, true)
            &&& forall|i: int|
                0 <= i < vs.len() ==> #[trigger] explicit(o->Variant_1->Record_1[i]) == has_slot(
                    vs[i],
                )
        }),
{
    let v = ValueM::Variant(n, Box::new(ValueM::Record(ns, vs)));
    lemma_construct_uniform(v, true);
    lemma_construct_all(vs, true);
    assert forall|i: int| 0 <= i < vs.len() implies #[trigger] explicit(
        construct(v, true)->Variant_1->Record_1[i],
    ) == has_slot(vs[i]) by {
        lemma_construct_explicit(vs[i]);
    }
}

/// An optional decoded from `null` is an explicit absence, which encodes to
/// `null` again; an optional decoded from a primitive document is explicit
/// and encodes to the same document; an optional that was never supplied
/// (constructed implicit from any default) reports implicit, so a struct
/// leaves it out.
pub proof fn law_option_duality(k: PrimKind, x: DocM, default: ValueM)
    requires
        prim_of(k, x) is Some,
    ensures
        decode(TyM::Opt(Box::new(TyM::Prim(k))), DocM::Null) == Ok::<OverlayM, WireError>(
            OverlayM::Absent(true),
        ),
        explicit(OverlayM::Absent(true)),
        encode(OverlayM::Absent(true)) == DocM::Null,
        ({
            let r = decode(TyM::Opt(Box::new(TyM::Prim(k))), x);
            &&& r is Ok
            &&& explicit(r->Ok_0)
            &&& encode(r->Ok_0) == x
        }),
        !explicit(construct(default, false)),
{
    lemma_construct_uniform(default, false);
    lemma_uniform_implicit(construct(default, false));
    assert(x !is Null);
    let p = prim_of(k, x)->Some_0;
    assert(prim_doc(p) == x);
    assert(decode(TyM::Prim(k), x) == Ok::<OverlayM, WireError>(OverlayM::Leaf(p, true)));
    assert(encode(OverlayM::Leaf(p, true)) == x);
    assert(explicit(OverlayM::Leaf(p, true)));
}

/// A data-free variant decoded from its bare name is explicit and encodes to
/// the same name; constructed implicit (the default, when the key is
/// missing) it reports implicit, so a struct leaves it out.
pub proof fn law_unit_variant_bare_name(names: Seq<Seq<char>>, pts: Seq<TyM>, n: Seq<char>)
    requires
        0 <= key_index(names, n) < pts.len(),
        pts[key_index(names, n)] is Unit,
    ensures
        decode(TyM::Enum(names, pts), DocM::Str(n)) == Ok::<OverlayM, WireError>(
            OverlayM::Unit(n, true),
        ),
        explicit(OverlayM::Unit(n, true)),
        encode(OverlayM::Unit(n, true)) == DocM::Str(n),
        !explicit(construct(ValueM::Unit(n), false)),
{
}

/// A struct field whose key is missing from the object takes the struct's
/// default for it, stamped implicit, and is left out when the struct is
/// encoded again: `{}` decodes to the default and encodes to `{}`.
pub proof fn law_missing_field_is_implicit_default(k: Seq<char>, t: TyM, dv: ValueM)
    ensures
        ({
            let ty = TyM::Record(seq![k], seq![t], seq![dv]);
            let empty = DocM::Obj(Seq::empty(), Seq::empty());
            let o = OverlayM::Record(seq![k], seq![construct(dv, false)]);
            &&& decode(ty, empty) == Ok::<OverlayM, WireError>(o)
            &&& !explicit(construct(dv, false))
            &&& encode(o) == empty
        }),
{
    let ns = seq![k];
    let ts = seq![t];
    let defs = seq![dv];
    let keys = Seq::<Seq<char>>::empty();
    let docs = Seq::<DocM>::empty();
    assert(ts.drop_last() =~= Seq::<TyM>::empty());
    assert(key_index(keys, key_at(ns, 0)) == -1);
    assert(default_at(defs, 0) == dv);
    assert(decode_fields(ns, Seq::<TyM>::empty(), defs, keys, docs) == Ok::<
        Seq<OverlayM>,
        WireError,
    >(Seq::empty()));
    assert(Seq::<OverlayM>::empty().push(construct(dv, false)) =~= seq![construct(dv, false)]);
    assert(decode_fields(ns, ts, defs, keys, docs) == Ok::<Seq<OverlayM>, WireError>(
        seq![construct(dv, false)],
    ));
    lemma_construct_uniform(dv, false);
    lemma_uniform_implicit(construct(dv, false));
    lemma_implicit_fields_vanish(ns, seq![construct(dv, false)]);
}

proof fn lemma_decoded_fields(
    ns: Seq<Seq<char>>,
    ts: Seq<TyM>,
    defs: Seq<ValueM>,
    keys: Seq<Seq<char>>,
    docs: Seq<DocM>,
)
    requires
        decode_fields(ns, ts, defs, keys, docs) is Ok,
        ts.len() <= ns.len(),
        ts.len() <= defs.len(),
    ensures
        ({
            let s = decode_fields(ns, ts, defs, keys, docs)->Ok_0;
            &&& s.len() == ts.len()
            &&& forall|k: int|
                0 <= k < ts.len() ==> {
                    let j = #[trigger] key_index(keys, ns[k]);
                    &&& (0 <= j < docs.len()) ==> decode(ts[k], docs[j]) == Ok::<
                        OverlayM,
                        WireError,
                    >(s[k])
                    &&& !(0 <= j < docs.len()) ==> s[k] == construct(defs[k], false)
                }
        }),
    decreases ts.len(),
{
    if ts.len() > 0 {
        lemma_decoded_fields(ns, ts.drop_last(), defs, keys, docs);
        let s = decode_fields(ns, ts, defs, keys, docs)->Ok_0;
        let s0 = decode_fields(ns, ts.drop_last(), defs, keys, docs)->Ok_0;
        let last = ts.len() - 1;
        assert(key_at(ns, last) == ns[last]);
        assert(default_at(defs, last) == defs[last]);
        assert(s.drop_last() =~= s0);
        assert forall|k: int| 0 <= k < ts.len() - 1 implies ts.drop_last()[k] == ts[k] by {}
    }
}

/// Decoding an object against a well-formed struct type gives one overlay
/// per declared field, under the declared names: the decoding of the first
/// entry whose key is the field's name, or, when no key names it, the
/// field's default stamped implicit.
pub proof fn law_well_formed_struct_decodes_every_field(
    ns: Seq<Seq<char>>,
    ts: Seq<TyM>,
    defs: Seq<ValueM>,
    keys: Seq<Seq<char>>,
    docs: Seq<DocM>,
)
    requires
        well_formed(TyM::Record(ns, ts, defs)),
        decode(TyM::Record(ns, ts, defs), DocM::Obj(keys, docs)) is Ok,
    ensures
        ({
            let o = decode(TyM::Record(ns, ts, defs), DocM::Obj(keys, docs))->Ok_0;
            &&& o is Record
            &&& o->Record_0 == ns
            &&& o->Record_1.len() == ns.len()
            &&& forall|k: int|
                0 <= k < ns.len() ==> {
                    let j = #[trigger] key_index(keys, ns[k]);
                    &&& (0 <= j < docs.len()) ==> decode(ts[k], docs[j]) == Ok::<
                        OverlayM,
                        WireError,
                    >(o->Record_1[k])
                    &&& !(0 <= j < docs.len()) ==> o->Record_1[k] == construct(defs[k], false)
                }
        }),
{
    lemma_decoded_fields(ns, ts, defs, keys, docs);
}

} // verus!
