use impex::wire::{Doc, PrimKind, Ty, WireError};
use impex::{
    DefaultWrapperSettings, Impex, ImpexPrimitiveValue, IntoImpex, OptionImpex, Overlay, Prim,
    PrimitiveWrapper, Value, VariantMarker,
};

fn s(x: &str) -> String {
    x.to_string()
}

fn strs(xs: &[&str]) -> Vec<String> {
    xs.iter().map(|x| x.to_string()).collect()
}

fn u32_val(x: u32) -> Value {
    Value::Prim(Prim::U32(x))
}

fn obj(keys: &[&str], values: Vec<Doc>) -> Doc {
    Doc::Obj(strs(keys), values)
}

/// `struct { num_cores: u32 = 0, num_threads: u32 = 42 }`.
fn cores_ty() -> Ty {
    Ty::Record(
        strs(&["num_cores", "num_threads"]),
        vec![Ty::Prim(PrimKind::U32), Ty::Prim(PrimKind::U32)],
        vec![u32_val(0), u32_val(42)],
    )
}

fn fields(o: &Overlay) -> &Vec<Overlay> {
    match o {
        Overlay::Record(_, fs) => fs,
        _ => panic!("not a struct overlay"),
    }
}

#[test]
fn decode_num_cores_keeps_other_field_default() {
    let o = cores_ty().decode(&obj(&["num_cores"], vec![Doc::Int(3)])).unwrap();
    let fs = fields(&o);
    assert!(fs[0].is_explicit());
    assert_eq!(fs[0].value(), u32_val(3));
    assert!(fs[1].is_implicit());
    assert_eq!(fs[1].value(), u32_val(42));
    assert_eq!(o.encode(), obj(&["num_cores"], vec![Doc::Int(3)]));
}

#[test]
fn decode_then_encode_reproduces_explicit_subset() {
    let d = obj(&["num_cores", "num_threads"], vec![Doc::Int(1), Doc::Int(2)]);
    let o = cores_ty().decode(&d).unwrap();
    assert_eq!(o.encode(), d);
    let d = obj(&["num_threads"], vec![Doc::Int(7)]);
    assert_eq!(cores_ty().decode(&d).unwrap().encode(), d);
}

#[test]
fn implicit_struct_encodes_to_empty_object() {
    let v = Value::Record(strs(&["a", "b"]), vec![u32_val(1), Value::Nil]);
    let o = v.into_implicit();
    assert!(o.is_implicit());
    assert_eq!(o.encode(), obj(&[], vec![]));
}

#[test]
fn explicit_struct_encodes_every_field() {
    let v = Value::Record(strs(&["a", "b"]), vec![u32_val(1), Value::Nil]);
    assert_eq!(v.into_explicit().encode(), obj(&["a", "b"], vec![Doc::Int(1), Doc::Null]));
}

#[test]
fn option_null_absent_and_value() {
    let ty = Ty::Record(
        strs(&["opt"]),
        vec![Ty::Opt(Box::new(Ty::Prim(PrimKind::I32)))],
        vec![Value::Nil],
    );
    let null = ty.decode(&obj(&["opt"], vec![Doc::Null])).unwrap();
    assert_eq!(fields(&null)[0], Overlay::Opt(OptionImpex::explicit_none()));
    assert_eq!(null.encode(), obj(&["opt"], vec![Doc::Null]));
    let missing = ty.decode(&obj(&[], vec![])).unwrap();
    assert_eq!(fields(&missing)[0], Overlay::Opt(OptionImpex::implicit_none()));
    assert_eq!(missing.encode(), obj(&[], vec![]));
    let present = ty.decode(&obj(&["opt"], vec![Doc::Int(42)])).unwrap();
    assert!(fields(&present)[0].is_explicit());
    assert_eq!(present.encode(), obj(&["opt"], vec![Doc::Int(42)]));
}

#[test]
fn unit_variant_bare_name_and_alternate_map() {
    let ty = Ty::Enum(strs(&["Foo", "Bar"]), vec![Ty::Unit, Ty::Unit]);
    let o = ty.decode(&Doc::Str(s("Foo"))).unwrap();
    assert_eq!(o, Overlay::Unit(s("Foo"), VariantMarker { is_explicit: true }));
    assert_eq!(o.encode(), Doc::Str(s("Foo")));
    let alt = ty.decode(&obj(&["Bar"], vec![Doc::Int(1)])).unwrap();
    assert_eq!(alt, Overlay::Unit(s("Bar"), VariantMarker { is_explicit: true }));
    assert_eq!(alt.encode(), Doc::Str(s("Bar")));
}

#[test]
fn struct_explicitness_is_or_over_fields() {
    let mut o = Value::Record(strs(&["a", "b"]), vec![u32_val(1), u32_val(2)]).into_implicit();
    assert!(o.is_implicit());
    if let Overlay::Record(_, fs) = &mut o {
        fs[0].set_explicit(u32_val(5));
    }
    assert!(o.is_explicit());
    assert!(fields(&o)[1].is_implicit());
    assert_eq!(o.encode(), obj(&["a"], vec![Doc::Int(5)]));
}

#[test]
fn variant_switch_resets_flags() {
    let a = Value::Variant(
        s("A"),
        Box::new(Value::Record(strs(&["x", "y"]), vec![u32_val(1), u32_val(2)])),
    );
    let mut o = a.into_implicit();
    if let Overlay::Variant(_, p) = &mut o {
        if let Overlay::Record(_, fs) = &mut **p {
            fs[0].set_explicit(u32_val(9));
        }
    }
    let b = Value::Variant(
        s("B"),
        Box::new(Value::Record(strs(&["p", "q"]), vec![u32_val(3), Value::Nil])),
    );
    o.set_explicit(b);
    match &o {
        Overlay::Variant(n, p) => {
            assert_eq!(n, "B");
            assert!(fields(p).iter().all(|f| f.is_explicit()));
        },
        _ => panic!(),
    }
    o.set_implicit(Value::Unit(s("C")));
    assert!(o.is_implicit());
}

#[test]
fn empty_list_reports_implicit() {
    let o = Value::List(vec![]).into_explicit();
    assert!(o.is_implicit());
    assert_eq!(o.encode(), Doc::Arr(vec![]));
}

#[test]
fn extract_after_construct_gives_value_back() {
    let v = || {
        Value::Record(
            strs(&["n", "o", "l"]),
            vec![
                Value::Prim(Prim::I64(-5)),
                Value::Just(Box::new(Value::Prim(Prim::Str(s("x"))))),
                Value::List(vec![Value::Unit(s("U")), Value::Prim(Prim::I32(-1))]),
            ],
        )
    };
    assert_eq!(v().into_explicit().into_value(), v());
    assert_eq!(v().overlay(false).value(), v());
    assert_eq!(v().duplicate(), v());
}

#[test]
fn format_mismatch_errors() {
    assert_eq!(Ty::Prim(PrimKind::U32).decode(&Doc::Str(s("3"))), Err(WireError::FormatMismatch));
    assert_eq!(Ty::Prim(PrimKind::U32).decode(&Doc::Int(-1)), Err(WireError::FormatMismatch));
    assert_eq!(Ty::Prim(PrimKind::I32).decode(&Doc::Null), Err(WireError::FormatMismatch));
    assert_eq!(cores_ty().decode(&Doc::Arr(vec![])), Err(WireError::FormatMismatch));
    assert_eq!(
        cores_ty().decode(&obj(&["num_cores"], vec![Doc::Str(s("x"))])),
        Err(WireError::FormatMismatch)
    );
}

#[test]
fn unknown_variant_errors() {
    let ty = Ty::Enum(strs(&["Foo"]), vec![Ty::Unit]);
    assert_eq!(ty.decode(&Doc::Str(s("Baz"))), Err(WireError::UnknownVariant));
    assert_eq!(ty.decode(&obj(&["Baz"], vec![Doc::Null])), Err(WireError::UnknownVariant));
}

#[test]
fn malformed_variant_errors() {
    let ty = Ty::Enum(
        strs(&["Foo", "Bar"]),
        vec![Ty::Unit, Ty::Tuple(vec![Ty::Prim(PrimKind::I32), Ty::Prim(PrimKind::I32)])],
    );
    assert_eq!(
        ty.decode(&obj(&["Foo", "Bar"], vec![Doc::Null, Doc::Null])),
        Err(WireError::MalformedVariantEncoding)
    );
    assert_eq!(ty.decode(&obj(&[], vec![])), Err(WireError::MalformedVariantEncoding));
    assert_eq!(
        ty.decode(&obj(&["Bar"], vec![Doc::Arr(vec![Doc::Int(1)])])),
        Err(WireError::MalformedVariantEncoding)
    );
    assert_eq!(ty.decode(&Doc::Str(s("Bar"))), Err(WireError::MalformedVariantEncoding));
    let ok = ty.decode(&obj(&["Bar"], vec![Doc::Arr(vec![Doc::Int(1), Doc::Int(2)])])).unwrap();
    assert_eq!(ok.encode(), obj(&["Bar"], vec![Doc::Arr(vec![Doc::Int(1), Doc::Int(2)])]));
}

#[test]
fn length_mismatch_errors() {
    let arr = Ty::Array(Box::new(Ty::Prim(PrimKind::I32)), 3);
    assert_eq!(arr.decode(&Doc::Arr(vec![Doc::Int(1)])), Err(WireError::LengthMismatch));
    let tup = Ty::Tuple(vec![Ty::Prim(PrimKind::I32)]);
    assert_eq!(tup.decode(&Doc::Arr(vec![])), Err(WireError::LengthMismatch));
    let ok = arr.decode(&Doc::Arr(vec![Doc::Int(1), Doc::Int(2), Doc::Int(3)])).unwrap();
    assert_eq!(ok.value(), Value::List(vec![
        Value::Prim(Prim::I32(1)),
        Value::Prim(Prim::I32(2)),
        Value::Prim(Prim::I32(3)),
    ]));
}

#[test]
fn first_error_in_a_list_wins() {
    let ty = Ty::Sequence(Box::new(Ty::Enum(strs(&["Foo"]), vec![Ty::Unit])));
    let d = Doc::Arr(vec![Doc::Str(s("Foo")), Doc::Str(s("No")), Doc::Int(1)]);
    assert_eq!(ty.decode(&d), Err(WireError::UnknownVariant));
}

#[test]
fn unknown_keys_are_passed_over_and_first_duplicate_wins() {
    let d = obj(&["zzz", "num_cores", "num_cores"], vec![Doc::Int(0), Doc::Int(4), Doc::Int(5)]);
    let o = cores_ty().decode(&d).unwrap();
    assert_eq!(fields(&o)[0].value(), u32_val(4));
    assert_eq!(o.encode(), obj(&["num_cores"], vec![Doc::Int(4)]));
}

#[test]
fn leaf_overlay_operations() {
    let mut l = DefaultWrapperSettings::create_primitive(7u32, false);
    assert!(l.is_implicit());
    *l.make_explicit() += 1;
    assert!(l.is_explicit());
    assert_eq!(*l.value(), 8);
    l.set_impex(3, false);
    assert!(!l.is_explicit());
    l.set_explicit(4);
    assert_eq!(l.into_value(), 4);
    let w: ImpexPrimitiveValue<String> = s("a").into_explicit();
    assert!(Impex::is_explicit(&w));
    assert_eq!(Impex::into_value(w), s("a"));
    let p = PrimitiveWrapper(5i64).into_implicit();
    assert!(Impex::is_implicit(&p));
}

#[test]
fn option_overlay_operations() {
    let mut o: OptionImpex<ImpexPrimitiveValue<i32>> = OptionImpex::Present(3.into_implicit());
    assert!(o.is_some() && !o.is_none());
    assert!(o.is_implicit());
    if let Some(x) = o.as_mut() {
        x.set_explicit(4);
    }
    assert!(o.is_explicit());
    assert_eq!(o.as_ref().map(|x| *x.value()), Some(4));
    let n: OptionImpex<ImpexPrimitiveValue<i32>> = OptionImpex::explicit_none();
    assert!(n.is_explicit() && n.is_none() && n.as_ref().is_none());
    assert!(OptionImpex::<ImpexPrimitiveValue<i32>>::implicit_none().is_implicit());
}

#[test]
fn out_of_order_keys_come_back_in_declaration_order() {
    let d = obj(&["num_threads", "num_cores"], vec![Doc::Int(2), Doc::Int(1)]);
    let o = cores_ty().decode(&d).unwrap();
    assert_eq!(o.encode(), obj(&["num_cores", "num_threads"], vec![Doc::Int(1), Doc::Int(2)]));
}

#[test]
fn tagged_leaves_start_untagged() {
    let o: Overlay<impex::TaggedValue<u8>> = u32_val(3).overlay_as(true);
    match &o {
        Overlay::Leaf(l) => {
            assert_eq!(l.tag, None);
            assert_eq!(l.value, Prim::U32(3));
            assert!(l.is_explicit);
        },
        _ => panic!(),
    }
}

#[test]
fn typed_option_composition() {
    let o = Some(5u32).into_explicit();
    assert!(o.is_explicit());
    assert_eq!(Impex::into_value(o), Some(5));
    let n: OptionImpex<ImpexPrimitiveValue<u32>> = None::<u32>.into_implicit();
    assert!(Impex::is_implicit(&n));
    let mut c: OptionImpex<ImpexPrimitiveValue<u32>> = Some(1u32).into_implicit();
    Impex::set_explicit(&mut c, None);
    assert_eq!(c, OptionImpex::explicit_none());
}

#[test]
fn typed_vec_composition() {
    let mut v = vec![1u32, 2].into_implicit();
    assert!(Impex::is_implicit(&v));
    v[1].set_explicit(7);
    assert!(Impex::is_explicit(&v));
    assert_eq!(Impex::into_value(v), vec![1, 7]);
    let empty: Vec<ImpexPrimitiveValue<u32>> = Vec::<u32>::new().into_explicit();
    assert!(Impex::is_implicit(&empty));
    let mut w = vec![1u32].into_explicit();
    Impex::set_implicit(&mut w, vec![3, 4]);
    assert!(Impex::is_implicit(&w));
    assert_eq!(w.len(), 2);
    let nested = vec![None, Some(1i32)].into_explicit();
    assert!(nested[0].is_explicit() && nested[0].is_none());
    assert_eq!(Impex::into_value(nested), vec![None, Some(1)]);
}

#[test]
fn typed_pair_composition() {
    let mut p = (42i32, 43i64).into_implicit();
    assert!(Impex::is_implicit(&p));
    p.1.set_explicit(44);
    assert!(Impex::is_explicit(&p));
    assert!(p.0.is_implicit());
    assert_eq!(Impex::into_value(p), (42, 44));
    let q = (s("a"), Some(1u32)).into_explicit();
    assert!(Impex::is_explicit(&q));
}

#[test]
fn defaults_are_implicit() {
    let l: ImpexPrimitiveValue<u32> = Default::default();
    assert!(l.is_implicit());
    assert_eq!(*l.value(), 0);
    let o: OptionImpex<ImpexPrimitiveValue<u32>> = Default::default();
    assert_eq!(o, OptionImpex::implicit_none());
}

#[test]
fn well_formed_type_descriptions() {
    assert!(cores_ty().is_well_formed());
    let short_defaults = Ty::Record(
        strs(&["a", "b"]),
        vec![Ty::Prim(PrimKind::U32), Ty::Prim(PrimKind::U32)],
        vec![u32_val(0)],
    );
    assert!(!short_defaults.is_well_formed());
    let nested = Ty::Sequence(Box::new(Ty::Enum(strs(&["A"]), vec![Ty::Unit, Ty::Unit])));
    assert!(!nested.is_well_formed());
    let ok = Ty::Opt(Box::new(Ty::Tuple(vec![Ty::Prim(PrimKind::Str), Ty::Prim(PrimKind::I64)])));
    assert!(ok.is_well_formed());
}

#[test]
fn visiting_tags_implicit_and_explicit_leaves() {
    let v = Value::Record(
        strs(&["a", "b", "c"]),
        vec![u32_val(1), Value::Just(Box::new(u32_val(2))), Value::Unit(s("U"))],
    );
    let mut o: Overlay<impex::TaggedValue<u8>> = v.overlay_as(false);
    o.visit(&9u8);
    match &o {
        Overlay::Record(_, fs) => {
            assert!(matches!(&fs[0], Overlay::Leaf(l) if l.tag == Some(9) && !l.is_explicit));
            match &fs[1] {
                Overlay::Opt(OptionImpex::Present(x)) => {
                    assert!(matches!(&**x, Overlay::Leaf(l) if l.tag == Some(9)))
                },
                _ => panic!(),
            }
        },
        _ => panic!(),
    }
    let mut d = Value::List(vec![u32_val(1)]).into_implicit();
    d.visit(&());
    assert!(d.is_implicit());
}
