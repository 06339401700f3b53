use impex::wire::{Doc, PrimKind, Ty, WireError};
use impex::{Impex, ImpexPrimitiveValue, IntoImpex, Overlay, Prim, Value};

// ---------------------------------------------------------------------------
// Text bridge: JSON text to documents and back.
// ---------------------------------------------------------------------------

fn doc_from_json(v: &serde_json::Value) -> Doc {
    match v {
        serde_json::Value::Null => Doc::Null,
        serde_json::Value::Number(n) => Doc::Int(n.as_i64().expect("integer")),
        serde_json::Value::String(s) => Doc::Str(s.clone()),
        serde_json::Value::Array(a) => Doc::Arr(a.iter().map(doc_from_json).collect()),
        serde_json::Value::Object(m) => Doc::Obj(
            m.keys().cloned().collect(),
            m.values().map(doc_from_json).collect(),
        ),
        serde_json::Value::Bool(_) => panic!("booleans are not used here"),
    }
}

fn parse(text: &str) -> Doc {
    doc_from_json(&serde_json::from_str::<serde_json::Value>(text).unwrap())
}

fn print(d: &Doc) -> String {
    match d {
        Doc::Null => "null".to_string(),
        Doc::Int(i) => i.to_string(),
        Doc::Str(s) => serde_json::to_string(s).unwrap(),
        Doc::Arr(a) => format!(
            "[{}]",
            a.iter().map(print).collect::<Vec<_>>().join(",")
        ),
        Doc::Obj(ks, vs) => format!(
            "{{{}}}",
            ks.iter()
                .zip(vs.iter())
                .map(|(k, v)| format!("{}:{}", serde_json::to_string(k).unwrap(), print(v)))
                .collect::<Vec<_>>()
                .join(",")
        ),
    }
}

fn decode_text(ty: &Ty, text: &str) -> Overlay {
    ty.decode(&parse(text)).unwrap()
}

fn encode_text(o: &Overlay) -> String {
    print(&o.encode())
}

// ---------------------------------------------------------------------------
// The value types of the scenarios, described at run time.
// ---------------------------------------------------------------------------

fn s(x: &str) -> String {
    x.to_string()
}

fn strs(xs: &[&str]) -> Vec<String> {
    xs.iter().map(|x| x.to_string()).collect()
}

fn prim(k: PrimKind) -> Ty {
    Ty::Prim(k)
}

fn i32_val(x: i32) -> Value {
    Value::Prim(Prim::I32(x))
}

fn i64_val(x: i64) -> Value {
    Value::Prim(Prim::I64(x))
}

fn u32_val(x: u32) -> Value {
    Value::Prim(Prim::U32(x))
}

fn str_val(x: &str) -> Value {
    Value::Prim(Prim::Str(s(x)))
}

/// `struct TupleStructConfig(i32, i64)`, default `(42, 43)`.
fn tuple_struct_ty() -> Ty {
    Ty::Tuple(vec![prim(PrimKind::I32), prim(PrimKind::I64)])
}

fn tuple_struct_default() -> Value {
    Value::List(vec![i32_val(42), i64_val(43)])
}

/// `enum EnumConfig { Foo { foo_value: String, tuple_struct_config }, Bar(String, i32, TupleStructConfig) }`.
fn enum_config_ty() -> Ty {
    Ty::Enum(
        strs(&["Foo", "Bar"]),
        vec![
            Ty::Record(
                strs(&["foo_value", "tuple_struct_config"]),
                vec![prim(PrimKind::Str), tuple_struct_ty()],
                vec![str_val(""), tuple_struct_default()],
            ),
            Ty::Tuple(vec![prim(PrimKind::Str), prim(PrimKind::I32), tuple_struct_ty()]),
        ],
    )
}

fn enum_config_default() -> Value {
    Value::Variant(
        s("Bar"),
        Box::new(Value::List(vec![str_val("Bar"), i32_val(42), tuple_struct_default()])),
    )
}

/// `struct KeyStructConfig { num_cores: u32, num_threads: Vec<u32>, enum_config, tuple_struct_config }`.
fn key_struct_ty() -> Ty {
    Ty::Record(
        strs(&["num_cores", "num_threads", "enum_config", "tuple_struct_config"]),
        vec![
            prim(PrimKind::U32),
            Ty::Sequence(Box::new(prim(PrimKind::U32))),
            enum_config_ty(),
            tuple_struct_ty(),
        ],
        vec![
            u32_val(0),
            Value::List(vec![u32_val(42)]),
            enum_config_default(),
            tuple_struct_default(),
        ],
    )
}

/// `enum UnionEnumConfig { Foo, Bar }`, default `Foo`.
fn union_enum_ty() -> Ty {
    Ty::Enum(strs(&["Foo", "Bar"]), vec![Ty::Unit, Ty::Unit])
}

/// `enum MixedEnumConfig { Empty, Named { value: String }, Tuple(i32) }`, default `Empty`.
fn mixed_enum_ty() -> Ty {
    Ty::Enum(
        strs(&["Empty", "Named", "Tuple"]),
        vec![
            Ty::Unit,
            Ty::Record(strs(&["value"]), vec![prim(PrimKind::Str)], vec![str_val("")]),
            Ty::Tuple(vec![prim(PrimKind::I32)]),
        ],
    )
}

/// `struct StructWithUnitEnum { unit_enum: UnionEnumConfig, mixed_enum: MixedEnumConfig }`.
fn struct_with_unit_enum_ty() -> Ty {
    Ty::Record(
        strs(&["unit_enum", "mixed_enum"]),
        vec![union_enum_ty(), mixed_enum_ty()],
        vec![Value::Unit(s("Foo")), Value::Unit(s("Empty"))],
    )
}

/// `struct { opt: Option<i32> }` with the given default for `opt`.
fn option_struct_ty(default: Value) -> Ty {
    Ty::Record(
        strs(&["opt"]),
        vec![Ty::Opt(Box::new(prim(PrimKind::I32)))],
        vec![default],
    )
}

fn field<'a>(o: &'a Overlay, name: &str) -> &'a Overlay {
    match o {
        Overlay::Record(ns, fs) => &fs[ns.iter().position(|n| n == name).unwrap()],
        _ => panic!("not a struct overlay"),
    }
}

fn field_mut<'a>(o: &'a mut Overlay, name: &str) -> &'a mut Overlay {
    match o {
        Overlay::Record(ns, fs) => &mut fs[ns.iter().position(|n| n == name).unwrap()],
        _ => panic!("not a struct overlay"),
    }
}

fn leaf(o: &Overlay) -> &ImpexPrimitiveValue<Prim> {
    match o {
        Overlay::Leaf(l) => l,
        _ => panic!("not a leaf"),
    }
}

fn list(o: &Overlay) -> &Vec<Overlay> {
    match o {
        Overlay::List(xs) => xs,
        _ => panic!("not a list"),
    }
}

// ---------------------------------------------------------------------------
// Decoding and encoding through JSON text.
// ---------------------------------------------------------------------------

#[test]
fn serde_serialize_with_defaults() {
    let text = r#"{"num_cores":3}"#;
    let mut obj = decode_text(&key_struct_ty(), text);
    assert_eq!(&Prim::U32(3), leaf(field(&obj, "num_cores")).value());
    let threads = list(field(&obj, "num_threads"));
    assert_eq!(&Prim::U32(42), leaf(&threads[0]).value());
    assert!(field(&obj, "num_cores").is_explicit());
    assert!(leaf(&threads[0]).is_implicit());
    assert_eq!(text, encode_text(&obj).as_str());

    match field_mut(&mut obj, "enum_config") {
        Overlay::Variant(n, p) if n == "Bar" => match &mut **p {
            Overlay::List(xs) => match &mut xs[1] {
                Overlay::Leaf(x) => x.set_explicit(Prim::I32(43)),
                _ => panic!(),
            },
            _ => panic!(),
        },
        _ => panic!(),
    }
    assert_eq!(
        r#"{"num_cores":3,"enum_config":{"Bar":[null,43,[null,null]]}}"#,
        encode_text(&obj).as_str()
    );

    field_mut(&mut obj, "enum_config").set_explicit(Value::Variant(
        s("Bar"),
        Box::new(Value::List(vec![str_val("Custom"), i32_val(42), tuple_struct_default()])),
    ));
    match field(&obj, "enum_config") {
        Overlay::Variant(n, p) if n == "Bar" => {
            let xs = list(p);
            assert!(xs[0].is_explicit());
            assert_eq!(leaf(&xs[0]).value(), &Prim::Str(s("Custom")));
            assert!(xs[1].is_explicit());
            assert_eq!(leaf(&xs[1]).value(), &Prim::I32(42));
            assert!(xs[2].is_explicit());
            assert_eq!(xs[2], tuple_struct_default().into_explicit());
        },
        _ => panic!(),
    }
    assert_eq!(
        r#"{"num_cores":3,"enum_config":{"Bar":["Custom",42,[42,43]]}}"#,
        encode_text(&obj).as_str()
    );
}

#[test]
fn serde_test_serialize_field_enum_skips_implicit_fields() {
    let text = r#"{"enum_config":{"Foo":{}}}"#;
    let x = decode_text(&key_struct_ty(), text);
    let (foo_value, tuple_struct_config) = match field(&x, "enum_config") {
        Overlay::Variant(n, p) if n == "Foo" => (field(p, "foo_value"), field(p, "tuple_struct_config")),
        _ => panic!("Should be a FooConfig"),
    };
    assert!(foo_value.is_implicit());
    assert_eq!(foo_value.value(), str_val(""));
    assert!(tuple_struct_config.is_implicit());
    assert_eq!(tuple_struct_config.value(), tuple_struct_default());
}

#[test]
fn serde_tuple_struct() {
    let text = r#"[42, 84]"#;
    let tuple_struct = decode_text(&tuple_struct_ty(), text);
    assert!(list(&tuple_struct)[0].is_explicit());
}

#[test]
fn unit_enum_implicit_is_missing_when_serializing() {
    let obj = decode_text(&struct_with_unit_enum_ty(), r#"{}"#);
    assert!(field(&obj, "unit_enum").is_implicit());
    let serialized = encode_text(&obj);
    assert_eq!(serialized, r#"{}"#, "Implicit unit enum should not appear in output");
}

#[test]
fn unit_enum_explicit_appears_when_serializing() {
    let obj = decode_text(&struct_with_unit_enum_ty(), r#"{"unit_enum":"Foo"}"#);
    assert!(
        field(&obj, "unit_enum").is_explicit(),
        "Field present in JSON should be explicit"
    );
    let serialized = encode_text(&obj);
    assert_eq!(
        serialized, r#"{"unit_enum":"Foo"}"#,
        "Explicit unit enum should appear in output"
    );
}

#[test]
fn unit_enum_different_variant_explicit() {
    let obj = decode_text(&struct_with_unit_enum_ty(), r#"{"unit_enum":"Bar"}"#);
    assert!(field(&obj, "unit_enum").is_explicit());
    let serialized = encode_text(&obj);
    assert_eq!(serialized, r#"{"unit_enum":"Bar"}"#);
    assert_eq!(field(&obj, "unit_enum").value(), Value::Unit(s("Bar")));
}

#[test]
fn unit_enum_into_impex_preserves_explicit_flag() {
    let explicit = Value::Unit(s("Foo")).into_explicit();
    assert!(Impex::is_explicit(&explicit));

    let implicit = Value::Unit(s("Bar")).into_implicit();
    assert!(Impex::is_implicit(&implicit));
    assert!(!Impex::is_explicit(&implicit));
}

#[test]
fn mixed_enum_unit_variant_implicit() {
    let obj = decode_text(&struct_with_unit_enum_ty(), r#"{}"#);
    assert!(field(&obj, "mixed_enum").is_implicit());
    let serialized = encode_text(&obj);
    assert_eq!(serialized, r#"{}"#);
    assert!(*field(&obj, "mixed_enum") == Value::Unit(s("Empty")).into_implicit());
}

#[test]
fn mixed_enum_unit_variant_explicit() {
    let obj = decode_text(&struct_with_unit_enum_ty(), r#"{"mixed_enum":"Empty"}"#);
    assert!(
        field(&obj, "mixed_enum").is_explicit(),
        "Unit variant present in JSON should be explicit"
    );
    let serialized = encode_text(&obj);
    assert_eq!(serialized, r#"{"mixed_enum":"Empty"}"#);
}

#[test]
fn mixed_enum_named_variant_explicit() {
    let text = r#"{"mixed_enum":{"Named":{"value":"hello"}}}"#;
    let obj = decode_text(&struct_with_unit_enum_ty(), text);
    assert!(field(&obj, "mixed_enum").is_explicit());
    let serialized = encode_text(&obj);
    assert_eq!(serialized, text);
}

#[test]
fn mixed_enum_tuple_variant_explicit() {
    let text = r#"{"mixed_enum":{"Tuple":42}}"#;
    let obj = decode_text(&struct_with_unit_enum_ty(), text);
    assert!(field(&obj, "mixed_enum").is_explicit());
    let serialized = encode_text(&obj);
    assert_eq!(serialized, text);
}

#[test]
fn mixed_enum_into_value_roundtrip() {
    let empty = Value::Unit(s("Empty")).into_explicit();
    assert!(Impex::is_explicit(&empty));
    assert_eq!(Impex::into_value(empty), Value::Unit(s("Empty")));

    let named_value = || {
        Value::Variant(
            s("Named"),
            Box::new(Value::Record(strs(&["value"]), vec![str_val("test")])),
        )
    };
    let named = named_value().into_explicit();
    assert!(Impex::is_explicit(&named));
    assert_eq!(Impex::into_value(named), named_value());

    let tuple_value = || Value::Variant(s("Tuple"), Box::new(Value::List(vec![i32_val(123)])));
    let tuple = tuple_value().into_explicit();
    assert!(Impex::is_explicit(&tuple));
    assert_eq!(Impex::into_value(tuple), tuple_value());
}

#[test]
fn option_impex_explicit_null_reserializes_as_null() {
    let json = r#"{"opt":null}"#;
    let obj = decode_text(&option_struct_ty(Value::Nil), json);
    let opt = field(&obj, "opt");
    assert!(opt.is_explicit(), "null in JSON should be explicit");
    assert!(matches!(opt, Overlay::Opt(o) if o.is_none()), "Value should be None");
    let serialized = encode_text(&obj);
    assert_eq!(serialized, r#"{"opt":null}"#);
}

#[test]
fn option_impex_missing_field_is_implicit_and_not_serialized() {
    let json = r#"{}"#;
    let obj = decode_text(&option_struct_ty(Value::Nil), json);
    let opt = field(&obj, "opt");
    assert!(opt.is_implicit(), "Missing field should be implicit");
    assert!(matches!(opt, Overlay::Opt(o) if o.is_none()), "Value should be None");
    let serialized = encode_text(&obj);
    assert_eq!(serialized, r#"{}"#);
}

#[test]
fn option_impex_explicit_value_reserializes() {
    let json = r#"{"opt":42}"#;
    let obj = decode_text(&option_struct_ty(Value::Nil), json);
    let opt = field(&obj, "opt");
    assert!(opt.is_explicit(), "Value in JSON should be explicit");
    match opt {
        Overlay::Opt(o) => assert_eq!(leaf(o.as_ref().unwrap()).value(), &Prim::I32(42)),
        _ => panic!(),
    }
    let serialized = encode_text(&obj);
    assert_eq!(serialized, r#"{"opt":42}"#);
}

#[test]
fn some_option_impex_explicit_null_reserializes_as_null() {
    let json = r#"{"opt":null}"#;
    let obj = decode_text(&option_struct_ty(Value::Just(Box::new(i32_val(42)))), json);
    let opt = field(&obj, "opt");
    assert!(opt.is_explicit(), "null in JSON should be explicit");
    assert!(matches!(opt, Overlay::Opt(o) if o.is_none()), "Value should be None");
    let serialized = encode_text(&obj);
    assert_eq!(serialized, r#"{"opt":null}"#);
}

#[test]
fn some_option_impex_missing_field_is_implicit_and_not_serialized() {
    let json = r#"{}"#;
    let obj = decode_text(&option_struct_ty(Value::Just(Box::new(i32_val(42)))), json);
    let opt = field(&obj, "opt");
    assert!(opt.is_implicit(), "Missing field should be implicit");
    assert_eq!(opt.value(), Value::Just(Box::new(i32_val(42))), "Value should be None");
    let serialized = encode_text(&obj);
    assert_eq!(serialized, r#"{}"#);
}

#[test]
fn array_forward_children() {
    let ty = Ty::Record(
        strs(&["foo", "bar"]),
        vec![
            Ty::Opt(Box::new(Ty::Array(Box::new(prim(PrimKind::I32)), 3))),
            Ty::Sequence(Box::new(prim(PrimKind::U32))),
        ],
        vec![Value::Nil, Value::List(vec![])],
    );
    let text = r#"{"bar":[1]}"#;
    let x = decode_text(&ty, text);
    assert!(matches!(field(&x, "foo"), Overlay::Opt(o) if o.as_ref().is_none()));
    assert_eq!(Value::List(vec![u32_val(1)]), field(&x, "bar").value());
    assert_eq!(text, encode_text(&x));
}
