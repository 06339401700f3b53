use std::num::NonZeroU8;

use impex::wire::{Doc, PrimKind, Ty};
use impex::{Impex, Overlay, Prim, TaggedValue, Value};

type VariableName = (NonZeroU8, [u8; 30]);

type MyPrimitiveValue = TaggedValue<VariableName>;

fn s(x: &str) -> String {
    x.to_string()
}

fn strs(xs: &[&str]) -> Vec<String> {
    xs.iter().map(|x| x.to_string()).collect()
}

fn tuple_struct_ty() -> Ty {
    Ty::Tuple(vec![Ty::Prim(PrimKind::I32), Ty::Prim(PrimKind::I64)])
}

fn tuple_struct_default() -> Value {
    Value::List(vec![Value::Prim(Prim::I32(42)), Value::Prim(Prim::I64(43))])
}

/// `struct KeyStructConfig { num_cores: u32, num_threads: u32 = 42, enum_config, tuple_struct_config }`.
fn key_struct_ty() -> Ty {
    let enum_config = Ty::Enum(
        strs(&["Foo", "Bar"]),
        vec![
            Ty::Record(
                strs(&["foo_value", "tuple_struct_config"]),
                vec![Ty::Prim(PrimKind::Str), tuple_struct_ty()],
                vec![Value::Prim(Prim::Str(s(""))), tuple_struct_default()],
            ),
            Ty::Tuple(vec![Ty::Prim(PrimKind::Str), Ty::Prim(PrimKind::I32), tuple_struct_ty()]),
        ],
    );
    Ty::Record(
        strs(&["num_cores", "num_threads", "enum_config", "tuple_struct_config"]),
        vec![Ty::Prim(PrimKind::U32), Ty::Prim(PrimKind::U32), enum_config, tuple_struct_ty()],
        vec![
            Value::Prim(Prim::U32(0)),
            Value::Prim(Prim::U32(42)),
            Value::Variant(
                s("Bar"),
                Box::new(Value::List(vec![
                    Value::Prim(Prim::Str(s("Bar"))),
                    Value::Prim(Prim::I32(42)),
                    tuple_struct_default(),
                ])),
            ),
            tuple_struct_default(),
        ],
    )
}

fn num_cores_43() -> Doc {
    Doc::Obj(strs(&["num_cores"]), vec![Doc::Int(43)])
}

fn fields(o: &Overlay<MyPrimitiveValue>) -> &Vec<Overlay<MyPrimitiveValue>> {
    match o {
        Overlay::Record(_, fs) | Overlay::List(fs) => fs,
        _ => panic!("not a composite"),
    }
}

fn leaf(o: &Overlay<MyPrimitiveValue>) -> &MyPrimitiveValue {
    match o {
        Overlay::Leaf(l) => l,
        _ => panic!("not a leaf"),
    }
}

fn payload<'a>(o: &'a Overlay<MyPrimitiveValue>, name: &str) -> &'a Overlay<MyPrimitiveValue> {
    match o {
        Overlay::Variant(n, p) if n == name => p,
        _ => panic!("Expected EnumConfigImpex::{}", name),
    }
}

#[test]
fn custom_strategy() {
    let config: Overlay<MyPrimitiveValue> = key_struct_ty().decode_as(&num_cores_43()).unwrap();
    let num_cores = leaf(&fields(&config)[0]);
    assert!(num_cores.tag.is_none());
    assert!(num_cores.is_explicit);
    assert_eq!(num_cores.value, Prim::U32(43));
}

#[test]
fn test_visitor() {
    let mut config: Overlay<MyPrimitiveValue> = key_struct_ty().decode_as(&num_cores_43()).unwrap();
    let variable_name = (NonZeroU8::MIN, *b"abcdefghijklmnopqrstuvwxyz1234");
    config.visit(&variable_name);
    let bar = fields(payload(&fields(&config)[2], "Bar"));
    assert_eq!(leaf(&bar[0]).tag, Some(variable_name));
    assert_eq!(leaf(&bar[1]).tag, Some(variable_name));
    assert_eq!(leaf(&fields(&bar[2])[0]).tag, Some(variable_name));
    assert_eq!(leaf(&fields(&bar[2])[1]).tag, Some(variable_name));
    assert_eq!(leaf(&fields(&config)[1]).tag, Some(variable_name));
    assert_eq!(leaf(&fields(&config)[0]).tag, Some(variable_name));

    if let Overlay::Record(_, fs) = &mut config {
        fs[2] = Value::Variant(
            s("Foo"),
            Box::new(Value::Record(
                strs(&["foo_value", "tuple_struct_config"]),
                vec![Value::Prim(Prim::Str(s("Foo"))), tuple_struct_default()],
            )),
        )
        .overlay_as(true);
    }
    config.visit(&variable_name);
    let foo = fields(payload(&fields(&config)[2], "Foo"));
    assert_eq!(leaf(&foo[0]).tag, Some(variable_name));
    assert_eq!(leaf(&fields(&foo[1])[0]).tag, Some(variable_name));
}

#[test]
fn visiting_keeps_values_and_flags() {
    let mut config: Overlay<MyPrimitiveValue> = key_struct_ty().decode_as(&num_cores_43()).unwrap();
    let before = config.encode();
    let value_before = Impex::into_value(key_struct_ty().decode(&num_cores_43()).unwrap());
    config.visit(&(NonZeroU8::MIN, [b'x'; 30]));
    assert_eq!(config.encode(), before);
    assert!(Impex::is_explicit(&config));
    assert_eq!(config.value(), value_before);
}
