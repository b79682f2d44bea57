use valuable::owned::{into_owned, Mapping, Number, ValueOwned};
use valuable::value::{check_owned_form, FieldDefs, Fields, StructDef, Structure, Value, Variant};

fn structure(name: &str, fields: Fields) -> Value {
    Value::Structable(Structure {
        definition: StructDef { name: name.to_string(), fields: FieldDefs::Unnamed(0) },
        visits: vec![fields],
    })
}

fn entry<'a>(m: &'a Mapping, i: usize) -> (&'a str, &'a ValueOwned) {
    let (k, v) = m.get_index(i).expect("entry");
    (k.as_str(), v)
}

#[test]
fn primitives_become_numbers() {
    assert!(matches!(into_owned(&Value::U8(7)), ValueOwned::Number(Number::U8(7))));
    assert!(matches!(into_owned(&Value::I64(-3)), ValueOwned::Number(Number::I64(-3))));
    assert!(matches!(into_owned(&Value::Isize(-1)), ValueOwned::Number(Number::ISIZE(-1))));
    assert!(matches!(into_owned(&Value::Usize(9)), ValueOwned::Number(Number::USIZE(9))));
    assert!(matches!(
        into_owned(&Value::U128(u128::MAX)),
        ValueOwned::Number(Number::U128(u128::MAX))
    ));
    let bits = 1.5f64.to_bits();
    match into_owned(&Value::F64(bits)) {
        ValueOwned::Number(Number::F64(b)) => assert_eq!(f64::from_bits(b), 1.5),
        other => panic!("unexpected {:?}", other),
    }
}

#[test]
fn scalars_are_copied() {
    assert!(matches!(into_owned(&Value::Bool(true)), ValueOwned::Bool(true)));
    assert!(matches!(into_owned(&Value::Char('x')), ValueOwned::Char('x')));
    assert!(matches!(into_owned(&Value::Unit), ValueOwned::Unit));
    match into_owned(&Value::String("hello".to_string())) {
        ValueOwned::String(s) => assert_eq!(s, "hello"),
        other => panic!("unexpected {:?}", other),
    }
    match into_owned(&Value::Path(std::path::PathBuf::from("/tmp/x"))) {
        ValueOwned::Path(p) => assert_eq!(p, std::path::PathBuf::from("/tmp/x")),
        other => panic!("unexpected {:?}", other),
    }
}

#[test]
fn lists_and_tuples_become_sequences() {
    let list = Value::Listable(vec![Value::I32(1), Value::Bool(false), Value::Listable(vec![])]);
    match into_owned(&list) {
        ValueOwned::Sequence(items) => {
            assert_eq!(items.len(), 3);
            assert!(matches!(items[0], ValueOwned::Number(Number::I32(1))));
            assert!(matches!(items[1], ValueOwned::Bool(false)));
            assert!(matches!(&items[2], ValueOwned::Sequence(inner) if inner.is_empty()));
        }
        other => panic!("unexpected {:?}", other),
    }
    match into_owned(&Value::Tuplable(vec![Value::U16(4), Value::Char('c')])) {
        ValueOwned::Sequence(items) => {
            assert_eq!(items.len(), 2);
            assert!(matches!(items[0], ValueOwned::Number(Number::U16(4))));
            assert!(matches!(items[1], ValueOwned::Char('c')));
        }
        other => panic!("unexpected {:?}", other),
    }
}

#[test]
fn named_fields_become_a_mapping_last_value_wins() {
    let v = structure(
        "S",
        Fields::Named(vec![
            ("a".to_string(), Value::U8(1)),
            ("b".to_string(), Value::U8(2)),
            ("a".to_string(), Value::U8(3)),
        ]),
    );
    match into_owned(&v) {
        ValueOwned::Mapping(m) => {
            assert_eq!(m.len(), 2);
            let (k0, v0) = entry(&m, 0);
            assert_eq!(k0, "a");
            assert!(matches!(v0, ValueOwned::Number(Number::U8(3))));
            let (k1, v1) = entry(&m, 1);
            assert_eq!(k1, "b");
            assert!(matches!(v1, ValueOwned::Number(Number::U8(2))));
            assert!(m.get_index(2).is_none());
        }
        other => panic!("unexpected {:?}", other),
    }
}

#[test]
fn unnamed_struct_fields_and_maps_are_not_kept() {
    match into_owned(&structure("T", Fields::Unnamed(vec![Value::U8(1)]))) {
        ValueOwned::Mapping(m) => assert_eq!(m.len(), 0),
        other => panic!("unexpected {:?}", other),
    }
    let map = Value::Mappable(vec![(Value::String("k".to_string()), Value::U8(1))]);
    match into_owned(&map) {
        ValueOwned::Mapping(m) => assert_eq!(m.len(), 0),
        other => panic!("unexpected {:?}", other),
    }
}

#[test]
fn enum_variants() {
    let unit = Value::Enumerable(Variant { name: "None".to_string(), visits: vec![Fields::Unnamed(vec![])] });
    match into_owned(&unit) {
        ValueOwned::Enum(e) => {
            assert_eq!(e.variant, "None");
            assert!(matches!(e.value, ValueOwned::Unit));
        }
        other => panic!("unexpected {:?}", other),
    }
    let empty_named =
        Value::Enumerable(Variant { name: "E".to_string(), visits: vec![Fields::Named(vec![])] });
    match into_owned(&empty_named) {
        ValueOwned::Enum(e) => assert!(matches!(e.value, ValueOwned::Unit)),
        other => panic!("unexpected {:?}", other),
    }
    let tuple = Value::Enumerable(Variant {
        name: "Some".to_string(),
        visits: vec![Fields::Unnamed(vec![Value::I8(-5)])],
    });
    match into_owned(&tuple) {
        ValueOwned::Enum(e) => {
            assert_eq!(e.variant, "Some");
            match &e.value {
                ValueOwned::Sequence(items) => {
                    assert_eq!(items.len(), 1);
                    assert!(matches!(items[0], ValueOwned::Number(Number::I8(-5))));
                }
                other => panic!("unexpected {:?}", other),
            }
        }
        other => panic!("unexpected {:?}", other),
    }
    let named = Value::Enumerable(Variant {
        name: "Point".to_string(),
        visits: vec![Fields::Named(vec![
            ("x".to_string(), Value::I32(1)),
            ("y".to_string(), Value::I32(2)),
            ("x".to_string(), Value::I32(5)),
        ])],
    });
    match into_owned(&named) {
        ValueOwned::Enum(e) => match &e.value {
            ValueOwned::Mapping(m) => {
                assert_eq!(m.len(), 2);
                let (k0, v0) = entry(m, 0);
                assert_eq!(k0, "x");
                assert!(matches!(v0, ValueOwned::Number(Number::I32(5))));
                let (k1, v1) = entry(m, 1);
                assert_eq!(k1, "y");
                assert!(matches!(v1, ValueOwned::Number(Number::I32(2))));
            }
            other => panic!("unexpected {:?}", other),
        },
        other => panic!("unexpected {:?}", other),
    }
}

#[test]
fn nested_values() {
    let inner = structure("Inner", Fields::Named(vec![("n".to_string(), Value::U32(8))]));
    let outer = Value::Listable(vec![inner, Value::Unit]);
    match into_owned(&outer) {
        ValueOwned::Sequence(items) => {
            assert_eq!(items.len(), 2);
            match &items[0] {
                ValueOwned::Mapping(m) => {
                    assert_eq!(m.len(), 1);
                    let (k, v) = entry(m, 0);
                    assert_eq!(k, "n");
                    assert!(matches!(v, ValueOwned::Number(Number::U32(8))));
                }
                other => panic!("unexpected {:?}", other),
            }
            assert!(matches!(items[1], ValueOwned::Unit));
        }
        other => panic!("unexpected {:?}", other),
    }
}

#[test]
fn mapping_insert_keeps_place() {
    let mut m = Mapping::new();
    assert_eq!(m.len(), 0);
    m.insert("first".to_string(), ValueOwned::Bool(true));
    m.insert("second".to_string(), ValueOwned::Unit);
    m.insert("first".to_string(), ValueOwned::Bool(false));
    assert_eq!(m.len(), 2);
    let (k0, v0) = entry(&m, 0);
    assert_eq!(k0, "first");
    assert!(matches!(v0, ValueOwned::Bool(false)));
    let (k1, _) = entry(&m, 1);
    assert_eq!(k1, "second");
}

#[test]
fn errors_are_found_where_visited() {
    assert!(check_owned_form(&Value::U8(1)));
    assert!(!check_owned_form(&Value::Error("boom".to_string())));
    let nested = Value::Listable(vec![
        Value::Unit,
        structure("S", Fields::Named(vec![("e".to_string(), Value::Error("x".to_string()))])),
    ]);
    assert!(!check_owned_form(&nested));
    let in_enum = Value::Enumerable(Variant {
        name: "V".to_string(),
        visits: vec![Fields::Unnamed(vec![Value::Bool(true), Value::Error("y".to_string())])],
    });
    assert!(!check_owned_form(&in_enum));
    let fine = Value::Tuplable(vec![Value::Char('a'), Value::Listable(vec![Value::I16(2)])]);
    assert!(check_owned_form(&fine));
}

#[test]
fn errors_that_are_not_visited_are_converted() {
    let in_map = Value::Mappable(vec![(Value::Error("k".to_string()), Value::Unit)]);
    assert!(check_owned_form(&in_map));
    match into_owned(&in_map) {
        ValueOwned::Mapping(m) => assert_eq!(m.len(), 0),
        other => panic!("unexpected {:?}", other),
    }
    let unnamed = structure("T", Fields::Unnamed(vec![Value::Error("z".to_string())]));
    assert!(check_owned_form(&unnamed));
    match into_owned(&unnamed) {
        ValueOwned::Mapping(m) => assert_eq!(m.len(), 0),
        other => panic!("unexpected {:?}", other),
    }
}

#[test]
fn several_field_lists_of_a_struct_fill_one_mapping() {
    let v = Value::Structable(Structure {
        definition: StructDef { name: "S".to_string(), fields: FieldDefs::Unnamed(0) },
        visits: vec![
            Fields::Named(vec![("a".to_string(), Value::U8(1)), ("b".to_string(), Value::U8(2))]),
            Fields::Unnamed(vec![Value::Error("skipped".to_string())]),
            Fields::Named(vec![("c".to_string(), Value::U8(3)), ("a".to_string(), Value::U8(4))]),
        ],
    });
    assert!(check_owned_form(&v));
    match into_owned(&v) {
        ValueOwned::Mapping(m) => {
            assert_eq!(m.len(), 3);
            let (k0, v0) = entry(&m, 0);
            assert_eq!(k0, "a");
            assert!(matches!(v0, ValueOwned::Number(Number::U8(4))));
            let (k1, v1) = entry(&m, 1);
            assert_eq!(k1, "b");
            assert!(matches!(v1, ValueOwned::Number(Number::U8(2))));
            let (k2, v2) = entry(&m, 2);
            assert_eq!(k2, "c");
            assert!(matches!(v2, ValueOwned::Number(Number::U8(3))));
        }
        other => panic!("unexpected {:?}", other),
    }
}

#[test]
fn the_last_non_empty_field_list_of_a_variant_decides() {
    let v = Value::Enumerable(Variant {
        name: "V".to_string(),
        visits: vec![
            Fields::Unnamed(vec![Value::U8(1)]),
            Fields::Named(vec![("x".to_string(), Value::Bool(true))]),
            Fields::Unnamed(vec![]),
        ],
    });
    match into_owned(&v) {
        ValueOwned::Enum(e) => {
            assert_eq!(e.variant, "V");
            match &e.value {
                ValueOwned::Mapping(m) => {
                    assert_eq!(m.len(), 1);
                    let (k, x) = entry(m, 0);
                    assert_eq!(k, "x");
                    assert!(matches!(x, ValueOwned::Bool(true)));
                }
                other => panic!("unexpected {:?}", other),
            }
        }
        other => panic!("unexpected {:?}", other),
    }
    let none = Value::Enumerable(Variant { name: "N".to_string(), visits: vec![] });
    match into_owned(&none) {
        ValueOwned::Enum(e) => assert!(matches!(e.value, ValueOwned::Unit)),
        other => panic!("unexpected {:?}", other),
    }
    let error_in_variant = Value::Enumerable(Variant {
        name: "W".to_string(),
        visits: vec![Fields::Named(vec![]), Fields::Unnamed(vec![Value::Error("e".to_string())])],
    });
    assert!(!check_owned_form(&error_in_variant));
}
