use dm_introspect::constant::ConstantValue;
use dm_introspect::variable::{DmError, DmProc, DmVariable};

fn s(text: &str) -> String {
    text.to_string()
}

#[test]
fn absent_default_has_no_value_and_no_kind() {
    let v = DmVariable::new(s("u"), None, String::new());
    assert!(!v.has_value());
    assert_eq!(v.value_is_num(), Err(DmError::UnsetValue));
    assert_eq!(v.value_is_string(), Err(DmError::UnsetValue));
    assert_eq!(v.value_is_resource_literal(), Err(DmError::UnsetValue));
    assert_eq!(v.value_is_list(), Err(DmError::UnsetValue));
    assert_eq!(v.value_is_null(), Err(DmError::UnsetValue));
    assert_eq!(v.value(), Err(DmError::UnsetValue));
    assert_eq!(v.value_repr(), "Null");
}

#[test]
fn absent_default_ignores_its_text() {
    let v = DmVariable::new(s("u"), None, s("left over"));
    assert_eq!(v.value_repr(), "Null");
}

#[test]
fn null_default_is_a_value() {
    let v = DmVariable::new(s("n"), Some(ConstantValue::Null), s("null"));
    assert!(v.has_value());
    assert_eq!(v.value_is_null(), Ok(true));
    assert_eq!(v.value_is_num(), Ok(false));
    assert_eq!(v.value_is_string(), Ok(false));
    assert_eq!(v.value_is_resource_literal(), Ok(false));
    assert_eq!(v.value_is_list(), Ok(false));
    assert_eq!(v.value(), Ok(&ConstantValue::Null));
    assert_eq!(v.value_repr(), "null");
}

#[test]
fn each_kind_answers_its_own_predicate_only() {
    let values = vec![
        ConstantValue::Number(1.5f32.to_bits()),
        ConstantValue::Text(s("t")),
        ConstantValue::ResourceRef(s("icons/a.dmi")),
        ConstantValue::List(Vec::new()),
        ConstantValue::Null,
        ConstantValue::Opaque(s("new /obj")),
    ];
    let mut row = 0;
    for value in values {
        let v = DmVariable::new(s("x"), Some(value), s("shown"));
        assert!(v.has_value());
        assert_eq!(v.value_is_num(), Ok(row == 0));
        assert_eq!(v.value_is_string(), Ok(row == 1));
        assert_eq!(v.value_is_resource_literal(), Ok(row == 2));
        assert_eq!(v.value_is_list(), Ok(row == 3));
        assert_eq!(v.value_is_null(), Ok(row == 4));
        assert_eq!(v.value_repr(), "shown");
        row += 1;
    }
}

#[test]
fn list_keeps_both_entries_in_order() {
    let list = ConstantValue::List(vec![
        (ConstantValue::Text(s("a")), Some(ConstantValue::Text(s("1")))),
        (ConstantValue::Text(s("b")), None),
    ]);
    let copy = list.duplicate();
    assert_eq!(copy, list);
    match copy {
        ConstantValue::List(entries) => {
            assert_eq!(entries.len(), 2);
            assert_eq!(entries[0], (ConstantValue::Text(s("a")), Some(ConstantValue::Text(s("1")))));
            assert_eq!(entries[1], (ConstantValue::Text(s("b")), None));
        }
        _ => panic!("not a list"),
    }
}

#[test]
fn duplicate_copies_nested_lists() {
    let inner = ConstantValue::List(vec![
        (ConstantValue::Number(3.0f32.to_bits()), None),
        (ConstantValue::ResourceRef(s("a.ogg")), Some(ConstantValue::Null)),
    ]);
    let outer = ConstantValue::List(vec![
        (ConstantValue::Text(s("k")), Some(inner)),
        (ConstantValue::Opaque(s("/obj/item")), None),
    ]);
    let copy = outer.duplicate();
    assert_eq!(copy, outer);
    assert_eq!(ConstantValue::Number(7).duplicate(), ConstantValue::Number(7));
    assert_eq!(ConstantValue::Text(s("q")).duplicate(), ConstantValue::Text(s("q")));
}

#[test]
fn variable_duplicate_keeps_every_field() {
    let v = DmVariable::new(s("name"), Some(ConstantValue::Text(s("Bob"))), s("\"Bob\""));
    let copy = v.duplicate();
    assert_eq!(copy, v);
    assert_eq!(copy.name, "name");
    assert_eq!(copy.text, "\"Bob\"");
    let p = DmProc::new(s("Del"));
    assert_eq!(p.duplicate(), p);
    assert_eq!(p.name, "Del");
}

#[test]
fn error_kinds_are_distinct() {
    let a = DmError::PathNotFound(s("x"));
    let b = DmError::AttributeNotFound(s("x"));
    let c = DmError::UnsetValue;
    let d = DmError::ConstructionFailure(s("x"));
    assert_ne!(a, b);
    assert_ne!(a, c);
    assert_ne!(a, d);
    assert_ne!(b, c);
    assert_ne!(b, d);
    assert_ne!(c, d);
    assert_eq!(a, DmError::PathNotFound(s("x")));
    assert_ne!(a, DmError::PathNotFound(s("y")));
}
