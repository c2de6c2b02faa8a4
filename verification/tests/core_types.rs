//! Tests for the core type system: DataType, TypeInfo, NodeTypes,
//! PropertyValue, NumberValue and Position.

use graphy::{DataType, NodeTypes, NumberValue, Position, PropertyValue, TypeInfo};

#[test]
fn typeinfo_new_from_str() {
    let ti = TypeInfo::new("i64");
    assert_eq!(ti.type_string, "i64");
}

#[test]
fn typeinfo_new_from_string() {
    let s = String::from("Vec<u8>");
    let ti = TypeInfo::new(s.as_str());
    assert_eq!(ti.type_string, s);
}

#[test]
fn typeinfo_display() {
    let ti = TypeInfo::new("(f32, f32)");
    assert_eq!(ti.type_string, "(f32, f32)");
}

#[test]
fn typeinfo_from_str_ref() {
    let ti: TypeInfo = "bool".into();
    assert_eq!(ti.type_string, "bool");
}

#[test]
fn typeinfo_from_string() {
    let ti: TypeInfo = String::from("String").into();
    assert_eq!(ti.type_string, "String");
}

#[test]
fn typeinfo_clone_and_eq() {
    let a = TypeInfo::new("u32");
    let b = a.clone();
    assert_eq!(a, b);
}

#[test]
fn typeinfo_ne() {
    let a = TypeInfo::new("u32");
    let b = TypeInfo::new("i32");
    assert_ne!(a, b);
}

#[test]
fn datatype_execution_variant() {
    let dt = DataType::Execution;
    assert_eq!(dt, DataType::Execution);
}

#[test]
fn datatype_typed_variant() {
    let dt = DataType::Typed("f64".into());
    match &dt {
        DataType::Typed(ti) => assert_eq!(ti.type_string, "f64"),
        _ => panic!("expected Typed variant"),
    }
}

#[test]
fn datatype_legacy_variants() {
    let variants = vec![
        DataType::Number,
        DataType::String,
        DataType::Boolean,
        DataType::Vector2,
        DataType::Vector3,
        DataType::Color,
        DataType::Any,
    ];
    for v in &variants {
        assert_eq!(v, v);
    }
}

#[test]
fn datatype_ne_across_variants() {
    assert_ne!(DataType::Number, DataType::Boolean);
    assert_ne!(DataType::Execution, DataType::Any);
}

#[test]
fn datatype_clone() {
    let original = DataType::Typed("HashMap<String, i32>".into());
    let cloned = original.clone();
    assert_eq!(original, cloned);
}

#[test]
fn nodetypes_pure() {
    assert_eq!(NodeTypes::pure, NodeTypes::pure);
}

#[test]
fn nodetypes_fn() {
    assert_eq!(NodeTypes::fn_, NodeTypes::fn_);
}

#[test]
fn nodetypes_control_flow() {
    assert_eq!(NodeTypes::control_flow, NodeTypes::control_flow);
}

#[test]
fn nodetypes_event() {
    assert_eq!(NodeTypes::event, NodeTypes::event);
}

#[test]
fn nodetypes_ne() {
    assert_ne!(NodeTypes::pure, NodeTypes::fn_);
    assert_ne!(NodeTypes::control_flow, NodeTypes::event);
}

#[test]
fn nodetypes_copy() {
    let a = NodeTypes::pure;
    let b = a;
    assert_eq!(a, b);
}

#[test]
fn property_value_string() {
    let pv = PropertyValue::String("hello".to_string());
    match &pv {
        PropertyValue::String(s) => assert_eq!(s, "hello"),
        _ => panic!("expected String variant"),
    }
}

#[test]
fn property_value_number() {
    let pv = PropertyValue::Number(NumberValue::from_i64(42));
    match &pv {
        PropertyValue::Number(n) => {
            assert_eq!(n.integer, 42);
            assert!(!n.negative);
            assert!(n.fraction.is_empty());
        }
        _ => panic!("expected Number variant"),
    }
}

#[test]
fn property_value_boolean() {
    let pv = PropertyValue::Boolean(true);
    match &pv {
        PropertyValue::Boolean(b) => assert!(*b),
        _ => panic!("expected Boolean variant"),
    }
}

#[test]
fn property_value_vector2() {
    let pv = PropertyValue::Vector2(NumberValue::from_i64(1), NumberValue::from_i64(2));
    match &pv {
        PropertyValue::Vector2(x, y) => {
            assert_eq!(x.integer, 1);
            assert_eq!(y.integer, 2);
        }
        _ => panic!("expected Vector2 variant"),
    }
}

#[test]
fn property_value_vector3() {
    let pv = PropertyValue::Vector3(
        NumberValue::from_i64(1),
        NumberValue::from_i64(2),
        NumberValue::from_i64(3),
    );
    match &pv {
        PropertyValue::Vector3(x, y, z) => {
            assert_eq!(x.integer, 1);
            assert_eq!(y.integer, 2);
            assert_eq!(z.integer, 3);
        }
        _ => panic!("expected Vector3 variant"),
    }
}

#[test]
fn property_value_color() {
    let pv = PropertyValue::Color(
        NumberValue::from_i64(1),
        NumberValue::with_fraction(false, 0, "5"),
        NumberValue::from_i64(0),
        NumberValue::from_i64(1),
    );
    match &pv {
        PropertyValue::Color(r, g, b, a) => {
            assert_eq!(r.integer, 1);
            assert_eq!(g.fraction, "5");
            assert_eq!(b.integer, 0);
            assert_eq!(a.integer, 1);
        }
        _ => panic!("expected Color variant"),
    }
}

#[test]
fn property_value_clone() {
    let original = PropertyValue::Vector3(
        NumberValue::from_i64(1),
        NumberValue::from_i64(2),
        NumberValue::from_i64(3),
    );
    let cloned = original.clone();
    match (&original, &cloned) {
        (PropertyValue::Vector3(x1, y1, z1), PropertyValue::Vector3(x2, y2, z2)) => {
            assert_eq!(x1.integer, x2.integer);
            assert_eq!(y1.integer, y2.integer);
            assert_eq!(z1.integer, z2.integer);
        }
        _ => panic!("clone didn't preserve variant"),
    }
}

#[test]
fn position_new() {
    let p = Position::new(10, 20);
    assert_eq!(p.x, 10);
    assert_eq!(p.y, 20);
}

#[test]
fn position_zero() {
    let p = Position::zero();
    assert_eq!(p.x, 0);
    assert_eq!(p.y, 0);
}

#[test]
fn position_copy() {
    let a = Position::new(1, 2);
    let b = a;
    assert_eq!(a.x, b.x);
    assert_eq!(a.y, b.y);
}

#[test]
fn position_clone() {
    let a = Position::new(3, 4);
    let b = a.clone();
    assert_eq!(a.x, b.x);
    assert_eq!(a.y, b.y);
}

#[test]
fn number_text_whole() {
    assert_eq!(NumberValue::from_i64(42).text(), "42");
    assert_eq!(NumberValue::from_i64(0).text(), "0");
    assert_eq!(NumberValue::from_i64(-7).text(), "-7");
}

#[test]
fn number_text_fractional() {
    assert_eq!(NumberValue::with_fraction(false, 3, "14").text(), "3.14");
    assert_eq!(NumberValue::with_fraction(true, 0, "5").text(), "-0.5");
}

#[test]
fn property_text_canonicalization() {
    // a whole number prints without a decimal point
    let n = PropertyValue::Number(NumberValue::from_i64(42));
    assert_eq!(graphy::property_value_to_string(&n), "42");
    // a fractional number keeps its digits
    let f = PropertyValue::Number(NumberValue::with_fraction(false, 3, "14"));
    assert!(graphy::property_value_to_string(&f).contains("3.14"));
    // a boolean prints as its keyword
    let b = PropertyValue::Boolean(true);
    assert_eq!(graphy::property_value_to_string(&b), "true");
}

#[test]
fn property_text_string_is_quoted_and_escaped() {
    let s = PropertyValue::String("say \"hi\"\n".to_string());
    let text = graphy::property_value_to_string(&s);
    assert_eq!(text, "\"say \\\"hi\\\"\\n\"");
}

#[test]
fn property_text_vector_tuple() {
    let v = PropertyValue::Vector2(NumberValue::from_i64(1), NumberValue::from_i64(2));
    assert_eq!(graphy::property_value_to_string(&v), "(1, 2)");
}
