use libcorn::de::{answer_value, answer_variant, deserialize_value, Deserializer, Request, VariantShape, Visit};
use libcorn::error::Error;
use libcorn::parse;
use libcorn::resolve::Env;
use libcorn::value::{ObjectMap, Value};

fn no_env() -> Env {
    Env { vars: vec![] }
}

fn s(text: &str) -> Value {
    Value::String(text.to_string())
}

fn field(v: Value, key: &str) -> Value {
    match v {
        Value::Object(m) => m.to_entries().into_iter().find(|(k, _)| k == key).map(|(_, v)| v).unwrap(),
        other => panic!("not an object: {:?}", other),
    }
}

#[test]
fn round_trip_through_any() {
    let v = parse("{ a = [1 2.5 \"x\" true null] b.c = { d = -3 } }", &no_env()).unwrap();
    let back = deserialize_value(Deserializer::from_value(v.deep_clone())).unwrap();
    assert_eq!(back, v);
}

#[test]
fn mapping_keeps_entry_order() {
    let v = parse("{ b = 1 a = 2 }", &no_env()).unwrap();
    let answer = answer_value(v, Request::Mapping).unwrap();
    assert_eq!(
        answer,
        Visit::Mapping(vec![("b".to_string(), Value::Integer(1)), ("a".to_string(), Value::Integer(2))])
    );
}

#[test]
fn enum_object_with_two_entries_fails() {
    let v = parse("{ e = { a = 1 b = 2 } }", &no_env()).unwrap();
    let r = answer_value(field(v, "e"), Request::Enum);
    assert!(matches!(r, Err(Error::DeserializationError(_))));
}

#[test]
fn cursor_is_single_use() {
    let mut d = Deserializer::from_value(Value::Integer(1));
    assert_eq!(d.answer(Request::I64), Ok(Visit::Integer(1)));
    assert_eq!(
        d.answer(Request::I64),
        Err(Error::DeserializationError("Deserializer value unexpectedly `None`".to_string()))
    );
}

#[test]
fn enum_from_string_tag() {
    let v = field(parse("{ status = \"active\" }", &no_env()).unwrap(), "status");
    let visit = Deserializer::from_value(v).answer(Request::Enum).unwrap();
    assert_eq!(visit, Visit::Enum("active".to_string(), None));
    assert_eq!(answer_variant(None, VariantShape::Unit), Ok(Visit::Unit));
}

#[test]
fn enum_from_single_entry_object() {
    let v = field(parse("{ status = { custom = \"x\" } }", &no_env()).unwrap(), "status");
    let visit = Deserializer::from_value(v).answer(Request::Enum).unwrap();
    assert_eq!(visit, Visit::Enum("custom".to_string(), Some(s("x"))));
    let content = match visit {
        Visit::Enum(_, c) => c,
        _ => unreachable!(),
    };
    let inner = match answer_variant(content, VariantShape::Newtype).unwrap() {
        Visit::Newtype(v) => v,
        other => panic!("expected a newtype, got {:?}", other),
    };
    assert_eq!(Deserializer::from_value(inner).answer(Request::Str), Ok(Visit::Str("x".to_string())));
}

#[test]
fn enum_from_empty_object_fails() {
    let r = answer_value(Value::Object(ObjectMap::from_entries(vec![])), Request::Enum);
    assert_eq!(
        r,
        Err(Error::DeserializationError(
            "Cannot determine variant: an enum object needs exactly one entry".to_string()
        ))
    );
}

#[test]
fn enum_from_integer_fails() {
    let r = answer_value(Value::Integer(3), Request::Enum);
    assert_eq!(
        r,
        Err(Error::DeserializationError(
            "Expected object or string (enum variant), found 'Integer(3)'".to_string()
        ))
    );
}

#[test]
fn boolean_for_string_is_mismatch() {
    let r = Deserializer::from_value(Value::Boolean(true)).answer(Request::Str);
    assert_eq!(r, Err(Error::DeserializationError("Expected string, found 'Boolean(true)'".to_string())));
}

#[test]
fn char_takes_first_character() {
    assert_eq!(answer_value(s("xyz"), Request::Char), Ok(Visit::Char('x')));
    assert_eq!(
        answer_value(s(""), Request::Char),
        Err(Error::DeserializationError("Expected char, found '\"empty string\"'".to_string()))
    );
}

#[test]
fn option_requests() {
    assert_eq!(answer_value(Value::Null, Request::Option), Ok(Visit::Absent));
    assert_eq!(answer_value(Value::Integer(2), Request::Option), Ok(Visit::Present(Value::Integer(2))));
}

#[test]
fn unit_requests() {
    assert_eq!(answer_value(Value::Null, Request::Unit), Ok(Visit::Unit));
    assert_eq!(
        answer_value(Value::Integer(0), Request::Unit),
        Err(Error::DeserializationError("Expected null, found 'Integer(0)'".to_string()))
    );
}

#[test]
fn integer_and_float_requests() {
    assert_eq!(answer_value(Value::Integer(300), Request::U8), Ok(Visit::U8(44)));
    assert_eq!(answer_value(Value::Integer(300), Request::I64), Ok(Visit::Integer(300)));
    assert_eq!(answer_value(Value::Integer(-129), Request::I8), Ok(Visit::I8(127)));
    assert_eq!(answer_value(Value::Integer(70000), Request::I16), Ok(Visit::I16(4464)));
    assert_eq!(answer_value(Value::Integer(-1), Request::U64), Ok(Visit::U64(u64::MAX)));
    assert_eq!(answer_value(Value::Integer(-1), Request::U32), Ok(Visit::U32(u32::MAX)));
    assert_eq!(answer_value(Value::Integer(65537), Request::U16), Ok(Visit::U16(1)));
    assert_eq!(answer_value(Value::Integer(1 << 40), Request::I32), Ok(Visit::I32(0)));
    assert_eq!(
        answer_value(s("1"), Request::I32),
        Err(Error::DeserializationError("Expected integer (i32), found 'String(\"1\")'".to_string()))
    );
    assert_eq!(answer_value(Value::Float("1.5".to_string()), Request::F64), Ok(Visit::Float("1.5".to_string())));
}

#[test]
fn sequence_and_map_requests() {
    assert_eq!(
        answer_value(Value::Array(vec![Value::Null]), Request::Sequence),
        Ok(Visit::Sequence(vec![Value::Null]))
    );
    assert_eq!(
        answer_value(Value::Object(ObjectMap::from_entries(vec![("k".to_string(), Value::Null)])), Request::Mapping),
        Ok(Visit::Mapping(vec![("k".to_string(), Value::Null)]))
    );
    assert_eq!(
        answer_value(Value::Null, Request::Mapping),
        Err(Error::DeserializationError("Expected object, found 'Null(None)'".to_string()))
    );
}

#[test]
fn bytes_request_takes_string() {
    assert_eq!(answer_value(s("ab"), Request::Bytes), Ok(Visit::Bytes("ab".to_string())));
}

#[test]
fn variant_shapes() {
    assert_eq!(
        answer_variant(Some(Value::Array(vec![])), VariantShape::Tuple),
        Ok(Visit::Sequence(vec![]))
    );
    assert_eq!(
        answer_variant(Some(Value::Object(ObjectMap::from_entries(vec![]))), VariantShape::Struct),
        Ok(Visit::Mapping(vec![]))
    );
    assert_eq!(
        answer_variant(None, VariantShape::Newtype),
        Err(Error::DeserializationError("Expected value to exist".to_string()))
    );
}

#[test]
fn value_kind_names() {
    let v = parse("{ a = [1 2.0 \"s\" true null {}] }", &no_env()).unwrap();
    assert_eq!(v.kind(), "object");
    let kinds: Vec<&str> = match field(v, "a") {
        Value::Array(vs) => vs.iter().map(|x| x.kind()).collect(),
        other => panic!("not an array: {:?}", other),
    };
    assert_eq!(kinds, vec!["integer", "float", "string", "boolean", "null", "object"]);
}

#[test]
fn rule_names() {
    assert_eq!(libcorn::parser::Rule::Eoi.name(), "EOI");
    assert_eq!(libcorn::parser::Rule::AssignBlock.name(), "assign_block");
}

#[test]
fn mismatch_shows_value_in_debug_form() {
    let v = parse("{ a = [1 -2 \"q\\\"\" null { k = false } 1.5] }", &no_env()).unwrap();
    let r = answer_value(field(v, "a"), Request::Mapping);
    assert_eq!(
        r,
        Err(Error::DeserializationError(
            "Expected object, found 'Array([Integer(1), Integer(-2), String(\"q\\\"\"), Null(None), Object({\"k\": Boolean(false)}), Float(1.5)])'".to_string()
        ))
    );
    assert_eq!(
        answer_value(Value::Integer(1), Request::F64),
        Err(Error::DeserializationError("Expected float (f64), found 'Integer(1)'".to_string()))
    );
    assert_eq!(
        answer_value(Value::Integer(i64::MIN), Request::Str),
        Err(Error::DeserializationError("Expected string, found 'Integer(-9223372036854775808)'".to_string()))
    );
}

#[test]
fn round_trip_keeps_entry_order() {
    let v = parse("{ z = 1 a = { y = 2 b = 3 } }", &no_env()).unwrap();
    let back = deserialize_value(Deserializer::from_value(v.deep_clone())).unwrap();
    let keys = |x: &Value| match x {
        Value::Object(m) => m.to_entries().into_iter().map(|(k, _)| k).collect::<Vec<_>>(),
        _ => vec![],
    };
    assert_eq!(keys(&back), vec!["z".to_string(), "a".to_string()]);
    assert_eq!(keys(&field(back, "a")), vec!["y".to_string(), "b".to_string()]);
}
