use json_main::builder::main::JsonBuilder;
use json_main::builder::parser::{parse_text, JsonBuilderParser, JsonEntity};
use json_main::builder::types::{JsonNull, JsonType};
use json_main::builder::value::JsonBuilderValue;
use json_main::error::{JsonError, StructuralFault, TypeFault};
use json_main::Json;

#[test]
fn extraction_checks_the_tag() {
    let number = JsonBuilderValue::from(300);
    assert_eq!(number.to_u16(), Ok(300));
    assert_eq!(number.to_u8(), Err(JsonError::TypeError(TypeFault::NotOfWidth)));
    assert_eq!(number.to_bool(), Err(JsonError::TypeError(TypeFault::Mismatch)));
    assert_eq!(number.to_text(), Err(JsonError::TypeError(TypeFault::Mismatch)));
    assert_eq!(number.to_optional_i64(), Ok(Some(300)));

    let null = JsonBuilderValue::from(JsonNull::new());
    assert_eq!(null.to_optional_bool(), Ok(None));
    assert_eq!(null.to_optional_u32(), Ok(None));
    assert_eq!(null.to_bool(), Err(JsonError::TypeError(TypeFault::Mismatch)));
    assert!(null.is_null());

    let text = JsonBuilderValue::from("true");
    assert_eq!(text.to_bool(), Err(JsonError::TypeError(TypeFault::Mismatch)));
    assert_eq!(text.to_optional_text(), Ok(Some(String::from("true"))));

    let negative = JsonBuilderValue::from(-1);
    assert_eq!(negative.to_i8(), Ok(-1));
    assert_eq!(negative.to_u64(), Err(JsonError::TypeError(TypeFault::NotOfWidth)));
    assert_eq!(negative.to_i128(), Ok(-1));
}

#[test]
fn a_boolean_with_other_text_is_unreadable() {
    let odd = JsonBuilderValue::new(JsonType::Boolean, String::from("yes"));
    assert_eq!(odd.to_bool(), Err(JsonError::TypeError(TypeFault::Unreadable)));
}

#[test]
fn number_by_text_accepts_numbers_only() {
    assert_eq!(JsonBuilderValue::number("3.1415").unwrap().value, "3.1415");
    assert_eq!(JsonBuilderValue::number("-1e-7").unwrap().dt, JsonType::Number);
    assert_eq!(
        JsonBuilderValue::number("1.2.3").err(),
        Some(JsonError::TypeError(TypeFault::UnknownNumber))
    );
}

#[test]
fn to_array_reads_the_array_back() {
    let mut inner = Json::builder_array();
    inner.append(1).append("two").append(JsonNull::new());
    let value = JsonBuilderValue::from(inner.clone());
    let back = value.to_array().unwrap();
    assert_eq!(back.len(), 3);
    assert_eq!(back.get(0).unwrap().to_u8(), Ok(1));
    assert_eq!(back.get(1).unwrap().to_text(), Ok(String::from("two")));
    assert!(back.get(2).unwrap().is_null());
    assert_eq!(back.render(), inner.render());
    assert_eq!(value.to_object().err(), Some(JsonError::TypeError(TypeFault::Mismatch)));
}

#[test]
fn round_trip_keeps_keys_values_and_order() {
    let mut inner = Json::builder_object();
    inner.insert("n", -17).insert("s", "a b, c").insert("e", "");
    let mut list = Json::builder_array();
    list.append(true).append(JsonNull::new()).append(inner).append(vec![1u8, 2, 3]);
    let mut root = Json::builder_object();
    root.insert("list", list).insert("big", 340282366920938463463374607431768211455u128);
    let text = root.render();
    match parse_text(&text).unwrap() {
        JsonEntity::Object(back) => {
            assert_eq!(back.len(), root.len());
            assert_eq!(back.render(), text);
            assert_eq!(back.key_at(0).unwrap(), "list");
            assert_eq!(back.key_at(1).unwrap(), "big");
            assert_eq!(back.value_at(0).unwrap().dt, JsonType::Array);
        }
        JsonEntity::Array(_) => panic!("an object was expected"),
    }
}

#[test]
fn nested_arrays_keep_order_and_kinds() {
    let text = r#"[[1,2,3],["1","2","3"]]"#;
    match parse_text(text).unwrap() {
        JsonEntity::Array(back) => {
            assert_eq!(back.len(), 2);
            assert_eq!(back.render(), text);
            let numbers = back.get(0).unwrap().to_array().unwrap();
            let strings = back.get(1).unwrap().to_array().unwrap();
            assert_eq!(numbers.get(0).unwrap().dt, JsonType::Number);
            assert_eq!(numbers.get(2).unwrap().to_u8(), Ok(3));
            assert_eq!(strings.get(0).unwrap().dt, JsonType::String);
            assert_eq!(strings.get(2).unwrap().to_text(), Ok(String::from("3")));
        }
        JsonEntity::Object(_) => panic!("an array was expected"),
    }
}

#[test]
fn end_to_end_object_of_four_kinds() {
    let text = r#"{"key1":"string0","key2":123,"key3":true,"key4":null}"#;
    let first = match parse_text(text).unwrap() {
        JsonEntity::Object(o) => o,
        JsonEntity::Array(_) => panic!("an object was expected"),
    };
    assert_eq!(first.len(), 4);
    assert_eq!(first.get("key1").unwrap().dt, JsonType::String);
    assert_eq!(first.get("key2").unwrap().dt, JsonType::Number);
    assert_eq!(first.get("key3").unwrap().dt, JsonType::Boolean);
    assert_eq!(first.get("key4").unwrap().dt, JsonType::Null);
    let again = match parse_text(&Json::build(first.clone())).unwrap() {
        JsonEntity::Object(o) => o,
        JsonEntity::Array(_) => panic!("an object was expected"),
    };
    assert_eq!(again.len(), 4);
    for key in ["key1", "key2", "key3", "key4"] {
        assert_eq!(again.get(key).unwrap().dt, first.get(key).unwrap().dt);
        assert_eq!(again.get(key).unwrap().value, first.get(key).unwrap().value);
    }
}

#[test]
fn missing_value_is_rejected() {
    assert_eq!(
        parse_text(r#"{"a":}"#).err(),
        Some(JsonError::StructuralError(StructuralFault::KeyWithoutValue))
    );
}

#[test]
fn builder_parser_leaves_the_document_on_top() {
    let mut parser = JsonBuilderParser::new(String::from(r#"{"a":{"b":[1,{"c":null}]}}"#));
    assert!(parser.get().is_none());
    parser.parse().unwrap();
    match parser.get().unwrap() {
        JsonEntity::Object(o) => {
            assert_eq!(o.len(), 1);
            assert_eq!(o.get("a").unwrap().value, r#"{"b":[1,{"c":null}]}"#);
        }
        JsonEntity::Array(_) => panic!("an object was expected"),
    }
}
