use json_main::error::{JsonError, StructuralFault, TypeFault};
use json_main::number::Number;
use json_main::parser::main::JsonParser;
use json_main::parser::parser::{parse_typed, JsonTextParser};
use json_main::types::types::{
    JsonContainer, JsonContainerType, JsonTypeArray, JsonTypeBoolean, JsonTypeNull,
    JsonTypeNumeric, JsonTypeObject, JsonTypeString, JsonTypeValue,
};
use json_main::Json;

#[test]
fn test_5() {
    let json = String::from(
        r#"
      [
        {
          "x1": "999",
          "x2": 1.1,
          "x3": true,
        },
        1, 
        {
          "obj0": "LOL",
          "obj1": "LOL LOP",
        },
        true,
        null,
        {
          "item1": 999,
          "item2": false,
          "item3": true,
        },
        [
          "array 1",
          "array 2",
          "array 3",
          "array 4",
          "array 5",
        ],
      ]
    "#,
    );

    let mut jp = JsonTextParser::new(json);
    jp.parse().unwrap();

    let jo = jp.get_mut().unwrap().to_array().unwrap();
    println!("JSON ARRAY: {:?}", jo);
    assert_eq!(jo.len(), 7);
    let first = jo.get(0).unwrap().to_object().unwrap();
    assert_eq!(first.get("x1").unwrap().to_text(), Ok(String::from("999")));
    assert_eq!(first.get("x2").unwrap().to_float_text(), Ok(String::from("1.1")));
    assert_eq!(first.get("x3").unwrap().to_bool(), Ok(true));
    assert_eq!(jo.get(1).unwrap().to_usize(), Ok(1));
    let third = jo.get(2).unwrap().to_object().unwrap();
    assert_eq!(third.get("obj1").unwrap().to_text(), Ok(String::from("LOL LOP")));
    assert_eq!(jo.get(3).unwrap().to_bool(), Ok(true));
    assert!(jo.get(4).unwrap().is_null());
    let sixth = jo.get(5).unwrap().to_object().unwrap();
    assert_eq!(sixth.get("item1").unwrap().to_usize(), Ok(999));
    assert_eq!(sixth.get("item2").unwrap().to_bool(), Ok(false));
    let last = jo.get(6).unwrap().to_array().unwrap();
    assert_eq!(last.len(), 5);
    assert_eq!(last.get(4).unwrap().to_text(), Ok(String::from("array 5")));
}

#[test]
fn test_4() {
    let json = String::from(
        r#"
      {
        "k1": true,
        "k2": null,
        "x1": "string value",
        "x2": -123.001,
      }
    "#,
    );

    let mut jp = JsonTextParser::new(json);
    jp.parse().unwrap();

    let jo = jp.get_mut().unwrap().to_object().unwrap();
    println!("GET: K1: {:?}", jo.get("k1"));
    println!("GET: K2: {:?}", jo.get("k2"));
    println!("GET: X1: {:?}", jo.get("x1"));
    println!("GET: X2: {:?}", jo.get("x2"));

    let k1: bool = jo.get("k1").unwrap().to_bool().unwrap();
    let k2: Option<String> = jo.get("k2").unwrap().to_optional_text().unwrap();
    let x1: String = jo.get("x1").unwrap().to_text().unwrap();
    let x2: f32 = jo.get("x2").unwrap().to_float_text().unwrap().parse().unwrap();
    println!("VALUE: K1: {:?}", k1);
    println!("VALUE: K2: {:?}", k2);
    println!("VALUE: X1: {:?}", x1);
    println!("VALUE: X2: {:?}", x2);
    assert_eq!(k1, true);
    assert_eq!(k2, None);
    assert_eq!(x1, "string value");
    assert_eq!(x2, -123.001f32);
}

#[test]
fn test_3() {
    let json = String::from(
        r#"
      {
        "key1": true,
        "key2": {
          "x1": "string",
          "x2": false,
          "x3": {
            "f1": "Json Inside",
          }
        },
      }
    "#,
    );

    let mut jp = JsonTextParser::new(json);
    jp.parse().unwrap();

    let jo = jp.get_mut().unwrap().to_object().unwrap();
    println!("JSON TYPE OBJECT: {:?}", jo);

    let key1: bool = jo.get("key1").unwrap().to_bool().unwrap();
    let key2: &JsonTypeObject = jo.get("key2").unwrap().to_object().unwrap();
    let x1: String = key2.get("x1").unwrap().to_text().unwrap();
    let x2: bool = key2.get("x2").unwrap().to_bool().unwrap();
    let x3: &JsonTypeObject = key2.get("x3").unwrap().to_object().unwrap();
    let f1: String = x3.get("f1").unwrap().to_text().unwrap();
    println!("RESULT: {}", key1);
    println!("RESULT: {}", x1);
    println!("RESULT: {}", x2);
    println!("RESULT: {}", f1);
    assert_eq!(key1, true);
    assert_eq!(x1, "string");
    assert_eq!(x2, false);
    assert_eq!(f1, "Json Inside");
    assert_eq!(jo.len(), 2);
    assert_eq!(key2.len(), 3);
}

#[test]
fn test_2() {
    let json = String::from(
        r#"
      {
        "k1": true,
        "k2": null,
        "x1": "string",
        "x2": 999,
      }
    "#,
    );

    let mut jp = JsonTextParser::new(json);
    jp.parse().unwrap();

    let jo = jp.get_mut().unwrap().to_object().unwrap();
    println!("K1: {:?}", jo.get("k1"));
    println!("K2: {:?}", jo.get("k2"));
    println!("X1: {:?}", jo.get("x1"));
    println!("X2: {:?}", jo.get("x2"));

    let k1: bool = jo.get("k1").unwrap().to_bool().unwrap();
    let k2: Option<String> = jo.get("k2").unwrap().to_optional_text().unwrap();
    let x1: String = jo.get("x1").unwrap().to_text().unwrap();
    let x2: usize = jo.get("x2").unwrap().to_usize().unwrap();
    println!("K1: {:?}", k1);
    println!("K2: {:?}", k2);
    println!("X1: {:?}", x1);
    println!("X2: {:?}", x2);
    assert_eq!(k1, true);
    assert_eq!(k2, None);
    assert_eq!(x1, "string");
    assert_eq!(x2, 999);
}

#[test]
fn test_1() {
    let json = String::from(
        r#"
      {
        "key4": {
          "k1": true,
          "k2": {
            "k3": "v3",
            "k2": 123,
          },
          "k3": null,
        },
        "key3": null,
        "key2": {
          "x1": "string"
        },
        "key1": 999,
        "key0": [
          1, 
          {
            "obj0": "LOL"
          },
          true,
          null
        ]
      }
    "#,
    );

    let mut jp = JsonTextParser::new(json);
    jp.parse().unwrap();

    let jo = jp.get_mut().unwrap().to_object().unwrap();
    println!("JSON OBJECT: {:?}", jo);
    assert_eq!(jo.len(), 5);
    assert_eq!(jo.key_at(0).unwrap(), "key4");
    assert_eq!(jo.key_at(4).unwrap(), "key0");
    let key4 = jo.get("key4").unwrap().to_object().unwrap();
    let k2 = key4.get("k2").unwrap().to_object().unwrap();
    assert_eq!(k2.get("k3").unwrap().to_text(), Ok(String::from("v3")));
    assert_eq!(k2.get("k2").unwrap().to_isize(), Ok(123));
    assert!(key4.get("k3").unwrap().is_null());
    assert!(jo.get("key3").unwrap().is_null());
    assert_eq!(jo.get("key1").unwrap().to_usize(), Ok(999));
    let key0 = jo.get("key0").unwrap().to_array().unwrap();
    assert_eq!(key0.len(), 4);
    let inner = key0.get(1).unwrap().to_object().unwrap();
    assert_eq!(inner.get("obj0").unwrap().to_text(), Ok(String::from("LOL")));
}

#[test]
fn extraction_of_booleans_strings_and_null() {
    let doc = parse_typed(r#"{"k1":true,"k2":null}"#).unwrap();
    let o = doc.to_object().unwrap();
    assert_eq!(o.get("k1").unwrap().to_bool(), Ok(true));
    assert_eq!(o.get("k2").unwrap().to_optional_text(), Ok(None));
    assert_eq!(
        o.get("k2").unwrap().to_bool(),
        Err(JsonError::TypeError(TypeFault::Mismatch))
    );
    assert_eq!(o.get("k1").unwrap().to_optional_bool(), Ok(Some(true)));
    assert_eq!(
        o.get("k1").unwrap().to_optional_text(),
        Err(JsonError::TypeError(TypeFault::Mismatch))
    );
    assert!(o.get("k3").is_none());
}

#[test]
fn numbers_take_the_first_width_that_reads_them() {
    let doc = parse_typed(r#"[255, -1, 3.14, 300, -0, 256, 65536, 4294967296, -129, 007, +5]"#)
        .unwrap();
    let a = doc.to_array().unwrap();
    let kinds: Vec<String> = (0..a.len())
        .map(|i| match a.get(i).unwrap() {
            JsonTypeValue::Numeric(n) => format!("{:?}", n.value),
            other => format!("{:?}", other),
        })
        .collect();
    assert_eq!(
        kinds,
        vec![
            "U8(255)",
            "I8(-1)",
            "F32(\"3.14\")",
            "U16(300)",
            "I8(0)",
            "U16(256)",
            "U32(65536)",
            "U64(4294967296)",
            "I16(-129)",
            "U8(7)",
            "U8(5)",
        ]
    );
    assert!(matches!(a.get(0).unwrap(), JsonTypeValue::Numeric(JsonTypeNumeric { value: Number::U8(255) })));
}

#[test]
fn wide_numbers_reach_128_bits_and_then_become_floating() {
    let doc = parse_typed(
        "[18446744073709551616, 340282366920938463463374607431768211455, \
         340282366920938463463374607431768211456, -9223372036854775809, \
         -170141183460469231731687303715884105729, 1e5, NaN, -inf]",
    )
    .unwrap();
    let a = doc.to_array().unwrap();
    let seen: Vec<String> = (0..a.len())
        .map(|i| match a.get(i).unwrap() {
            JsonTypeValue::Numeric(n) => format!("{:?}", n.value),
            other => format!("{:?}", other),
        })
        .collect();
    assert_eq!(
        seen,
        vec![
            "U128(18446744073709551616)",
            "U128(340282366920938463463374607431768211455)",
            "F32(\"340282366920938463463374607431768211456\")",
            "I128(-9223372036854775809)",
            "F32(\"-170141183460469231731687303715884105729\")",
            "F32(\"1e5\")",
            "F32(\"NaN\")",
            "F32(\"-inf\")",
        ]
    );
    assert_eq!(
        a.get(0).unwrap().to_usize(),
        Err(JsonError::TypeError(TypeFault::NotOfWidth))
    );
    assert_eq!(a.get(3).unwrap().to_isize(), Err(JsonError::TypeError(TypeFault::NotOfWidth)));
    assert_eq!(a.get(5).unwrap().to_usize(), Err(JsonError::TypeError(TypeFault::NotOfWidth)));
    assert_eq!(a.get(5).unwrap().to_float_text(), Ok(String::from("1e5")));
}

#[test]
fn words_are_read_in_any_letter_case() {
    let doc = parse_typed("[TRUE, False, NULL, nUlL]").unwrap();
    let a = doc.to_array().unwrap();
    assert_eq!(a.get(0).unwrap().to_bool(), Ok(true));
    assert_eq!(a.get(1).unwrap().to_bool(), Ok(false));
    assert!(a.get(2).unwrap().is_null());
    assert!(a.get(3).unwrap().is_null());
}

#[test]
fn text_that_is_no_number_is_a_type_error() {
    assert_eq!(
        parse_typed("[abc]").err(),
        Some(JsonError::TypeError(TypeFault::UnknownNumber))
    );
    assert_eq!(
        parse_typed("[1.2.3]").err(),
        Some(JsonError::TypeError(TypeFault::UnknownNumber))
    );
    assert_eq!(
        parse_typed("[-]").err(),
        Some(JsonError::TypeError(TypeFault::UnknownNumber))
    );
}

#[test]
fn duplicate_keys_in_text_keep_the_later_value() {
    let doc = parse_typed(r#"{"a":1,"b":2,"a":3}"#).unwrap();
    let o = doc.to_object().unwrap();
    assert_eq!(o.len(), 2);
    assert_eq!(o.get("a").unwrap().to_usize(), Ok(3));
    assert_eq!(o.key_at(0).unwrap(), "a");
}

#[test]
fn malformed_documents_are_structural_errors() {
    let cases: Vec<(&str, StructuralFault)> = vec![
        ("", StructuralFault::NotAContainer),
        ("{", StructuralFault::NotAContainer),
        ("{]", StructuralFault::NotAContainer),
        (r#"{"a":}"#, StructuralFault::KeyWithoutValue),
        (r#"{"a":[1}"#, StructuralFault::UnclosedScope),
        (r#"{"a":[1}}"#, StructuralFault::MismatchedClose),
        (r#"{"a":{"b":1}"#, StructuralFault::UnclosedScope),
        ("{}}", StructuralFault::NoOpenScope),
        ("[] []", StructuralFault::NoOpenScope),
        (r#"{"a":1 2}"#, StructuralFault::ValueWithoutKey),
        (r#"{:1}"#, StructuralFault::ValueWithoutKey),
    ];
    for (text, fault) in cases {
        assert_eq!(
            parse_typed(text).err(),
            Some(JsonError::StructuralError(fault)),
            "for {:?}",
            text
        );
    }
}

#[test]
fn the_facade_reads_a_text() {
    let mut json = Json::parser(String::from(r#"{"n": 5, "list": [true]}"#));
    assert!(json.get().is_none());
    json.parse().unwrap();
    let o = json.get().unwrap().to_object().unwrap();
    assert_eq!(o.get("n").unwrap().to_usize(), Ok(5));
    assert_eq!(o.get("list").unwrap().to_array().unwrap().len(), 1);
    assert!(json.get_mut().is_some());
}

#[test]
fn typed_tree_is_built_by_hand_too() {
    let mut inner = JsonTypeArray::new();
    inner.add(JsonTypeNull::new());
    inner.add(JsonTypeBoolean::new(true));
    let mut o = JsonTypeObject::new();
    o.add("s", JsonTypeString::new("text"));
    o.add("n", JsonTypeNumeric::new(Number::I16(-300)));
    o.add("list", inner);
    o.add("s", JsonTypeString::new("later"));
    assert_eq!(o.len(), 3);
    assert_eq!(o.get("s").unwrap().to_text(), Ok(String::from("later")));
    assert_eq!(o.get("n").unwrap().to_isize(), Ok(-300));
    assert_eq!(o.get("n").unwrap().to_optional_isize(), Ok(Some(-300)));
    assert_eq!(
        o.get("n").unwrap().to_usize(),
        Err(JsonError::TypeError(TypeFault::NotOfWidth))
    );
    assert_eq!(o.get("list").unwrap().to_array().unwrap().len(), 2);
    assert!(o.get("list").unwrap().to_object().is_err());
    assert_eq!(o.value_at(1).unwrap().to_optional_usize().is_err(), true);
}

#[test]
fn container_stack_keeps_the_document() {
    let mut c = JsonContainer::new();
    assert_eq!(c.jct(), JsonContainerType::Neither);
    c.update_jct(JsonContainerType::Object);
    assert_eq!(c.jct(), JsonContainerType::Object);
    assert!(c.get_last().is_none());
    c.push_entity(JsonTypeObject::new());
    assert!(c.pop_entity().is_none());
    c.push_entity(JsonTypeArray::new());
    assert!(matches!(c.get_last(), Some(JsonTypeValue::Array(_))));
    assert!(matches!(c.pop_entity(), Some(JsonTypeValue::Array(_))));
    assert!(matches!(c.get_last_mut(), Some(JsonTypeValue::Object(_))));
    assert!(matches!(c.pop_last(), Some(JsonTypeValue::Object(_))));
    assert!(c.pop_last().is_none());
}
