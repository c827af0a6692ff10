use json_main::builder::array::JsonBuilderArray;
use json_main::builder::main::JsonBuilder;
use json_main::builder::object::JsonBuilderObject;
use json_main::builder::types::{JsonNull, JsonType};
use json_main::builder::value::JsonBuilderValue;
use json_main::Json;

fn small_object(first: &str) -> JsonBuilderObject {
    let mut o = Json::builder_object();
    o.insert("key1", first);
    o.insert("key2", 456);
    o.insert("key3", false);
    o.insert("key4", JsonNull::new());
    o
}

#[test]
fn json_object_get_test() {
    let mut json_object = Json::builder_object();
    json_object.insert("key1", "string2");
    json_object.insert("key2", 456);
    json_object.insert("key3", false);
    json_object.insert("key4", JsonNull::new());

    let json_value_key1_string: String = json_object.get("key1").unwrap().to_text().unwrap();
    let json_value_key2_i32: i32 = json_object.get("key2").unwrap().to_i32().unwrap();
    let json_value_key3_bool: bool = json_object.get("key3").unwrap().to_bool().unwrap();
    let json_value_key4_null: Option<String> =
        json_object.get("key4").unwrap().to_optional_text().unwrap();

    assert_eq!(json_value_key1_string, "string2");
    assert_eq!(json_value_key2_i32, 456);
    assert_eq!(json_value_key3_bool, false);
    assert_eq!(json_value_key4_null, None);

    let json = Json::build(json_object);
    println!("--- Generated Json ---");
    println!("{}", json);
    println!("--- Generated Json ---");
    assert_eq!(
        json,
        r#"{"key1":"string2","key2":456,"key3":false,"key4":null}"#
    );
}

#[test]
fn json_object_ref_test() {
    let json_object_2 = small_object("string2");
    let json_object_3 = small_object("string2");

    let mut json_object = Json::builder_object();
    json_object.insert("obj2", json_object_2.clone());
    json_object.insert("obj3", json_object_3);

    let res_json_obj2: JsonBuilderObject = json_object.get("obj2").unwrap().to_object().unwrap();
    println!("Object [Obj2]: {:?}", res_json_obj2);
    let res_json_obj3: JsonBuilderObject = json_object.get("obj3").unwrap().to_object().unwrap();
    println!("Object [Obj3]: {:?}", res_json_obj3);

    assert_eq!(res_json_obj2.render(), json_object_2.render());
    assert_eq!(res_json_obj2.len(), 4);
    assert_eq!(res_json_obj3.get("key2").unwrap().to_i64().unwrap(), 456);
    assert_eq!(res_json_obj3.get("key4").unwrap().dt, JsonType::Null);

    let json = Json::build(json_object);
    println!("--- Generated Json ---");
    println!("{}", json);
    println!("--- Generated Json ---");
    assert_eq!(
        json,
        concat_pair(
            r#"{"obj2":{"key1":"string2","key2":456,"key3":false,"key4":null},"#,
            r#""obj3":{"key1":"string2","key2":456,"key3":false,"key4":null}}"#
        )
    );
}

fn concat_pair(a: &str, b: &str) -> String {
    let mut s = String::from(a);
    s.push_str(b);
    s
}

#[test]
fn json_dt_array_test() {
    let json_object_2 = small_object("string2");
    let json_object_3 = small_object("string2");

    let mut json_array = Json::builder_array();
    json_array.append(json_object_2).append(json_object_3);

    let json = Json::build(json_array);
    println!("--- Generated Json ---");
    println!("{}", json);
    println!("--- Generated Json ---");
    assert_eq!(
        json,
        concat_pair(
            r#"[{"key1":"string2","key2":456,"key3":false,"key4":null},"#,
            r#"{"key1":"string2","key2":456,"key3":false,"key4":null}]"#
        )
    );
}

#[test]
fn json_dt_object_test() {
    let object_1 = small_object("string1");
    let json_object_2 = small_object("string2");
    let json_object_3 = small_object("string2");

    let mut array_1 = Json::builder_array();
    array_1.append(json_object_2);
    array_1.append(json_object_3);

    let array_2_vec_1 = vec![1, 2, 3];
    let array_2_vec_2 = vec!["1", "2", "3"];
    let mut array_2_array_1 = JsonBuilderArray::new();
    array_2_array_1.append(JsonBuilderValue::number(&format!("{}", 3.1415)).unwrap());
    array_2_array_1.append(100);
    array_2_array_1.append("Hello");
    array_2_array_1.append(false);
    array_2_array_1.append(JsonNull::new());

    let mut array_2 = Json::builder_array();
    array_2.append(array_2_vec_1);
    array_2.append(array_2_vec_2);
    array_2.append(array_2_array_1);

    let mut json_object = Json::builder_object();
    json_object
        .insert("key1", "string0")
        .insert("key2", 123)
        .insert("key3", true)
        .insert("key4", JsonNull::new())
        .insert("object_1", object_1)
        .insert("array_1", array_1)
        .insert("array_2", array_2);

    let json = Json::build(json_object);
    println!("--- Generated Json ---");
    println!("{}", json);
    println!("--- Generated Json ---");
    let mut expected = String::new();
    expected.push_str(r#"{"key1":"string0","key2":123,"key3":true,"key4":null,"#);
    expected.push_str(r#""object_1":{"key1":"string1","key2":456,"key3":false,"key4":null},"#);
    expected.push_str(r#""array_1":[{"key1":"string2","key2":456,"key3":false,"key4":null},"#);
    expected.push_str(r#"{"key1":"string2","key2":456,"key3":false,"key4":null}],"#);
    expected.push_str(r#""array_2":[[1,2,3],["1","2","3"],[3.1415,100,"Hello",false,null]]}"#);
    assert_eq!(json, expected);
}

#[test]
fn duplicate_key_keeps_the_later_value() {
    let mut o = Json::builder_object();
    o.insert("a", 1);
    o.insert("b", true);
    o.insert("a", "later");
    assert_eq!(o.len(), 2);
    assert_eq!(o.get("a").unwrap().to_text().unwrap(), "later");
    assert_eq!(o.render(), r#"{"a":"later","b":true}"#);
}

#[test]
fn remove_deletes_entries_and_elements() {
    let mut o = Json::builder_object();
    o.insert("a", 1).insert("b", 2).insert("c", 3);
    o.remove("b");
    assert_eq!(o.render(), r#"{"a":1,"c":3}"#);
    o.remove("missing");
    assert_eq!(o.len(), 2);
    assert!(o.get("b").is_none());

    let mut a = Json::builder_array();
    a.append(1).append(2).append(3);
    a.remove(0);
    assert_eq!(a.render(), "[2,3]");
    a.remove(7);
    assert_eq!(a.len(), 2);
}

#[test]
fn every_integer_width_is_rendered_in_decimal() {
    let mut a = Json::builder_array();
    a.append(0u8).append(255u8).append(65535u16).append(4294967295u32);
    a.append(18446744073709551615u64);
    a.append(340282366920938463463374607431768211455u128);
    a.append(-128i8).append(-32768i16).append(-2147483648i32);
    a.append(-9223372036854775808i64);
    a.append(-170141183460469231731687303715884105728i128);
    a.append(170141183460469231731687303715884105727i128);
    let mut expected = String::from("[0,255,65535,4294967295,18446744073709551615,");
    expected.push_str("340282366920938463463374607431768211455,-128,-32768,-2147483648,");
    expected.push_str("-9223372036854775808,-170141183460469231731687303715884105728,");
    expected.push_str("170141183460469231731687303715884105727]");
    assert_eq!(a.render(), expected);
}

#[test]
fn empty_containers_render_as_brackets() {
    assert_eq!(Json::build(Json::builder_object()), "{}");
    assert_eq!(Json::build(Json::builder_array()), "[]");
    let none: Vec<u8> = Vec::new();
    assert_eq!(JsonBuilderValue::from(none).value, "[]");
}

#[test]
fn kinds_tell_leaves_from_containers() {
    assert!(JsonType::Number.is_primitive());
    assert!(JsonType::String.is_primitive());
    assert!(JsonType::Boolean.is_primitive());
    assert!(JsonType::Null.is_primitive());
    assert!(!JsonType::Object.is_primitive());
    assert!(!JsonType::Array.is_primitive());
    assert_eq!(JsonType::Array.name(), "JsonType.Array");
}
