use json_main::formatter::Logic;

#[test]
fn json_format_logic_test() {
    let query = String::from(
        r#"{"key2":123,"array_1":[{"key4":null,"key2":456,"key1":"string2","key3":false},{"key2":456,"key4":null,"key3":false,"key1":"string2"}],"object_1":{"key2":456,"key3":false,"key4":null,"key1":"string1"},"key1":"string0","key4":null,"array_2":[[1,2,3],["1","2","3"],[3.1415,100,"Hello",false,null]],"key3":true}"#,
    );
    let result = String::from(
        r#"{
  "key2": <span style="color: red">123</span>,
  "array_1": [
    {
      "key4": <span style="color: gray">null</span>,
      "key2": <span style="color: red">456</span>,
      "key1": <span style="color: green">"string2"</span>,
      "key3": <span style="color: orange">false</span>
    },
    {
      "key2": <span style="color: red">456</span>,
      "key4": <span style="color: gray">null</span>,
      "key3": <span style="color: orange">false</span>,
      "key1": <span style="color: green">"string2"</span>
    }
  ]<span style="color: red"></span>,
  "object_1": {
    "key2": <span style="color: red">456</span>,
    "key3": <span style="color: orange">false</span>,
    "key4": <span style="color: gray">null</span>,
    "key1": <span style="color: green">"string1"</span>
  },
  "key1": <span style="color: green">"string0"</span>,
  "key4": <span style="color: gray">null</span>,
  "array_2": [
    [
      <span style="color: red">1</span>,
      <span style="color: red">2</span>,
      <span style="color: red">3</span>
    ]<span style="color: red"></span>,
    [
      <span style="color: green">"1"</span>,
      <span style="color: green">"2"</span>,
      <span style="color: green">"3"</span>
    ]<span style="color: red"></span>,
    [
      <span style="color: red">3.1415</span>,
      <span style="color: red">100</span>,
      <span style="color: green">"Hello"</span>,
      <span style="color: orange">false</span>,
      <span style="color: gray">null</span>
    ]<span style="color: red"></span>
  ]<span style="color: red"></span>,
  "key3": <span style="color: orange">true</span>
}"#,
    );

    let formatted_json = Logic::format(&query, 2).unwrap();
    assert_eq!(formatted_json, result)
}

#[test]
fn spaces_outside_quotes_are_dropped() {
    let tight = Logic::format(r#"{"a b":"c d","e":[1,2]}"#, 4).unwrap();
    let loose = Logic::format("{ \"a b\" :\n \"c d\" , \"e\" : [ 1 , 2 ] }", 4).unwrap();
    assert_eq!(tight, loose);
    assert!(tight.contains("\"a b\": <span style=\"color: green\">\"c d\"</span>"));
    assert!(tight.starts_with("{\n    \"a b\""));
}

#[test]
fn empty_containers_and_empty_text() {
    assert_eq!(Logic::format("", 2), Some(String::new()));
    assert_eq!(Logic::format("{}", 2), Some(String::from("{\n  }")));
    assert_eq!(Logic::format("[[]]", 1), Some(String::from(
            "[\n [\n  <span style=\"color: red\"></span>\n ]<span style=\"color: red\"></span>\n]"
        )));
    assert_eq!(Logic::format("x", 2), Some(String::from("x")));
}

#[test]
fn text_that_is_not_nested_gives_nothing() {
    assert_eq!(Logic::format("}", 2), None);
    assert_eq!(Logic::format("{}}", 2), None);
    assert_eq!(Logic::format(",", 2), None);
    assert_eq!(Logic::format("{", -1), None);
    assert_eq!(Logic::format("{}", i32::MIN), None);
}
