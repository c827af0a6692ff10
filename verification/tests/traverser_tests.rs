use json_main::ast::lexer::tokenize;
use json_main::ast::parser::{
    parse_tokens, ArrayExpression, ArrayLiteral, BooleanLiteral, KeyLiteral, Literal, ObjectExpression,
    ObjectLiteral, StringLiteral, ValueLiteral,
};
use json_main::ast::traverser::{walk, JsonTraverser};
use json_main::builder::main::JsonBuilder;
use json_main::builder::parser::{JsonBuilderParser, JsonEntity};
use json_main::builder::value::JsonBuilderValue;
use json_main::error::{JsonError, StructuralFault};
use json_main::parser::parser::JsonTextParser;
use json_main::Json;

#[test]
fn an_entry_without_its_value_stops_the_walk() {
    let mut entry = ObjectLiteral::new();
    entry.key(KeyLiteral::new(StringLiteral::new(String::from("k"))));
    let mut object = ObjectExpression::new();
    object.add(entry);
    let mut consumer = JsonBuilderParser::new(String::new());
    let mut traverser = JsonTraverser::new("");
    let r = traverser.traverse(&mut consumer, &Literal::Object(object), 0);
    assert_eq!(r, Err(JsonError::StructuralError(StructuralFault::KeyWithoutValue)));
}

#[test]
fn an_entry_without_its_key_or_an_empty_element_stops_the_walk() {
    let mut entry = ObjectLiteral::new();
    entry.inject(ValueLiteral::new(Literal::Text(StringLiteral::new(String::from("v")))));
    let mut object = ObjectExpression::new();
    object.add(entry);
    let mut consumer = JsonTextParser::new(String::new());
    let mut tracker = vec![String::new()];
    assert_eq!(
        walk(&mut consumer, &mut tracker, &Literal::Object(object), 0),
        Err(JsonError::StructuralError(StructuralFault::KeyWithoutValue))
    );
    let mut array = ArrayExpression::new();
    array.add(ArrayLiteral::new());
    let mut consumer = JsonTextParser::new(String::new());
    let mut tracker = vec![String::new()];
    assert_eq!(
        walk(&mut consumer, &mut tracker, &Literal::Array(array), 0),
        Err(JsonError::StructuralError(StructuralFault::KeyWithoutValue))
    );
}

#[test]
fn a_walk_over_a_parsed_tree_rebuilds_it() {
    let tokens = tokenize(r#"{"a":[1,{"b":"c"}],"d":{"e":{"f":null}}}"#).unwrap();
    let node = parse_tokens(&tokens).unwrap();
    let mut consumer = JsonBuilderParser::new(String::new());
    let mut traverser = JsonTraverser::new("");
    traverser.traverse(&mut consumer, node.root(), 0).unwrap();
    match consumer.get().unwrap() {
        JsonEntity::Object(o) => {
            assert_eq!(o.render(), r#"{"a":[1,{"b":"c"}],"d":{"e":{"f":null}}}"#);
        }
        JsonEntity::Array(_) => panic!("an object was expected"),
    }
}

#[test]
fn a_leaf_without_a_key_in_an_object_is_refused() {
    let mut consumer = JsonBuilderParser::new(String::new());
    let mut tracker: Vec<String> = Vec::new();
    let mut entry = ObjectLiteral::new();
    entry.key(KeyLiteral::new(StringLiteral::new(String::from("k"))));
    entry.value(ValueLiteral::new(Literal::Boolean(BooleanLiteral::new(true))));
    let mut object = ObjectExpression::new();
    object.add(entry);
    // With no entry for the document in the tracker, the key lands one
    // level too low, and the value finds no key at its own level.
    assert_eq!(
        walk(&mut consumer, &mut tracker, &Literal::Object(object), 0),
        Err(JsonError::StructuralError(StructuralFault::ValueWithoutKey))
    );
}

#[test]
fn a_value_is_changed_in_its_place() {
    let mut o = Json::builder_object();
    o.insert("a", 1).insert("b", 2);
    *o.get_mut("a").unwrap() = JsonBuilderValue::from("one");
    assert!(o.get_mut("c").is_none());
    assert_eq!(o.render(), r#"{"a":"one","b":2}"#);
}
