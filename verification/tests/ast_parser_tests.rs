use json_main::ast::lexer::{tokenize, Lexer, Token, TokenType, ValueOf};
use json_main::ast::parser::{
    parse_tokens, ArrayExpression, ArrayLiteral, BooleanLiteral, ExpressionType, JsonParser,
    KeyLiteral, Literal, Node, NullLiteral, NumericLiteral, ObjectExpression, ObjectLiteral,
    StringLiteral, ValueLiteral,
};
use json_main::error::{JsonError, StructuralFault};
use json_main::number::Number;

fn listing(json: &str) -> Vec<String> {
    let mut lexer = Lexer::new(json);
    let tokens = lexer.tokenize().unwrap();
    println!("Tokenized List");
    for e in tokens {
        println!("Token - {:?} {:<15} '{}'", e.tt, format!("{:?}", e.quoted), e.value);
    }
    let mut json_parser = JsonParser::new(tokens).unwrap();
    json_parser.parse().unwrap();
    let lines = json_parser.node().unwrap().print();
    for line in &lines {
        println!("{}", line);
    }
    lines
}

#[test]
fn jp_array_test() {
    let lines = listing(
        r#"
      [
        {
          "key4": null,
          "key3": true,
          "key1": "string0",
          "key2": 123
        },
        {
          "key41": "1",
          "key31": 2,
          "key11": true,
          "key21": null
        }, 
        {
          "array1": ["1", 2, null, true],
          "array2": [["55", 55, null, false]],
        }
      ]
    "#,
    );
    assert_eq!(lines[0], "-- Json Parser Tree --");
    assert_eq!(lines[1], "ArrayExpression");
    assert_eq!(lines[2], "    ArrayLiteral");
    assert_eq!(lines[3], "       ValueLiteral");
    assert_eq!(lines[4], "          ObjectExpression");
    assert_eq!(lines[5], "             ObjectLiteral");
    assert_eq!(lines[6], "                KeyLiteral");
    assert_eq!(lines[7], "                   StringLiteral: 'key4'");
    assert_eq!(lines[8], "                ValueLiteral");
    assert_eq!(lines[9], "                   NullLiteral");
    assert_eq!(lines.iter().filter(|l| l.trim() == "ArrayLiteral").count(), 3 + 4 + 1 + 4);
    assert_eq!(lines.iter().filter(|l| l.trim() == "ObjectLiteral").count(), 10);
    assert_eq!(lines.iter().filter(|l| l.trim() == "NumericLiteral: 55").count(), 1);
    assert_eq!(lines.iter().filter(|l| l.trim() == "StringLiteral: '55'").count(), 1);
}

#[test]
fn jp_test() {
    let lines = listing(
        r#"
      {
        "key4": null,
        "key3": true,
        "key1": "string0",
        "key2": 123
      }
    "#,
    );
    let expected = vec![
        "-- Json Parser Tree --",
        "ObjectExpression",
        "    ObjectLiteral",
        "       KeyLiteral",
        "          StringLiteral: 'key4'",
        "       ValueLiteral",
        "          NullLiteral",
        "    ObjectLiteral",
        "       KeyLiteral",
        "          StringLiteral: 'key3'",
        "       ValueLiteral",
        "          BooleanLiteral: true",
        "    ObjectLiteral",
        "       KeyLiteral",
        "          StringLiteral: 'key1'",
        "       ValueLiteral",
        "          StringLiteral: 'string0'",
        "    ObjectLiteral",
        "       KeyLiteral",
        "          StringLiteral: 'key2'",
        "       ValueLiteral",
        "          NumericLiteral: 123",
    ];
    assert_eq!(lines, expected);
}

#[test]
fn parser_json_object_parser_test() {
    let lines = listing(
        r#"
      {
        "key4": {
          "k1": true,
          "k2": {
            "k3": "v3",
            "k2": 123,
          },
          "k3": null,
        },
        "key3": null,
        "key2": {
          "x1": "string"
        },
        "key1": 999,
      }
    "#,
    );
    assert_eq!(lines.len(), 2 + 10 * 4 + 7 + 3);
    assert_eq!(lines[2], "    ObjectLiteral");
    assert_eq!(lines[4], "          StringLiteral: 'key4'");
    assert_eq!(lines[5], "       ValueLiteral");
    assert_eq!(lines[6], "          ObjectExpression");
    assert_eq!(lines[7], "             ObjectLiteral");
    assert_eq!(lines[9], "                   StringLiteral: 'k1'");
    assert_eq!(lines[11], "                   BooleanLiteral: true");
    assert_eq!(lines[lines.len() - 1], "          NumericLiteral: 999");
}

#[test]
fn parser_json_parser_test() {
    let lines = listing(
        r#"
      {
        "array_1": [
          {
            "key1": "string2",
            "key2": 456,
            "key3": false,
            "key4": null
          },
          {
            "key3": false,
            "key4": null,
            "key1": "string2",
            "key2": 456
          }
        ],
        "key4": null,
        "array_2": [
          [
            1,
            2,
            3
          ],
          [
            "1",
            "2",
            "3"
          ],
          [
            3.1415,
            100,
            "Hello",
            false,
            null
          ]
        ],
        "key3": true,
        "object_1": {
          "key2": 456,
          "key4": null,
          "key1": "string1",
          "key3": false
        },
        "key1": "string0",
        "key2": 123
      }
    "#,
    );
    let count = |what: &str| lines.iter().filter(|l| l.trim() == what).count();
    assert_eq!(count("ObjectLiteral"), 19);
    assert_eq!(count("KeyLiteral"), 19);
    assert_eq!(count("ArrayLiteral"), 2 + 3 + 3 + 3 + 5);
    assert_eq!(count("ObjectExpression"), 1 + 3);
    assert_eq!(count("ArrayExpression"), 5);
    assert_eq!(count("NumericLiteral: 3.1415"), 1);
    assert_eq!(count("NumericLiteral: 456"), 3);
    assert_eq!(count("StringLiteral: 'Hello'"), 1);
    assert_eq!(count("NullLiteral"), 5);
    assert_eq!(count("BooleanLiteral: false"), 4);
}

fn token(tt: TokenType, vof: ValueOf, value: &str, quoted: Option<bool>) -> Token {
    Token::new(tt, vof, String::from(value), quoted)
}

#[test]
fn hand_made_tokens_are_checked() {
    let open = || token(TokenType::ObjectStart, ValueOf::Neither, "{", None);
    let close = || token(TokenType::ObjectEnd, ValueOf::Neither, "}", None);
    let array_open = || token(TokenType::ArrayStart, ValueOf::Neither, "[", None);
    let array_close = || token(TokenType::ArrayEnd, ValueOf::Neither, "]", None);
    let fault = |tokens: Vec<Token>| match parse_tokens(&tokens) {
        Err(JsonError::StructuralError(f)) => f,
        _ => panic!("a structural error was expected"),
    };
    assert_eq!(fault(vec![]), StructuralFault::NotAContainer);
    assert_eq!(fault(vec![open()]), StructuralFault::NotAContainer);
    assert_eq!(
        fault(vec![
            array_open(),
            token(TokenType::JsonKey, ValueOf::Array, "k", None),
            array_close()
        ]),
        StructuralFault::KeyInArray
    );
    assert_eq!(
        fault(vec![
            array_open(),
            token(TokenType::JsonValue, ValueOf::Object, "1", Some(false)),
            array_close()
        ]),
        StructuralFault::MisplacedValue
    );
    assert_eq!(
        fault(vec![
            array_open(),
            token(TokenType::JsonValue, ValueOf::Array, "1", None),
            array_close()
        ]),
        StructuralFault::MisplacedValue
    );
    assert_eq!(
        fault(vec![
            open(),
            token(TokenType::JsonValue, ValueOf::Object, "1", Some(false)),
            close()
        ]),
        StructuralFault::ValueWithoutKey
    );
    assert_eq!(fault(vec![open(), close(), close()]), StructuralFault::NoOpenScope);
    assert_eq!(fault(vec![open(), open(), close()]), StructuralFault::UnclosedScope);
    assert_eq!(fault(vec![open(), array_open(), close()]), StructuralFault::UnclosedScope);
    assert_eq!(
        fault(vec![open(), array_open(), close(), close()]),
        StructuralFault::MismatchedClose
    );
    assert_eq!(JsonError::StructuralError(StructuralFault::KeyInArray).describe(), "StructuralError");
}

#[test]
fn a_later_key_takes_the_place_of_a_waiting_one() {
    let tokens = tokenize(r#"{"a" "b": 1}"#).unwrap();
    let node = parse_tokens(&tokens).unwrap();
    assert_eq!(
        node.print(),
        vec![
            "-- Json Parser Tree --",
            "ObjectExpression",
            "    ObjectLiteral",
            "       KeyLiteral",
            "          StringLiteral: 'b'",
            "       ValueLiteral",
            "          NumericLiteral: 1",
        ]
    );
}

#[test]
fn parsing_twice_keeps_the_document() {
    let tokens = tokenize("[1, [2], {}]").unwrap();
    let mut parser = JsonParser::new(&tokens).unwrap();
    assert!(parser.node().is_none());
    parser.parse().unwrap();
    parser.parse().unwrap();
    let node = parser.into_node().unwrap();
    assert!(node.is_array_expression());
    assert!(!node.is_object_expression());
    match node.root() {
        Literal::Array(a) => assert_eq!(a.lit_elements.len(), 3),
        _ => panic!("an array was expected"),
    }
}

#[test]
fn trees_are_built_by_hand_too() {
    let mut entry = ObjectLiteral::new();
    entry.key(KeyLiteral::new(StringLiteral::new(String::from("k"))));
    entry.value(ValueLiteral::new(Literal::Numeric(NumericLiteral::new(Number::U8(7)))));
    let mut object = ObjectExpression::new();
    object.add(entry);
    let mut array = ArrayExpression::new();
    array.add(ArrayLiteral::init(ValueLiteral::new(Literal::Object(object))));
    array.add(ArrayLiteral::init(ValueLiteral::new(Literal::Boolean(BooleanLiteral::new(
        false,
    )))));
    array.add(ArrayLiteral::init(ValueLiteral::new(Literal::Null(NullLiteral::new()))));
    let mut late = ArrayLiteral::new();
    late.inject(ValueLiteral::new(Literal::Text(StringLiteral::new(String::from("s")))));
    array.add(late);
    let node = Node::new(ExpressionType::Array, Literal::Array(array));
    assert_eq!(
        node.print(),
        vec![
            "-- Json Parser Tree --",
            "ArrayExpression",
            "    ArrayLiteral",
            "       ValueLiteral",
            "          ObjectExpression",
            "             ObjectLiteral",
            "                KeyLiteral",
            "                   StringLiteral: 'k'",
            "                ValueLiteral",
            "                   NumericLiteral: 7",
            "    ArrayLiteral",
            "       ValueLiteral",
            "          BooleanLiteral: false",
            "    ArrayLiteral",
            "       ValueLiteral",
            "          NullLiteral",
            "    ArrayLiteral",
            "       ValueLiteral",
            "          StringLiteral: 's'",
        ]
    );
    assert!(BooleanLiteral::is_bool("TrUe"));
    assert!(BooleanLiteral::is_bool("false"));
    assert!(!BooleanLiteral::is_bool("truth"));
    assert!(NullLiteral::is_null("Null"));
    assert!(!NullLiteral::is_null("nil"));
}
