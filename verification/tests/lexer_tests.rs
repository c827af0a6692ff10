use json_main::ast::lexer::{tokenize, Lexer, Token, TokenType, ValueOf};
use json_main::error::JsonError;

fn kinds(tokens: &Vec<Token>) -> Vec<TokenType> {
    tokens.iter().map(|t| t.tt).collect()
}

#[test]
fn lexer_json_object_parser_test() {
    let json = String::from(
        r#"
      {
        "key4": null,
        "key3": true,
        "key1": "string0",
        "key2": 123
      }
    "#,
    );

    let mut lexer = Lexer::new(json.as_str());
    let tokens = lexer.tokenize().unwrap();
    println!("Tokenized List");
    for e in tokens {
        println!(
            "Token - {:?} {:<10} {:<15} '{}'",
            e.tt,
            format!("{:?}", e.vof),
            format!("{:?}", e.quoted),
            e.value
        );
    }
    assert_eq!(tokens.len(), 17);
    assert_eq!(tokens[0].tt, TokenType::ObjectStart);
    assert_eq!(tokens[0].value(), "{");
    assert_eq!(tokens[0].vof, ValueOf::Neither);
    assert_eq!(tokens[1].tt, TokenType::JsonKey);
    assert_eq!(tokens[1].value(), "key4");
    assert_eq!(tokens[1].vof, ValueOf::Object);
    assert_eq!(tokens[1].quoted, None);
    assert_eq!(tokens[2].tt, TokenType::ContentSeparator);
    assert_eq!(tokens[3].tt, TokenType::JsonValue);
    assert_eq!(tokens[3].value(), "null");
    assert_eq!(tokens[3].quoted, Some(false));
    assert_eq!(tokens[4].tt, TokenType::ElementSeparator);
    assert_eq!(tokens[11].value(), "string0");
    assert_eq!(tokens[11].quoted, Some(true));
    assert_eq!(tokens[15].value(), "123");
    assert_eq!(tokens[16].tt, TokenType::ObjectEnd);
}

#[test]
fn lexer_json_parser_test() {
    let json = String::from(
        r#"
      {
        "array_1": [
          {
            "key1": "string2",
            "key2": 456,
            "key3": false,
            "key4": null
          },
          {
            "key3": false,
            "key4": null,
            "key1": "string2",
            "key2": 456
          }
        ],
        "key4": null,
        "array_2": [
          [
            1,
            2,
            3
          ],
          [
            "1",
            "2",
            "3"
          ],
          [
            3.1415,
            100,
            "Hello",
            false,
            null
          ]
        ],
        "key3": true,
        "object_1": {
          "key2": 456,
          "key4": null,
          "key1": "string1",
          "key3": false
        },
        "key1": "string0",
        "key2": 123
      }
    "#,
    );
    let mut lexer = Lexer::new(json.as_str());
    let v = lexer.tokenize().unwrap();
    println!("Tokenized List");
    for e in v {
        println!(
            "Token - {:?} {:<10} {:<15} '{}'",
            e.tt,
            format!("{:?}", e.vof),
            format!("{:?}", e.quoted),
            e.value
        );
    }
    let count = |tt: TokenType| v.iter().filter(|t| t.tt == tt).count();
    assert_eq!(count(TokenType::ObjectStart), 4);
    assert_eq!(count(TokenType::ObjectEnd), 4);
    assert_eq!(count(TokenType::ArrayStart), 5);
    assert_eq!(count(TokenType::ArrayEnd), 5);
    assert_eq!(count(TokenType::JsonKey), 19);
    assert_eq!(count(TokenType::ContentSeparator), 19);
    assert_eq!(count(TokenType::JsonValue), 27);
    let in_arrays: Vec<&str> = v
        .iter()
        .filter(|t| t.tt == TokenType::JsonValue && t.vof == ValueOf::Array)
        .map(|t| t.value.as_str())
        .collect();
    assert_eq!(
        in_arrays,
        vec!["1", "2", "3", "1", "2", "3", "3.1415", "100", "Hello", "false", "null"]
    );
}

#[test]
fn structural_characters_become_tokens() {
    let tokens = tokenize("{}[]:,").unwrap();
    assert_eq!(
        kinds(&tokens),
        vec![
            TokenType::ObjectStart,
            TokenType::ObjectEnd,
            TokenType::ArrayStart,
            TokenType::ArrayEnd,
            TokenType::ContentSeparator,
            TokenType::ElementSeparator,
        ]
    );
    let texts: Vec<&str> = tokens.iter().map(|t| t.value.as_str()).collect();
    assert_eq!(texts, vec!["{", "}", "[", "]", ":", ","]);
}

#[test]
fn quoted_content_is_kept_as_it_is() {
    let tokens = tokenize(r#"[" a, b ", "", "x\"y", "{[]}", "\\"]"#).unwrap();
    let values: Vec<&str> = tokens
        .iter()
        .filter(|t| t.tt == TokenType::JsonValue)
        .map(|t| t.value.as_str())
        .collect();
    assert_eq!(values, vec![" a, b ", "", r#"x\"y"#, "{[]}", r#"\\"#]);
    assert!(tokens
        .iter()
        .filter(|t| t.tt == TokenType::JsonValue)
        .all(|t| t.quoted == Some(true) && t.vof == ValueOf::Array));
}

#[test]
fn unquoted_content_ends_at_a_checker_or_a_quote() {
    let tokens = tokenize("[12\"ab\"\t-3.5e2\n,x:y,a\\,b]").unwrap();
    let values: Vec<(&str, Option<bool>)> = tokens
        .iter()
        .filter(|t| t.tt == TokenType::JsonValue)
        .map(|t| (t.value.as_str(), t.quoted))
        .collect();
    assert_eq!(
        values,
        vec![
            ("12", Some(false)),
            ("ab", Some(true)),
            ("-3.5e2", Some(false)),
            ("x:y", Some(false)),
            ("a\\,b", Some(false)),
        ]
    );
}

#[test]
fn an_open_quote_runs_to_the_end() {
    let tokens = tokenize(r#"["abc, 1]"#).unwrap();
    assert_eq!(tokens.len(), 2);
    assert_eq!(tokens[1].value, "abc, 1]");
    assert_eq!(tokens[1].quoted, Some(true));
}

#[test]
fn keys_and_values_follow_the_separators() {
    let tokens = tokenize(r#"{"a":"b","c":["d"],"e":{"f":1}}"#).unwrap();
    let seen: Vec<(TokenType, &str, ValueOf)> = tokens
        .iter()
        .filter(|t| t.tt == TokenType::JsonKey || t.tt == TokenType::JsonValue)
        .map(|t| (t.tt, t.value.as_str(), t.vof))
        .collect();
    assert_eq!(
        seen,
        vec![
            (TokenType::JsonKey, "a", ValueOf::Object),
            (TokenType::JsonValue, "b", ValueOf::Object),
            (TokenType::JsonKey, "c", ValueOf::Object),
            (TokenType::JsonValue, "d", ValueOf::Array),
            (TokenType::JsonKey, "e", ValueOf::Object),
            (TokenType::JsonKey, "f", ValueOf::Object),
            (TokenType::JsonValue, "1", ValueOf::Object),
        ]
    );
}

#[test]
fn content_that_no_rule_accepts_is_a_lex_error() {
    assert_eq!(tokenize("abc").err(), Some(JsonError::LexError(0)));
    assert_eq!(tokenize("  \"abc\"").err(), Some(JsonError::LexError(2)));
    assert_eq!(tokenize("{abc: 1}").err(), Some(JsonError::LexError(1)));
    assert_eq!(tokenize("{\"a\": 1, b: 2}").err(), Some(JsonError::LexError(9)));
    assert_eq!(tokenize("[1] 2").err(), Some(JsonError::LexError(4)));
    assert_eq!(tokenize("{} \u{e9}").err(), Some(JsonError::LexError(3)));
    assert_eq!(JsonError::LexError(3).describe(), "LexError");
}

#[test]
fn whitespace_between_tokens_is_skipped() {
    let spaced = tokenize(" {\n\t\"a\" :\t1 ,\n \"b\" : [ ] } ").unwrap();
    let tight = tokenize("{\"a\":1,\"b\":[]}").unwrap();
    assert_eq!(kinds(&spaced), kinds(&tight));
    assert_eq!(spaced.len(), 10);
    assert_eq!(tokenize("").unwrap().len(), 0);
    assert_eq!(tokenize(" \n\t").unwrap().len(), 0);
}
