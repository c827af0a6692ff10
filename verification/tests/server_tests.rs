use json_main::server::config::{construct_app_url, is_async_route};
use json_main::server::enums::{HttpMethod, HttpRequestMethod};
use json_main::server::http_request::{drop_first_plain, split_trimmed, white, word_at, HttpRequest};
use json_main::server::http_response::HttpResponse;
use json_main::server::json::{Json, JsonArray, JsonBuilder, JsonNull, JsonObject, JsonValue};
use json_main::server::router::{Extra, Get, Route, RouterHandler};

#[test]
fn json_array_test() {
    let mut json_object_2 = Json::object();
    json_object_2.insert("key1", "string2");
    json_object_2.insert("key2", 456);
    json_object_2.insert("key3", false);
    json_object_2.insert("key4", JsonNull::new());

    let mut json_object_3 = Json::object();
    json_object_3.insert("key1", "string2");
    json_object_3.insert("key2", 456);
    json_object_3.insert("key3", false);
    json_object_3.insert("key4", JsonNull::new());

    let mut json_array = Json::array();
    json_array.append(json_object_2).append(json_object_3);

    let json = Json::build(json_array);
    println!("--- Generated Json ---");
    println!("{}", json);
    println!("--- Generated Json ---");
    let one = r#"{"key1":"string2","key2":456,"key3":false,"key4":null}"#;
    assert_eq!(json, format!("[{},{}]", one, one));
}

#[test]
fn json_object_test() {
    let mut json_object_1 = Json::object();
    json_object_1.insert("key1", "string1");
    json_object_1.insert("key2", 456);
    json_object_1.insert("key3", false);
    json_object_1.insert("key4", JsonNull::new());

    let mut json_object_2 = Json::object();
    json_object_2.insert("key1", "string2");
    json_object_2.insert("key2", 456);
    json_object_2.insert("key3", false);
    json_object_2.insert("key4", JsonNull::new());

    let mut json_object_3 = Json::object();
    json_object_3.insert("key1", "string2");
    json_object_3.insert("key2", 456);
    json_object_3.insert("key3", false);
    json_object_3.insert("key4", JsonNull::new());

    let mut json_array = Json::array();
    json_array.append(json_object_2);
    json_array.append(json_object_3);

    let mut json_object = Json::object();
    json_object
        .insert("key1", "string0")
        .insert("key2", 123)
        .insert("key3", true)
        .insert("key4", JsonNull::new())
        .insert("object_1", json_object_1)
        .insert("array", json_array);

    let json = Json::build(json_object);
    println!("--- Generated Json ---");
    println!("{}", json);
    println!("--- Generated Json ---");
    let two = r#"{"key1":"string2","key2":456,"key3":false,"key4":null}"#;
    let one = r#"{"key1":"string1","key2":456,"key3":false,"key4":null}"#;
    assert_eq!(
        json,
        format!(
            r#"{{"key1":"string0","key2":123,"key3":true,"key4":null,"object_1":{},"array":[{},{}]}}"#,
            one, two, two
        )
    );
}

#[test]
fn body_fields_are_replaced_and_removed() {
    let mut o = JsonObject::new();
    o.insert("a", 1u8).insert("b", String::from("x")).insert("a", -2i64);
    assert_eq!(o.render(), r#"{"a":-2,"b":"x"}"#);
    o.remove("a").remove("zz");
    assert_eq!(Json::build(o), r#"{"b":"x"}"#);
    let mut a = JsonArray::new();
    a.append(JsonObject::new()).append(JsonObject::new());
    a.remove(5).remove(0);
    assert_eq!(a.render(), "[{}]");
    assert_eq!(
        JsonValue::from(true).display(),
        "JsonValue { dt: JsonType.Boolean, value: true }"
    );
    assert_eq!(
        JsonValue::from(a).display(),
        "JsonValue { dt: JsonType.Array, value: [{}] }"
    );
}

#[test]
fn methods_are_named_by_their_words() {
    assert_eq!(HttpMethod::from(String::from("GET")), HttpMethod::GET);
    assert_eq!(HttpMethod::from(String::from("POST")), HttpMethod::POST);
    assert_eq!(HttpMethod::from(String::from("UPDATE")), HttpMethod::UPDATE);
    assert_eq!(HttpMethod::from(String::from("DELETE")), HttpMethod::DELETE);
    assert_eq!(HttpMethod::from(String::from("get")), HttpMethod::NONE);
    assert_eq!(HttpMethod::from(String::from("")), HttpMethod::NONE);
    assert_eq!(HttpMethod::UPDATE.as_string(), "UPDATE");
    assert_eq!(HttpMethod::NONE.as_string(), "NONE");
    assert_eq!(HttpMethod::GET.display(), "HttpRequest-Method { GET }");
    assert_eq!(HttpRequestMethod::from(String::from("DELETE")), HttpRequestMethod::DELETE);
    assert_eq!(HttpRequestMethod::from(String::from("PUT")), HttpRequestMethod::NONE);
    assert_eq!(HttpRequestMethod::POST.to_method(), HttpMethod::POST);
}

#[test]
fn a_response_has_its_length_in_bytes() {
    let r = HttpResponse::new("200", "Ok", "{\"a\":\"\u{e9}\"}");
    assert_eq!(r.content_length, 10);
    assert_eq!(r.content_type, "application/json");
    assert_eq!(
        r.construct(),
        "HTTP/1.1 200 Ok\r\nContent-Type: application/json\r\nContent-Length: 10\r\n\r\n{\"a\":\"\u{e9}\"}"
    );
    let plain = HttpResponse::init("HTTP/2", "204", "No Content", "text/plain", "");
    assert_eq!(
        plain.construct(),
        "HTTP/2 204 No Content\r\nContent-Type: text/plain\r\nContent-Length: 0\r\n\r\n"
    );
}

#[test]
fn routes_answer_with_their_texts() {
    assert_eq!(
        Extra::not_found(),
        "HTTP/1.1 404 Not Found\r\nContent-Type: text/json\r\nContent-Length: 23\r\n\r\n{ \"test\": \"Not Found\" }"
    );
    assert_eq!(
        Extra::method_not_allowed(),
        "HTTP/1.1 405 Not Allowed\r\nContent-Type: text/json\r\nContent-Length: 32\r\n\r\n{ \"test\": \"Method Not Allowed\" }"
    );
    let body = r#"{"path":"home","method":"get","number":123,"is_alright":true,"is_null":null}"#;
    assert_eq!(
        Get::home(),
        format!(
            "HTTP/1.1 200 Ok\r\nContent-Type: application/json\r\nContent-Length: {}\r\n\r\n{}",
            body.len(),
            body
        )
    );
    assert_eq!(Route::Home.respond(), Get::home());
    assert_eq!(Route::NotFound.respond(), Extra::not_found());
    assert_eq!(Route::MethodNotAllowed.respond(), Extra::method_not_allowed());
}

#[test]
fn the_table_routes_by_method_and_path() {
    let router = RouterHandler::new();
    assert_eq!(router.exec(&HttpMethod::GET, "/"), Route::Home);
    assert_eq!(router.exec(&HttpMethod::GET, "/sleep"), Route::NotFound);
    assert_eq!(router.exec(&HttpMethod::POST, "/"), Route::NotFound);
    assert_eq!(router.exec(&HttpMethod::DELETE, "/file/delete"), Route::NotFound);
    assert_eq!(router.exec(&HttpMethod::NONE, "/"), Route::MethodNotAllowed);
    assert_eq!(construct_app_url(), "127.0.0.1:7000");
    assert!(is_async_route("/notification"));
    assert!(!is_async_route("/"));
}

#[test]
fn white_space_is_what_the_standard_library_says() {
    for code in 0u32..=0x10ffff {
        if let Some(c) = char::from_u32(code) {
            assert_eq!(white(c), c.is_whitespace(), "for U+{:04X}", code);
        }
    }
}

#[test]
fn words_headers_and_pieces() {
    assert_eq!(word_at("GET /index.html HTTP/1.1", 0), Some(String::from("GET")));
    assert_eq!(word_at("  GET \t /a\u{a0}HTTP/1.1  ", 1), Some(String::from("/a")));
    assert_eq!(word_at("  GET \t /a\u{a0}HTTP/1.1  ", 2), Some(String::from("HTTP/1.1")));
    assert_eq!(word_at("GET /", 2), None);
    assert_eq!(word_at("", 0), None);
    assert_eq!(drop_first_plain("Host: localhost:7000"), "ost: localhost:7000");
    assert_eq!(drop_first_plain("::a:b"), ":::b");
    assert_eq!(drop_first_plain(":::"), ":::");
    assert_eq!(drop_first_plain(""), "");
    assert_eq!(split_trimmed(" gzip, deflate ,br,,", ','), vec!["gzip", "deflate", "br", "", ""]);
    assert_eq!(split_trimmed("", ','), vec![""]);
}

#[test]
fn a_request_is_read_from_its_lines() {
    let lines: Vec<String> = vec![
        "GET /folder/create HTTP/1.1",
        "Host: 127.0.0.1:7000",
        "User-Agent: Mozilla/5.0",
        "Accept: text/html",
        "Accept-Language: en-US,en;q=0.5",
        "Accept-Encoding: gzip, deflate, br",
        "Connection: keep-alive",
        "Upgrade-Insecure-Requests: 1",
        "Sec-Fetch-Dest: document",
        "Sec-Fetch-Mode: navigate",
        "Sec-Fetch-Site: none",
        "Priority: u=0, i",
    ]
    .into_iter()
    .map(String::from)
    .collect();
    let request = HttpRequest::construct(lines).unwrap();
    assert_eq!(request.method, HttpRequestMethod::GET);
    assert_eq!(request.path, "/folder/create");
    assert_eq!(request.http_version, "HTTP/1.1");
    assert_eq!(request.host, "ost: 127.0.0.1:7000");
    assert_eq!(request.user_agent, "ser-Agent: Mozilla/5.0");
    assert_eq!(request.accept, "ccept: text/html");
    assert_eq!(request.accept_language, "ccept-Language: en-US,en;q=0.5");
    assert_eq!(request.accept_encoding, vec!["ccept-Encoding: gzip", "deflate", "br"]);
    assert_eq!(request.connection, "onnection: keep-alive");
    assert_eq!(request.upgrade_insecure_requests, "pgrade-Insecure-Requests: 1");
    assert_eq!(request.sec_fetch_dest, "ec-Fetch-Dest: document");
    assert_eq!(request.sec_fetch_mode, "ec-Fetch-Mode: navigate");
    assert_eq!(request.sec_fetch_site, "ec-Fetch-Site: none");
    assert_eq!(request.priority, "riority: u=0, i");
}

#[test]
fn short_requests_are_read_as_far_as_they_go() {
    let two: Vec<String> = vec![String::from("POST / HTTP/1.1"), String::from("Host: a, b")];
    let request = HttpRequest::construct(two).unwrap();
    assert_eq!(request.method, HttpRequestMethod::POST);
    assert_eq!(request.accept_encoding, vec!["ost: a", "b"]);
    assert_eq!(request.priority, "");
    assert!(HttpRequest::construct(vec![]).is_none());
    assert!(HttpRequest::construct(vec![String::from("GET /")]).is_none());
    assert!(HttpRequest::construct(vec![String::from("GET / HTTP/1.1")]).is_none());
    assert!(
        HttpRequest::construct(vec![String::from("GET / HTTP/1.1"), String::from("H")]).is_none()
    );
}
