use vstd::prelude::*;
use vstd::string::StringExecFns;
use vstd::utf8::encode_utf8;
use crate::builder::value::quoted;
use crate::number::int_decimal;
use crate::server::config::is_async_route;
use crate::server::enums::HttpMethod;
use crate::server::http_request::HttpRequest;
use crate::server::http_response::{HttpResponse, response_text};
use crate::server::json::{Json, JsonBuilder, JsonNull, object_body};
use crate::text::str_eq;

verus! {

/// What answers a request.
#[derive(Debug, Clone, Copy, PartialEq, Eq, Structural)]
pub enum Route {
    Home,
    NotFound,
    MethodNotAllowed,
}

/// The answers that need no route.
pub struct Extra {}

/// The routes of `GET`.
pub struct Get {}

pub open spec fn not_found_contents() -> Seq<char> {
    "{ \"test\": \"Not Found\" }"@
}

pub open spec fn not_allowed_contents() -> Seq<char> {
    "{ \"test\": \"Method Not Allowed\" }"@
}

/// The body of the home route.
pub open spec fn home_contents() -> Seq<char> {
    object_body(
        seq![
            ("path"@, quoted("home"@)),
            ("method"@, quoted("get"@)),
            ("number"@, int_decimal(123)),
            ("is_alright"@, "true"@),
            ("is_null"@, "null"@),
        ],
    )
}

/// The answer where no route is found.
pub open spec fn not_found_text() -> Seq<char> {
    response_text(
        "HTTP/1.1"@,
        "404"@,
        "Not Found"@,
        "text/json"@,
        encode_utf8(not_found_contents()).len(),
        not_found_contents(),
    )
}

/// The answer where the method is none of those that are routed.
pub open spec fn not_allowed_text() -> Seq<char> {
    response_text(
        "HTTP/1.1"@,
        "405"@,
        "Not Allowed"@,
        "text/json"@,
        encode_utf8(not_allowed_contents()).len(),
        not_allowed_contents(),
    )
}

/// The answer of the home route.
pub open spec fn home_text() -> Seq<char> {
    response_text(
        "HTTP/1.1"@,
        "200"@,
        "Ok"@,
        "application/json"@,
        encode_utf8(home_contents()).len(),
        home_contents(),
    )
}

/// The text that a route answers with.
pub open spec fn route_text(route: Route) -> Seq<char> {
    match route {
        Route::Home => home_text(),
        Route::NotFound => not_found_text(),
        Route::MethodNotAllowed => not_allowed_text(),
    }
}

impl Extra {
    pub fn not_found() -> (s: String)
        ensures
            s@ == not_found_text(),
    {
        HttpResponse::init(
            "HTTP/1.1",
            "404",
            "Not Found",
            "text/json",
            "{ \"test\": \"Not Found\" }",
        ).construct()
    }

    pub fn method_not_allowed() -> (s: String)
        ensures
            s@ == not_allowed_text(),
    {
        HttpResponse::init(
            "HTTP/1.1",
            "405",
            "Not Allowed",
            "text/json",
            "{ \"test\": \"Method Not Allowed\" }",
        ).construct()
    }
}

impl Get {
    pub fn home() -> (s: String)
        ensures
            s@ == home_text(),
    {
        let mut json_object = Json::object();
        json_object.insert("path", "home");
        json_object.insert("method", "get");
        json_object.insert("number", 123);
        json_object.insert("is_alright", true);
        json_object.insert("is_null", JsonNull::new());
        assert(json_object@ =~= seq![
            ("path"@, quoted("home"@)),
            ("method"@, quoted("get"@)),
            ("number"@, int_decimal(123)),
            ("is_alright"@, "true"@),
            ("is_null"@, "null"@),
        ]) by {
            lemma_home_keys();
        }
        let contents = json_object.render();
        let http_response = HttpResponse::new("200", "Ok", contents.as_str());
        http_response.construct()
    }
}

/// The five keys of the home body are five different texts.
proof fn lemma_home_keys()
    ensures
        "path"@ != "method"@,
        "path"@ != "number"@,
        "path"@ != "is_alright"@,
        "path"@ != "is_null"@,
        "method"@ != "number"@,
        "method"@ != "is_alright"@,
        "method"@ != "is_null"@,
        "number"@ != "is_alright"@,
        "number"@ != "is_null"@,
        "is_alright"@ != "is_null"@,
{
    reveal_strlit("path");
    reveal_strlit("method");
    reveal_strlit("number");
    reveal_strlit("is_alright");
    reveal_strlit("is_null");
    assert("path"@[0] != "method"@[0]);
    assert("path"@[0] != "number"@[0]);
    assert("path"@[0] != "is_alright"@[0]);
    assert("path"@[0] != "is_null"@[0]);
    assert("method"@[0] != "number"@[0]);
    assert("method"@[0] != "is_alright"@[0]);
    assert("method"@[0] != "is_null"@[0]);
    assert("number"@[0] != "is_alright"@[0]);
    assert("number"@[0] != "is_null"@[0]);
    assert("is_alright"@[3] != "is_null"@[3]);
}

impl Route {
    /// The text that the route answers with.
    pub fn respond(&self) -> (s: String)
        ensures
            s@ == route_text(*self),
    {
        match self {
            Route::Home => Get::home(),
            Route::NotFound => Extra::not_found(),
            Route::MethodNotAllowed => Extra::method_not_allowed(),
        }
    }
}

/// The route table.
pub struct RouterHandler {
    map: Vec<(HttpMethod, String, Route)>,
}

pub open spec fn routes_view(map: Seq<(HttpMethod, String, Route)>) -> Seq<
    (HttpMethod, Seq<char>, Route),
> {
    map.map_values(|e: (HttpMethod, String, Route)| (e.0, e.1@, e.2))
}

/// The route of a method and a path: the first entry of the table for
/// both; `NotFound` if there is none.
pub open spec fn route_of(
    table: Seq<(HttpMethod, Seq<char>, Route)>,
    method: HttpMethod,
    path: Seq<char>,
) -> Route
    decreases table.len(),
{
    if table.len() == 0 {
        Route::NotFound
    } else if table[0].0 == method && table[0].1 == path {
        table[0].2
    } else {
        route_of(table.drop_first(), method, path)
    }
}

/// The route of a request: no method, no route; else what the table says.
pub open spec fn dispatch(
    table: Seq<(HttpMethod, Seq<char>, Route)>,
    method: HttpMethod,
    path: Seq<char>,
) -> Route {
    if method == HttpMethod::NONE {
        Route::MethodNotAllowed
    } else {
        route_of(table, method, path)
    }
}

impl RouterHandler {
    pub closed spec fn table(&self) -> Seq<(HttpMethod, Seq<char>, Route)> {
        routes_view(self.map@)
    }

    /// The table of this listener: `GET /` is the home route.
    pub fn new() -> (r: Self)
        ensures
            r.table() == seq![(HttpMethod::GET, "/"@, Route::Home)],
    {
        let r = RouterHandler { map: RouterHandler::route_map() };
        r
    }

    fn route_map() -> (map: Vec<(HttpMethod, String, Route)>)
        ensures
            routes_view(map@) == seq![(HttpMethod::GET, "/"@, Route::Home)],
    {
        let mut map: Vec<(HttpMethod, String, Route)> = Vec::new();
        map.push((HttpMethod::GET, String::from_str("/"), Route::Home));
        assert(routes_view(map@) =~= seq![(HttpMethod::GET, "/"@, Route::Home)]);
        map
    }

    /// The route that answers `method` on `path`.
    pub fn exec(&self, method: &HttpMethod, path: &str) -> (r: Route)
        ensures
            r == dispatch(self.table(), *method, path@),
    {
        match method {
            HttpMethod::NONE => Route::MethodNotAllowed,
            _ => self.find(method, path),
        }
    }

    /// What the listener does with a request: nothing for the paths that
    /// are set aside, else the text of the route to send back.
    pub fn answer(&self, request: &HttpRequest) -> (r: Option<String>)
        ensures
            match r {
                Some(s) => request.path@ != "/notification"@ && s@ == route_text(
                    dispatch(self.table(), request.method.method(), request.path@),
                ),
                None => request.path@ == "/notification"@,
            },
    {
        if is_async_route(request.path.as_str()) {
            return None;
        }
        let method = request.method.to_method();
        Some(self.exec(&method, request.path.as_str()).respond())
    }

    fn find(&self, method: &HttpMethod, path: &str) -> (r: Route)
        ensures
            r == route_of(self.table(), *method, path@),
    {
        let ghost table = self.table();
        let mut i: usize = 0;
        assert(table.skip(0) =~= table);
        while i < self.map.len()
            invariant
                i <= self.map.len(),
                table == self.table(),
                route_of(table, *method, path@) == route_of(table.skip(i as int), *method, path@),
            decreases self.map.len() - i,
        {
            let ghost rest = table.skip(i as int);
            assert(rest[0] == table[i as int]);
            assert(rest.drop_first() =~= table.skip(i + 1));
            if self.map[i].0 == *method && str_eq(self.map[i].1.as_str(), path) {
                return self.map[i].2;
            }
            i += 1;
        }
        assert(table.skip(i as int) =~= Seq::<(HttpMethod, Seq<char>, Route)>::empty());
        Route::NotFound
    }
}

} // verus!
