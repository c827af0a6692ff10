use vstd::prelude::*;
use vstd::string::StringExecFns;
use crate::text::str_eq;

verus! {

#[allow(non_camel_case_types)]
#[derive(Debug, Clone, Copy, PartialEq, Eq, Hash, Structural)]
pub enum HttpMethod {
    DELETE,
    GET,
    NONE,
    POST,
    UPDATE,
}

/// The method that a word names; `NONE` for any other word.
pub open spec fn method_of(word: Seq<char>) -> HttpMethod {
    if word == "GET"@ {
        HttpMethod::GET
    } else if word == "POST"@ {
        HttpMethod::POST
    } else if word == "UPDATE"@ {
        HttpMethod::UPDATE
    } else if word == "DELETE"@ {
        HttpMethod::DELETE
    } else {
        HttpMethod::NONE
    }
}

/// The word for a method.
pub open spec fn method_name(m: HttpMethod) -> Seq<char> {
    match m {
        HttpMethod::GET => "GET"@,
        HttpMethod::POST => "POST"@,
        HttpMethod::UPDATE => "UPDATE"@,
        HttpMethod::DELETE => "DELETE"@,
        HttpMethod::NONE => "NONE"@,
    }
}

impl HttpMethod {
    pub fn from(method: String) -> (m: HttpMethod)
        ensures
            m == method_of(method@),
    {
        let word = method.as_str();
        if str_eq(word, "GET") {
            HttpMethod::GET
        } else if str_eq(word, "POST") {
            HttpMethod::POST
        } else if str_eq(word, "UPDATE") {
            HttpMethod::UPDATE
        } else if str_eq(word, "DELETE") {
            HttpMethod::DELETE
        } else {
            HttpMethod::NONE
        }
    }

    pub fn as_string(&self) -> (s: String)
        ensures
            s@ == method_name(*self),
    {
        match self {
            HttpMethod::GET => String::from_str("GET"),
            HttpMethod::POST => String::from_str("POST"),
            HttpMethod::UPDATE => String::from_str("UPDATE"),
            HttpMethod::DELETE => String::from_str("DELETE"),
            HttpMethod::NONE => String::from_str("NONE"),
        }
    }

    /// The method as it is shown in a log line.
    pub fn display(&self) -> (s: String)
        ensures
            s@ == "HttpRequest-Method { "@ + method_name(*self) + " }"@,
    {
        let mut s = String::from_str("HttpRequest-Method { ");
        let name = self.as_string();
        s.append(name.as_str());
        s.append(" }");
        s
    }
}

/// The method of a request line.
#[allow(non_camel_case_types)]
#[derive(Debug, Clone, Copy, PartialEq, Eq, Structural)]
pub enum HttpRequestMethod {
    GET,
    POST,
    UPDATE,
    DELETE,
    NONE,
}

impl HttpRequestMethod {
    /// The same method among those of the route table.
    pub open spec fn method(self) -> HttpMethod {
        match self {
            HttpRequestMethod::GET => HttpMethod::GET,
            HttpRequestMethod::POST => HttpMethod::POST,
            HttpRequestMethod::UPDATE => HttpMethod::UPDATE,
            HttpRequestMethod::DELETE => HttpMethod::DELETE,
            HttpRequestMethod::NONE => HttpMethod::NONE,
        }
    }

    pub fn from(method: String) -> (m: HttpRequestMethod)
        ensures
            m.method() == method_of(method@),
    {
        match HttpMethod::from(method) {
            HttpMethod::GET => HttpRequestMethod::GET,
            HttpMethod::POST => HttpRequestMethod::POST,
            HttpMethod::UPDATE => HttpRequestMethod::UPDATE,
            HttpMethod::DELETE => HttpRequestMethod::DELETE,
            HttpMethod::NONE => HttpRequestMethod::NONE,
        }
    }

    pub fn to_method(&self) -> (m: HttpMethod)
        ensures
            m == self.method(),
    {
        match self {
            HttpRequestMethod::GET => HttpMethod::GET,
            HttpRequestMethod::POST => HttpMethod::POST,
            HttpRequestMethod::UPDATE => HttpMethod::UPDATE,
            HttpRequestMethod::DELETE => HttpMethod::DELETE,
            HttpRequestMethod::NONE => HttpMethod::NONE,
        }
    }
}

} // verus!
