use vstd::prelude::*;
use vstd::string::StringExecFns;
use vstd::utf8::encode_utf8;
use crate::number::{decimal, push_decimal};

verus! {

pub struct HttpResponse {
    pub version: String,
    pub status: String,
    pub message: String,
    pub content_type: String,
    /// The length of the contents in bytes.
    pub content_length: usize,
    pub contents: String,
}

/// The text of a response: the status line, the two headers, an empty
/// line, and the contents.
pub open spec fn response_text(
    version: Seq<char>,
    status: Seq<char>,
    message: Seq<char>,
    content_type: Seq<char>,
    content_length: nat,
    contents: Seq<char>,
) -> Seq<char> {
    version + " "@ + status + " "@ + message + "\r\nContent-Type: "@ + content_type
        + "\r\nContent-Length: "@ + decimal(content_length) + "\r\n\r\n"@ + contents
}

impl HttpResponse {
    /// A response in JSON over HTTP/1.1.
    pub fn new(status: &str, message: &str, contents: &str) -> (r: Self)
        ensures
            r.version@ == "HTTP/1.1"@,
            r.status@ == status@,
            r.message@ == message@,
            r.content_type@ == "application/json"@,
            r.content_length == encode_utf8(contents@).len(),
            r.contents@ == contents@,
    {
        HttpResponse::init("HTTP/1.1", status, message, "application/json", contents)
    }

    pub fn init(version: &str, status: &str, message: &str, content_type: &str, contents: &str) -> (r:
        Self)
        ensures
            r.version@ == version@,
            r.status@ == status@,
            r.message@ == message@,
            r.content_type@ == content_type@,
            r.content_length == encode_utf8(contents@).len(),
            r.contents@ == contents@,
    {
        Self {
            version: String::from_str(version),
            status: String::from_str(status),
            message: String::from_str(message),
            content_type: String::from_str(content_type),
            content_length: contents.as_bytes().len(),
            contents: String::from_str(contents),
        }
    }

    /// The text that is sent.
    pub fn construct(&self) -> (s: String)
        ensures
            s@ == response_text(
                self.version@,
                self.status@,
                self.message@,
                self.content_type@,
                self.content_length as nat,
                self.contents@,
            ),
    {
        let mut s = String::new();
        s.append(self.version.as_str());
        s.append(" ");
        s.append(self.status.as_str());
        s.append(" ");
        s.append(self.message.as_str());
        s.append("\r\nContent-Type: ");
        s.append(self.content_type.as_str());
        s.append("\r\nContent-Length: ");
        push_decimal(&mut s, self.content_length as u128);
        s.append("\r\n\r\n");
        s.append(self.contents.as_str());
        assert(s@ =~= response_text(
            self.version@,
            self.status@,
            self.message@,
            self.content_type@,
            self.content_length as nat,
            self.contents@,
        ));
        s
    }
}

} // verus!
