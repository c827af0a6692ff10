//! A JSON text codec: a tokenizer, a structural parser, a traversal engine
//! with typed consumers, and a builder that renders compact JSON text.
//!
//! Around the codec stand its callers' parts that compute: the texts of a
//! small listener's requests and responses, the lines of a log, a listing
//! of JSON text in colours, and a doubly linked list.

pub mod error;
pub mod text;
pub mod number;
pub mod entries;
pub mod ast;
pub mod builder;
pub mod types;
pub mod parser;
pub mod roundtrip;
pub mod formatter;
pub mod server;
pub mod logger;
pub mod list;

use vstd::prelude::*;
use crate::ast::traverser::JsonTraverserTrait;
use crate::builder::array::JsonBuilderArray;
use crate::builder::component::JsonBuilderComponent;
use crate::builder::main::JsonBuilder;
use crate::builder::object::JsonBuilderObject;
use crate::error::JsonError;
use crate::parser::main::JsonParser;
use crate::parser::parser::JsonTextParser;
use crate::types::types::{JsonTypeArray, JsonTypeObject, JsonTypeValue, JsonView};

verus! {

/// The codec as one type: the start of building, and a reader of one text.
pub struct Json {
    jtp: JsonTextParser,
}

impl JsonBuilder for Json {
    fn builder_object() -> (o: JsonBuilderObject) {
        JsonBuilderObject::new()
    }

    fn builder_array() -> (a: JsonBuilderArray) {
        JsonBuilderArray::new()
    }

    fn object() -> (o: JsonTypeObject) {
        JsonTypeObject::new()
    }

    fn array() -> (a: JsonTypeArray) {
        JsonTypeArray::new()
    }

    fn build<C: Into<JsonBuilderComponent>>(jc: C) -> (s: String) {
        let c: JsonBuilderComponent = jc.into();
        let ghost made = c;
        let s = c.result;
        assert(call_ensures(<C as Into<JsonBuilderComponent>>::into, (jc,), made) && s@ == made@);
        s
    }
}

impl JsonParser for Json {
    closed spec fn text(&self) -> Seq<char> {
        self.jtp.text()
    }

    closed spec fn state(&self) -> Seq<JsonView> {
        self.jtp.state()
    }

    fn parser(json: String) -> (p: Self) {
        Self { jtp: JsonTextParser::new(json) }
    }

    fn parse(&mut self) -> (r: Result<(), JsonError>) {
        self.jtp.parse()
    }

    fn get(&self) -> (r: Option<&JsonTypeValue>) {
        self.jtp.get()
    }

    fn get_mut(&mut self) -> (r: Option<&mut JsonTypeValue>) {
        self.jtp.get_mut()
    }
}

} // verus!
