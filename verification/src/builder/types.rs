use vstd::prelude::*;

verus! {

/// The kind of a built value.
#[derive(Debug, PartialEq, Eq, Clone, Copy, Structural)]
pub enum JsonType {
    Number,
    String,
    Boolean,
    Null,
    Object,
    Array,
}

/// The name of a kind.
pub open spec fn kind_name(t: JsonType) -> Seq<char> {
    match t {
        JsonType::Number => "JsonType.Number"@,
        JsonType::String => "JsonType.String"@,
        JsonType::Boolean => "JsonType.Boolean"@,
        JsonType::Null => "JsonType.Null"@,
        JsonType::Object => "JsonType.Object"@,
        JsonType::Array => "JsonType.Array"@,
    }
}

impl JsonType {
    pub open spec fn primitive(self) -> bool {
        self == JsonType::Number || self == JsonType::String || self == JsonType::Boolean || self
            == JsonType::Null
    }

    /// Whether the kind is a leaf: anything but an object or an array.
    pub fn is_primitive(self) -> (b: bool)
        ensures
            b == self.primitive(),
    {
        self == JsonType::Number || self == JsonType::String || self == JsonType::Boolean || self
            == JsonType::Null
    }

    /// The name of the kind.
    pub fn name(&self) -> (s: &'static str)
        ensures
            s@ == kind_name(*self),
    {
        match self {
            JsonType::Number => "JsonType.Number",
            JsonType::String => "JsonType.String",
            JsonType::Boolean => "JsonType.Boolean",
            JsonType::Null => "JsonType.Null",
            JsonType::Object => "JsonType.Object",
            JsonType::Array => "JsonType.Array",
        }
    }
}

/// The explicit null marker.
#[derive(Debug, Clone, Copy)]
pub struct JsonNull {}

impl JsonNull {
    pub fn new() -> Self {
        Self {  }
    }
}

} // verus!
