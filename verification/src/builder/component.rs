use vstd::prelude::*;
use vstd::std_specs::convert::FromSpecImpl;
use crate::builder::array::JsonBuilderArray;
use crate::builder::object::JsonBuilderObject;
use crate::builder::value::{array_text, object_text};

verus! {

/// The text of a finished container.
pub struct JsonBuilderComponent {
    pub result: String,
}

impl View for JsonBuilderComponent {
    type V = Seq<char>;

    open spec fn view(&self) -> Seq<char> {
        self.result@
    }
}

impl From<JsonBuilderObject> for JsonBuilderComponent {
    fn from(v: JsonBuilderObject) -> (r: Self)
        ensures
            r@ == object_text(v@),
    {
        JsonBuilderComponent { result: v.render() }
    }
}

impl FromSpecImpl<JsonBuilderObject> for JsonBuilderComponent {
    open spec fn obeys_from_spec() -> bool {
        false
    }

    open spec fn from_spec(v: JsonBuilderObject) -> Self {
        arbitrary()
    }
}

impl From<JsonBuilderArray> for JsonBuilderComponent {
    fn from(v: JsonBuilderArray) -> (r: Self)
        ensures
            r@ == array_text(v@),
    {
        JsonBuilderComponent { result: v.render() }
    }
}

impl FromSpecImpl<JsonBuilderArray> for JsonBuilderComponent {
    open spec fn obeys_from_spec() -> bool {
        false
    }

    open spec fn from_spec(v: JsonBuilderArray) -> Self {
        arbitrary()
    }
}

} // verus!
