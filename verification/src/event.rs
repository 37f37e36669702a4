use vstd::prelude::*;

verus! {

/// All events that [`JsonParser::next_event`](crate::JsonParser::next_event)
/// can hand out. The end of the JSON text is signalled by the absence of an
/// event.
#[derive(Copy, Clone, Debug, PartialEq, Eq, Structural)]
pub enum JsonEvent {
    /// The parser needs more input before it can produce the next event.
    /// Give the feeder more bytes and call the parser again.
    NeedMoreInput,
    /// The start of a JSON object.
    StartObject,
    /// The end of a JSON object.
    EndObject,
    /// The start of a JSON array.
    StartArray,
    /// The end of a JSON array.
    EndArray,
    /// A field name. The name is available through
    /// [`JsonParser::current_str`](crate::JsonParser::current_str).
    FieldName,
    /// A string value. The text is available through
    /// [`JsonParser::current_str`](crate::JsonParser::current_str).
    ValueString,
    /// An integer value. The number is available through
    /// [`JsonParser::current_int`](crate::JsonParser::current_int).
    ValueInt,
    /// A floating point value. Its text is available through
    /// [`JsonParser::current_str`](crate::JsonParser::current_str).
    ValueFloat,
    /// The boolean value `true`.
    ValueTrue,
    /// The boolean value `false`.
    ValueFalse,
    /// A `null` value.
    ValueNull,
}

impl JsonEvent {
    /// Whether the event carries a scalar value (string, number, keyword).
    pub open spec fn is_scalar(self) -> bool {
        self is ValueString || self is ValueInt || self is ValueFloat || self is ValueTrue
            || self is ValueFalse || self is ValueNull
    }
}

} // verus!
