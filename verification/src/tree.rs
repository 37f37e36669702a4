//! Building a tree of values from the events of a parser.
use crate::error::{InvalidStringValueError, ParserError};
use crate::event::JsonEvent;
use crate::feeder::{JsonFeeder, SliceJsonFeeder};
use crate::laws::{lemma_initial_wf, lemma_run_progress, lemma_run_result, lemma_run_wf};
use crate::machine::Machine;
use crate::options::DEFAULT_MAX_DEPTH;
use crate::parser::JsonParser;
use crate::value::{integer_text, InvalidIntValueError};
use vstd::prelude::*;
use vstd::utf8::{decode_utf8, encode_utf8, valid_utf8};

verus! {

/// A JSON value as a tree. A floating point number is kept as its text; the
/// members of an object are kept in the order of the text, each with its
/// name.
#[derive(Debug, PartialEq, Eq)]
pub enum JsonValue {
    /// `null`
    Null,
    /// `true` or `false`
    Bool(bool),
    /// A number without fraction and exponent.
    Int(i64),
    /// A number with a fraction or an exponent, as it is written.
    Float(String),
    /// A string.
    String(String),
    /// An array and its elements.
    Array(Vec<JsonValue>),
    /// An object and its members.
    Object(Vec<(String, JsonValue)>),
}

/// The mathematical model of a [`JsonValue`].
pub ghost enum Tree {
    /// `null`
    Null,
    /// `true` or `false`
    Bool(bool),
    /// A number without fraction and exponent.
    Int(int),
    /// A number with a fraction or an exponent, as it is written.
    Float(Seq<char>),
    /// A string.
    String(Seq<char>),
    /// An array and its elements.
    Array(Seq<Tree>),
    /// An object and its members.
    Object(Seq<(Seq<char>, Tree)>),
}

impl View for JsonValue {
    type V = Tree;

    open spec fn view(&self) -> Tree
        decreases self,
    {
        match self {
            JsonValue::Null => Tree::Null,
            JsonValue::Bool(b) => Tree::Bool(*b),
            JsonValue::Int(i) => Tree::Int(*i as int),
            JsonValue::Float(s) => Tree::Float(s@),
            JsonValue::String(s) => Tree::String(s@),
            JsonValue::Array(items) => Tree::Array(items_model(items@)),
            JsonValue::Object(members) => Tree::Object(members_model(members@)),
        }
    }
}

/// The models of the elements of an array, in order.
pub open spec fn items_model(items: Seq<JsonValue>) -> Seq<Tree>
    decreases items,
{
    if items.len() == 0 {
        Seq::empty()
    } else {
        items_model(items.drop_last()).push(items.last()@)
    }
}

/// The models of the members of an object, in order.
pub open spec fn members_model(members: Seq<(String, JsonValue)>) -> Seq<(Seq<char>, Tree)>
    decreases members,
{
    if members.len() == 0 {
        Seq::empty()
    } else {
        members_model(members.drop_last()).push((members.last().0@, members.last().1@))
    }
}

/// The kinds of errors that building a tree can end with.
#[derive(Clone, Copy, Debug, PartialEq, Eq, Structural)]
pub enum IntoValueErrorKind {
    /// The parser failed.
    Parse(ParserError),
    /// A field name or a string is not valid UTF-8.
    InvalidStringValue,
    /// An integer does not fit in an `i64`.
    InvalidIntValue,
    /// The text of a floating point number is not valid UTF-8.
    InvalidFloatValue,
}

/// An error that can happen when parsing JSON into a [`JsonValue`].
#[derive(Debug)]
pub enum IntoValueError {
    /// The parser failed.
    Parse(ParserError),
    /// A field name or a string is not valid UTF-8.
    InvalidStringValue(InvalidStringValueError),
    /// An integer does not fit in an `i64`.
    InvalidIntValue(InvalidIntValueError),
    /// The text of a floating point number is not valid UTF-8.
    InvalidFloatValue(InvalidStringValueError),
}

impl IntoValueError {
    /// The kind of the error.
    pub open spec fn kind(&self) -> IntoValueErrorKind {
        match self {
            IntoValueError::Parse(e) => IntoValueErrorKind::Parse(*e),
            IntoValueError::InvalidStringValue(_) => IntoValueErrorKind::InvalidStringValue,
            IntoValueError::InvalidIntValue(_) => IntoValueErrorKind::InvalidIntValue,
            IntoValueError::InvalidFloatValue(_) => IntoValueErrorKind::InvalidFloatValue,
        }
    }
}

/// A structure that is being built, with the name under which it will be
/// put into the object around it.
pub ghost struct Frame {
    /// The name of the structure, if it is a member of an object.
    pub key: Option<Seq<char>>,
    /// The structure as far as it has been built.
    pub value: Tree,
}

/// The state of building a tree.
pub ghost struct Builder {
    /// The structures that are open, innermost last.
    pub stack: Seq<Frame>,
    /// The top-level value, once it is complete.
    pub result: Option<Tree>,
    /// The field name that has been read last and not been used yet.
    pub key: Option<Seq<char>>,
}

/// Put a complete value into the structure around it: into an object under
/// the given name, which must be there; into an array at the end.
pub open spec fn attach(container: Tree, key: Option<Seq<char>>, v: Tree) -> Option<Tree> {
    match container {
        Tree::Object(members) => match key {
            Some(k) => Some(Tree::Object(members.push((k, v)))),
            None => None,
        },
        Tree::Array(items) => Some(Tree::Array(items.push(v))),
        _ => None,
    }
}

/// The value of a scalar event whose text is `text`.
pub open spec fn scalar_value(e: JsonEvent, text: Seq<u8>) -> Result<Tree, IntoValueErrorKind> {
    match e {
        JsonEvent::ValueString => if valid_utf8(text) {
            Ok(Tree::String(decode_utf8(text)))
        } else {
            Err(IntoValueErrorKind::InvalidStringValue)
        },
        JsonEvent::ValueInt => match integer_text(text) {
            Some(v) => if i64::MIN <= v <= i64::MAX {
                Ok(Tree::Int(v))
            } else {
                Err(IntoValueErrorKind::InvalidIntValue)
            },
            None => Err(IntoValueErrorKind::InvalidIntValue),
        },
        JsonEvent::ValueFloat => if valid_utf8(text) {
            Ok(Tree::Float(decode_utf8(text)))
        } else {
            Err(IntoValueErrorKind::InvalidFloatValue)
        },
        JsonEvent::ValueTrue => Ok(Tree::Bool(true)),
        JsonEvent::ValueFalse => Ok(Tree::Bool(false)),
        _ => Ok(Tree::Null),
    }
}

impl Builder {
    /// The state in which nothing has been built.
    pub open spec fn empty() -> Builder {
        Builder { stack: Seq::empty(), result: None, key: None }
    }

    /// Open a structure.
    pub open spec fn open(self, value: Tree) -> Builder {
        Builder { stack: self.stack.push(Frame { key: self.key, value }), key: None, ..self }
    }

    /// Close the innermost structure and put it into the structure around
    /// it; the outermost structure is the result.
    pub open spec fn close(self) -> Result<Builder, IntoValueErrorKind> {
        if self.stack.len() == 0 {
            Err(IntoValueErrorKind::Parse(ParserError::SyntaxError))
        } else {
            let done = self.stack.last();
            let below = self.stack.drop_last();
            if below.len() == 0 {
                Ok(Builder { stack: below, result: Some(done.value), ..self })
            } else {
                match attach(below.last().value, done.key, done.value) {
                    Some(t) => Ok(
                        Builder {
                            stack: below.drop_last().push(Frame { key: below.last().key, value: t }),
                            ..self
                        },
                    ),
                    None => Err(IntoValueErrorKind::Parse(ParserError::SyntaxError)),
                }
            }
        }
    }

    /// Take in a scalar: into the innermost structure, under the field
    /// name read last if that structure is an object; as the result if no
    /// structure is open and there is no result yet.
    pub open spec fn scalar(self, e: JsonEvent, text: Seq<u8>) -> Result<
        Builder,
        IntoValueErrorKind,
    > {
        if self.stack.len() > 0 {
            match scalar_value(e, text) {
                Err(k) => Err(k),
                Ok(v) => match attach(self.stack.last().value, self.key, v) {
                    Some(t) => Ok(
                        Builder {
                            stack: self.stack.drop_last().push(
                                Frame { key: self.stack.last().key, value: t },
                            ),
                            key: if self.stack.last().value is Object {
                                None
                            } else {
                                self.key
                            },
                            ..self
                        },
                    ),
                    None => Err(IntoValueErrorKind::Parse(ParserError::SyntaxError)),
                },
            }
        } else if self.result is None {
            match scalar_value(e, text) {
                Err(k) => Err(k),
                Ok(v) => Ok(Builder { result: Some(v), ..self }),
            }
        } else {
            Err(IntoValueErrorKind::Parse(ParserError::SyntaxError))
        }
    }

    /// Take in an event whose text, if it has one, is `text`.
    pub open spec fn step(self, e: JsonEvent, text: Seq<u8>) -> Result<
        Builder,
        IntoValueErrorKind,
    > {
        match e {
            JsonEvent::NeedMoreInput => Ok(self),
            JsonEvent::StartObject => Ok(self.open(Tree::Object(Seq::empty()))),
            JsonEvent::StartArray => Ok(self.open(Tree::Array(Seq::empty()))),
            JsonEvent::EndObject | JsonEvent::EndArray => self.close(),
            JsonEvent::FieldName => if valid_utf8(text) {
                Ok(Builder { key: Some(decode_utf8(text)), ..self })
            } else {
                Err(IntoValueErrorKind::InvalidStringValue)
            },
            _ => self.scalar(e, text),
        }
    }
}

/// What comes of building a tree from the events of a parser in the state
/// `m`, whose feeder offers `input` and is done after that, when `b` has
/// been built so far: the result at the end of the text, if there is one;
/// the first error of the parser or of taking in an event; `NoMoreInput` if
/// the text ends before any value is complete.
pub open spec fn build(m: Machine, input: Seq<u8>, b: Builder) -> Result<Tree, IntoValueErrorKind>
    decreases m.weight(input),
    when m.wf()
    via build_decreases
{
    let o = m.run(input, true);
    match o.result {
        Err(e) => Err(IntoValueErrorKind::Parse(e)),
        Ok(None) => match b.result {
            Some(t) => Ok(t),
            None => Err(IntoValueErrorKind::Parse(ParserError::NoMoreInput)),
        },
        Ok(Some(e)) => if e is NeedMoreInput {
            Err(IntoValueErrorKind::Parse(ParserError::NoMoreInput))
        } else {
            match b.step(e, o.machine.buffer) {
                Err(k) => Err(k),
                Ok(next) => build(o.machine, o.rest, next),
            }
        },
    }
}

#[via_fn]
proof fn build_decreases(m: Machine, input: Seq<u8>, b: Builder) {
    lemma_run_progress(m, input, true);
}

/// The tree of the JSON text `input`, as a parser with the default options
/// reads it.
pub open spec fn tree_of(input: Seq<u8>) -> Result<Tree, IntoValueErrorKind> {
    build(Machine::initial(DEFAULT_MAX_DEPTH as nat, false), input, Builder::empty())
}

/// The model of a field name that may be missing.
pub open spec fn key_model(key: Option<String>) -> Option<Seq<char>> {
    match key {
        Some(k) => Some(k@),
        None => None,
    }
}

/// The model of a value that may be missing.
pub open spec fn value_model(value: Option<JsonValue>) -> Option<Tree> {
    match value {
        Some(v) => Some(v@),
        None => None,
    }
}

/// The structures that are being built, the top-level value once it is
/// complete, and the field name that has been read last.
struct TreeBuilder {
    stack: Vec<(Option<String>, JsonValue)>,
    result: Option<JsonValue>,
    current_key: Option<String>,
}

impl View for TreeBuilder {
    type V = Builder;

    closed spec fn view(&self) -> Builder {
        Builder {
            stack: Seq::new(
                self.stack@.len(),
                |i: int|
                    Frame { key: key_model(self.stack@[i].0), value: self.stack@[i].1@ },
            ),
            result: value_model(self.result),
            key: key_model(self.current_key),
        }
    }
}

/// Put a complete value into the structure around it.
fn attach_value(container: JsonValue, key: Option<String>, v: JsonValue) -> (r: Option<JsonValue>)
    ensures
        value_model(r) == attach(container@, key_model(key), v@),
{
    match container {
        JsonValue::Object(members) => match key {
            Some(k) => {
                let ghost before = members@;
                let mut members = members;
                members.push((k, v));
                assert(members@.drop_last() =~= before);
                Some(JsonValue::Object(members))
            },
            None => None,
        },
        JsonValue::Array(items) => {
            let ghost before = items@;
            let mut items = items;
            items.push(v);
            assert(items@.drop_last() =~= before);
            Some(JsonValue::Array(items))
        },
        _ => None,
    }
}

/// The current value of the parser as a string of its own.
fn current_string<T: JsonFeeder>(parser: &JsonParser<T>) -> (r: Result<
    String,
    InvalidStringValueError,
>)
    ensures
        r is Ok <==> valid_utf8(parser@.buffer),
        r matches Ok(s) ==> s@ == decode_utf8(parser@.buffer),
{
    match parser.current_str() {
        Ok(s) => {
            proof {
                vstd::utf8::encode_utf8_decode_utf8(s@);
            }
            Ok(s.to_owned())
        },
        Err(e) => Err(e),
    }
}

/// Convert the scalar that the parser has just read to a value.
fn to_value<T: JsonFeeder>(event: JsonEvent, parser: &JsonParser<T>) -> (r: Result<
    JsonValue,
    IntoValueError,
>)
    ensures
        match scalar_value(event, parser@.buffer) {
            Ok(t) => r matches Ok(v) && v@ == t,
            Err(k) => r matches Err(e) && e.kind() == k,
        },
{
    match event {
        JsonEvent::ValueString => match current_string(parser) {
            Ok(s) => Ok(JsonValue::String(s)),
            Err(e) => Err(IntoValueError::InvalidStringValue(e)),
        },
        JsonEvent::ValueInt => match parser.current_int() {
            Ok(i) => Ok(JsonValue::Int(i)),
            Err(e) => Err(IntoValueError::InvalidIntValue(e)),
        },
        JsonEvent::ValueFloat => match current_string(parser) {
            Ok(s) => Ok(JsonValue::Float(s)),
            Err(e) => Err(IntoValueError::InvalidFloatValue(e)),
        },
        JsonEvent::ValueTrue => Ok(JsonValue::Bool(true)),
        JsonEvent::ValueFalse => Ok(JsonValue::Bool(false)),
        _ => Ok(JsonValue::Null),
    }
}

impl TreeBuilder {
    fn new() -> (r: Self)
        ensures
            r@ == Builder::empty(),
    {
        let r = TreeBuilder { stack: Vec::new(), result: None, current_key: None };
        assert(r@.stack =~= Seq::empty());
        r
    }

    /// Open a structure.
    fn open(self, value: JsonValue) -> (r: Self)
        ensures
            r@ == self@.open(value@),
    {
        let ghost before = self@;
        let TreeBuilder { stack, result, current_key } = self;
        let mut stack = stack;
        stack.push((current_key, value));
        let r = TreeBuilder { stack, result, current_key: None };
        assert(r@.stack =~= before.stack.push(Frame { key: before.key, value: value@ }));
        r
    }

    /// Close the innermost structure.
    fn close(self) -> (r: Result<Self, IntoValueError>)
        ensures
            match self@.close() {
                Ok(b) => r matches Ok(next) && next@ == b,
                Err(k) => r matches Err(e) && e.kind() == k,
            },
    {
        let ghost before = self@;
        let TreeBuilder { stack, result, current_key } = self;
        let mut stack = stack;
        match stack.pop() {
            None => Err(IntoValueError::Parse(ParserError::SyntaxError)),
            Some(done) => {
                let (key, value) = done;
                match stack.pop() {
                    None => {
                        let r = TreeBuilder { stack, result: Some(value), current_key };
                        assert(r@.stack =~= before.stack.drop_last());
                        Ok(r)
                    },
                    Some(around) => {
                        let (outer_key, container) = around;
                        match attach_value(container, key, value) {
                            Some(t) => {
                                let ghost frame = Frame { key: key_model(outer_key), value: t@ };
                                stack.push((outer_key, t));
                                let r = TreeBuilder { stack, result, current_key };
                                assert(r@.stack =~= before.stack.drop_last().drop_last().push(
                                    frame,
                                ));
                                Ok(r)
                            },
                            None => Err(IntoValueError::Parse(ParserError::SyntaxError)),
                        }
                    },
                }
            },
        }
    }

    /// Take in the scalar that the parser has just read.
    fn scalar<T: JsonFeeder>(self, event: JsonEvent, parser: &JsonParser<T>) -> (r: Result<
        Self,
        IntoValueError,
    >)
        ensures
            match self@.scalar(event, parser@.buffer) {
                Ok(b) => r matches Ok(next) && next@ == b,
                Err(k) => r matches Err(e) && e.kind() == k,
            },
    {
        let ghost before = self@;
        let TreeBuilder { stack, result, current_key } = self;
        let mut stack = stack;
        match stack.pop() {
            Some(top) => {
                let v = match to_value(event, parser) {
                    Ok(v) => v,
                    Err(e) => {
                        return Err(e);
                    },
                };
                let (outer_key, container) = top;
                let in_object = matches!(container, JsonValue::Object(_));
                let (key, kept) = if in_object {
                    (current_key, None)
                } else {
                    (None, current_key)
                };
                match attach_value(container, key, v) {
                    Some(t) => {
                        let ghost frame = Frame { key: key_model(outer_key), value: t@ };
                        stack.push((outer_key, t));
                        let r = TreeBuilder { stack, result, current_key: kept };
                        assert(r@.stack =~= before.stack.drop_last().push(frame));
                        Ok(r)
                    },
                    None => Err(IntoValueError::Parse(ParserError::SyntaxError)),
                }
            },
            None => {
                assert(before.stack.len() == 0);
                if result.is_none() {
                    match to_value(event, parser) {
                        Ok(v) => {
                            let r = TreeBuilder { stack, result: Some(v), current_key };
                            assert(r@.stack =~= before.stack);
                            Ok(r)
                        },
                        Err(e) => Err(e),
                    }
                } else {
                    Err(IntoValueError::Parse(ParserError::SyntaxError))
                }
            },
        }
    }

    /// Take in the event that the parser has just returned.
    fn step<T: JsonFeeder>(self, event: JsonEvent, parser: &JsonParser<T>) -> (r: Result<
        Self,
        IntoValueError,
    >)
        ensures
            match self@.step(event, parser@.buffer) {
                Ok(b) => r matches Ok(next) && next@ == b,
                Err(k) => r matches Err(e) && e.kind() == k,
            },
    {
        match event {
            JsonEvent::NeedMoreInput => Ok(self),
            JsonEvent::StartObject => {
                let value = JsonValue::Object(Vec::new());
                Ok(self.open(value))
            },
            JsonEvent::StartArray => {
                let value = JsonValue::Array(Vec::new());
                Ok(self.open(value))
            },
            JsonEvent::EndObject | JsonEvent::EndArray => self.close(),
            JsonEvent::FieldName => match current_string(parser) {
                Ok(s) => {
                    let ghost before = self@;
                    let TreeBuilder { stack, result, current_key } = self;
                    let r = TreeBuilder { stack, result, current_key: Some(s) };
                    assert(r@.stack =~= before.stack);
                    Ok(r)
                },
                Err(e) => Err(IntoValueError::InvalidStringValue(e)),
            },
            _ => self.scalar(event, parser),
        }
    }
}

/// Parse a byte slice into a [`JsonValue`]. It returns the value of the
/// JSON text, the first error of the parser or of reading a value, and
/// `NoMoreInput` if the text ends before any value is complete.
pub fn from_slice(v: &[u8]) -> (r: Result<JsonValue, IntoValueError>)
    ensures
        match tree_of(v@) {
            Ok(t) => r matches Ok(value) && value@ == t,
            Err(k) => r matches Err(e) && e.kind() == k,
        },
{
    let feeder = SliceJsonFeeder::new(v);
    let mut parser = JsonParser::new(feeder);
    let mut builder = TreeBuilder::new();
    let ghost n = v.len();
    proof {
        lemma_initial_wf(DEFAULT_MAX_DEPTH as nat, false);
    }
    loop
        invariant
            parser@.wf(),
            parser.feeder.closed(),
            parser@.taken_in() + parser.feeder.pending().len() <= usize::MAX,
            build(parser@, parser.feeder.pending(), builder@) == tree_of(v@),
        decreases parser@.weight(parser.feeder.pending()),
    {
        proof {
            lemma_run_wf(parser@, parser.feeder.pending(), true);
            lemma_run_result(parser@, parser.feeder.pending(), true);
            lemma_run_progress(parser@, parser.feeder.pending(), true);
        }
        match parser.next_event() {
            Err(e) => {
                return Err(IntoValueError::Parse(e));
            },
            Ok(None) => {
                let TreeBuilder { stack, result, current_key } = builder;
                return match result {
                    Some(value) => Ok(value),
                    None => Err(IntoValueError::Parse(ParserError::NoMoreInput)),
                };
            },
            Ok(Some(event)) => {
                builder = match builder.step(event, &parser) {
                    Ok(next) => next,
                    Err(e) => {
                        return Err(e);
                    },
                };
            },
        }
    }
}

} // verus!
