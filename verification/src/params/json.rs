//! JSON text as values.

use vstd::prelude::*;

use crate::params::floats::{FloatNumber, NumberView};
use crate::params::template::opt_number;

verus! {

/// A JSON number, read in the ways that it can be.
#[derive(Debug)]
pub struct JsonNumber {
    /// The number as a 64-bit integer, where it is one.
    pub int: Option<i64>,
    /// The number as a float, where it can be read as one.
    pub float: Option<FloatNumber>,
    /// The number as it is written.
    pub text: String,
}

/// What a contract reads of a JSON number.
pub struct JsonNumberView {
    pub int: Option<i64>,
    pub float: Option<NumberView>,
    pub text: Seq<char>,
}

impl View for JsonNumber {
    type V = JsonNumberView;

    open spec fn view(&self) -> JsonNumberView {
        JsonNumberView { int: self.int, float: opt_number(self.float), text: self.text@ }
    }
}

/// A JSON value. What an object holds is not kept: no parameter takes one.
#[derive(Debug)]
pub enum JsonValue {
    Null,
    Bool(bool),
    Number(JsonNumber),
    String(String),
    Array(Vec<JsonValue>),
    Object,
}

/// What a contract reads of a JSON value.
pub enum JsonView {
    Null,
    Bool(bool),
    Number(JsonNumberView),
    String(Seq<char>),
    Array(Seq<JsonView>),
    Object,
}

/// The values of a JSON list.
pub open spec fn json_views(v: Seq<JsonValue>) -> Seq<JsonView> {
    Seq::new(v.len(), |i: int| v[i]@)
}

impl View for JsonValue {
    type V = JsonView;

    open spec fn view(&self) -> JsonView
        decreases self,
    {
        match self {
            JsonValue::Null => JsonView::Null,
            JsonValue::Bool(b) => JsonView::Bool(*b),
            JsonValue::Number(n) => JsonView::Number(n@),
            JsonValue::String(s) => JsonView::String(s@),
            JsonValue::Array(v) => JsonView::Array(
                Seq::new(
                    v@.len(),
                    |i: int|
                        if 0 <= i < v@.len() {
                            v@[i].view()
                        } else {
                            JsonView::Null
                        },
                ),
            ),
            JsonValue::Object => JsonView::Object,
        }
    }
}

/// The view of a JSON list, element by element.
pub proof fn array_view(v: Vec<JsonValue>)
    ensures
        JsonValue::Array(v)@ == JsonView::Array(json_views(v@)),
{
    reveal_with_fuel(<JsonValue as View>::view, 2);
    assert(JsonValue::Array(v)@->Array_0 =~= json_views(v@));
}

/// `serde_json::Value`, a parsed JSON value.
#[verifier::external_type_specification]
#[verifier::external_body]
pub struct ExJsonValue(serde_json::Value);

/// `serde_json::Number`, a parsed JSON number.
#[verifier::external_type_specification]
#[verifier::external_body]
pub struct ExJsonNumber(serde_json::Number);

/// `serde_json::Error`, the reason why a text is no JSON.
#[verifier::external_type_specification]
#[verifier::external_body]
pub struct ExJsonError(serde_json::Error);

/// What a parsed JSON value holds.
pub uninterp spec fn value_contents(v: serde_json::Value) -> JsonView;

/// What a parsed JSON number holds.
pub uninterp spec fn number_contents(n: serde_json::Number) -> JsonNumberView;

/// The value that `serde_json::from_str` reads from a text, or none where it reads none.
pub uninterp spec fn json_text(s: Seq<char>) -> Option<JsonView>;

/// The outermost layer of a parsed JSON value.
enum JsonNode {
    Null,
    Bool(bool),
    Number(serde_json::Number),
    String(String),
    Array(Vec<serde_json::Value>),
    Object,
}

/// `serde_json::from_str`: reads a text as JSON. Which texts it reads, and as which value,
/// goes by the name `json_text`.
#[verifier::external_body]
fn read_value(s: &str) -> (r: Result<serde_json::Value, serde_json::Error>)
    ensures
        match json_text(s@) {
            Some(j) => r matches Ok(v) && value_contents(v) == j,
            None => r is Err,
        },
{
    serde_json::from_str(s)
}

/// The variants of `serde_json::Value`: a value is null, a boolean, a number, a string, a
/// list of values, or an object.
#[verifier::external_body]
fn value_node(v: serde_json::Value) -> (node: JsonNode)
    ensures
        value_contents(v) == match node {
            JsonNode::Null => JsonView::Null,
            JsonNode::Bool(b) => JsonView::Bool(b),
            JsonNode::Number(n) => JsonView::Number(number_contents(n)),
            JsonNode::String(s) => JsonView::String(s@),
            JsonNode::Array(a) => JsonView::Array(
                Seq::new(a@.len(), |i: int| value_contents(a@[i])),
            ),
            JsonNode::Object => JsonView::Object,
        },
{
    match v {
        serde_json::Value::Null => JsonNode::Null,
        serde_json::Value::Bool(b) => JsonNode::Bool(b),
        serde_json::Value::Number(n) => JsonNode::Number(n),
        serde_json::Value::String(s) => JsonNode::String(s),
        serde_json::Value::Array(a) => JsonNode::Array(a),
        serde_json::Value::Object(_) => JsonNode::Object,
    }
}

/// `serde_json::Number::as_i64`: the number as a 64-bit integer, where it is one.
#[verifier::external_body]
fn number_int(n: &serde_json::Number) -> (r: Option<i64>)
    ensures
        r == number_contents(*n).int,
{
    n.as_i64()
}

/// `serde_json::Number::as_f64`: the number as a float, given by its bits and its printed
/// text.
#[verifier::external_body]
fn number_float(n: &serde_json::Number) -> (r: Option<FloatNumber>)
    ensures
        opt_number(r) == number_contents(*n).float,
{
    n.as_f64().map(|f| FloatNumber { bits: f.to_bits(), shown: f.to_string() })
}

/// `serde_json::Number::to_string`: the number as it is written.
#[verifier::external_body]
fn number_text(n: &serde_json::Number) -> (s: String)
    ensures
        s@ == number_contents(*n).text,
{
    n.to_string()
}

/// A parsed JSON value as a value of this library.
fn convert(v: serde_json::Value) -> (r: JsonValue)
    ensures
        r@ == value_contents(v),
    decreases value_contents(v),
{
    match value_node(v) {
        JsonNode::Null => JsonValue::Null,
        JsonNode::Bool(b) => JsonValue::Bool(b),
        JsonNode::Number(n) => {
            let whole = number_int(&n);
            let float = number_float(&n);
            let text = number_text(&n);
            JsonValue::Number(JsonNumber { int: whole, float, text })
        },
        JsonNode::String(s) => JsonValue::String(s),
        JsonNode::Array(a) => {
            let ghost whole = value_contents(v);
            let ghost items = a@;
            let mut out: Vec<JsonValue> = Vec::new();
            for item in it: a
                invariant
                    it.seq() == items,
                    out.len() == it.index(),
                    whole == JsonView::Array(
                        Seq::new(items.len(), |i: int| value_contents(items[i])),
                    ),
                    whole == value_contents(v),
                    forall|k: int|
                        0 <= k < out.len() ==> (#[trigger] out@[k])@ == value_contents(items[k]),
            {
                assert(item == items[out.len() as int]);
                assert(decreases_to!(whole => whole->Array_0));
                assert(whole->Array_0[out.len() as int] == value_contents(item));
                assert(decreases_to!(whole->Array_0 => whole->Array_0[out.len() as int]));
                out.push(convert(item));
            }
            proof {
                array_view(out);
                assert(json_views(out@) =~= whole->Array_0);
            }
            JsonValue::Array(out)
        },
        JsonNode::Object => JsonValue::Object,
    }
}

/// Read a text as JSON.
pub fn parse_json(s: &str) -> (r: Option<JsonValue>)
    ensures
        match json_text(s@) {
            Some(j) => r matches Some(v) && v@ == j,
            None => r is None,
        },
{
    match read_value(s) {
        Ok(v) => Some(convert(v)),
        Err(_) => None,
    }
}

/// The JSON type of a value, for diagnostics.
pub open spec fn json_kind(j: JsonView) -> Seq<char> {
    match j {
        JsonView::Null => "null"@,
        JsonView::Bool(_) => "a boolean"@,
        JsonView::Number(_) => "a number"@,
        JsonView::String(_) => "a string"@,
        JsonView::Array(_) => "a list"@,
        JsonView::Object => "an object"@,
    }
}

/// The JSON type of a value, for diagnostics.
pub fn json_type_name(val: &JsonValue) -> (s: &'static str)
    ensures
        s@ == json_kind(val@),
{
    match val {
        JsonValue::Null => "null",
        JsonValue::Bool(_) => "a boolean",
        JsonValue::Number(_) => "a number",
        JsonValue::String(_) => "a string",
        JsonValue::Array(_) => "a list",
        JsonValue::Object => "an object",
    }
}

/// What a JSON value is called goes by its own form alone, and no two forms are called alike.
pub proof fn json_forms_are_called_differently(j: JsonView, k: JsonView)
    ensures
        json_kind(j) == json_kind(k) <==> (j is Null && k is Null) || (j is Bool && k is Bool) || (j
            is Number && k is Number) || (j is String && k is String) || (j is Array && k is Array)
            || (j is Object && k is Object),
        j is Null ==> json_kind(j) == "null"@,
        j is Bool ==> json_kind(j) == "a boolean"@,
        j is Number ==> json_kind(j) == "a number"@,
        j is String ==> json_kind(j) == "a string"@,
        j is Array ==> json_kind(j) == "a list"@,
        j is Object ==> json_kind(j) == "an object"@,
{
    reveal_strlit("null");
    reveal_strlit("a boolean");
    reveal_strlit("a number");
    reveal_strlit("a string");
    reveal_strlit("a list");
    reveal_strlit("an object");
    let a = json_kind(j);
    let b = json_kind(k);
    if a == b {
        assert(a.len() == b.len() && a[1] == b[1] && a[2] == b[2]);
    }
}

} // verus!
