//! Bringing values to the type that a parameter declares.

use vstd::prelude::*;

use crate::params::floats::{
    equal, finite_bits, float_eq, integer_value, is_finite, to_i64, Float64, FloatView, ONE_BITS,
};
use crate::params::json::{
    array_view, json_kind, json_text, json_type_name, json_views, parse_json, JsonNumberView,
    JsonValue, JsonView,
};
use crate::params::readings::Readings;
use crate::params::values::{
    element_type, float_views, list_element_type, list_list_view, matches_type, value_kind_name,
    value_matches_type, value_views, ExprValue, JobParameterType, RangeExpr, ValueView,
};
use crate::text::{
    chars_of, decimal_text_is_read_back, digits_count_by_tens, i64_text, int_text,
    integer_literals_are_signed_digits, is_i64_literal, literal_value, parse_i64,
    signs_turn_a_number, texts,
};

verus! {

/// The type of an expression, as far as lists of it are concerned.
#[derive(Debug, Clone, Copy, PartialEq, Eq, Structural)]
pub enum ExprType {
    NullType,
    Bool,
    Int,
    Float,
    String,
    Path,
    RangeExpr,
    ListBool,
    ListInt,
    ListFloat,
    ListString,
    ListPath,
    ListListInt,
}

impl JobParameterType {
    /// The type of the expressions that a declared type stands for.
    pub open spec fn spec_expr_type(self) -> ExprType {
        match self {
            JobParameterType::String => ExprType::String,
            JobParameterType::Int => ExprType::Int,
            JobParameterType::Float => ExprType::Float,
            JobParameterType::Path => ExprType::Path,
            JobParameterType::Bool => ExprType::Bool,
            JobParameterType::RangeExpr => ExprType::RangeExpr,
            JobParameterType::ListString => ExprType::ListString,
            JobParameterType::ListPath => ExprType::ListPath,
            JobParameterType::ListInt => ExprType::ListInt,
            JobParameterType::ListFloat => ExprType::ListFloat,
            JobParameterType::ListBool => ExprType::ListBool,
            JobParameterType::ListListInt => ExprType::ListListInt,
        }
    }

    /// The type of the expressions that a declared type stands for.
    pub fn expr_type(self) -> (t: ExprType)
        ensures
            t == self.spec_expr_type(),
    {
        match self {
            JobParameterType::String => ExprType::String,
            JobParameterType::Int => ExprType::Int,
            JobParameterType::Float => ExprType::Float,
            JobParameterType::Path => ExprType::Path,
            JobParameterType::Bool => ExprType::Bool,
            JobParameterType::RangeExpr => ExprType::RangeExpr,
            JobParameterType::ListString => ExprType::ListString,
            JobParameterType::ListPath => ExprType::ListPath,
            JobParameterType::ListInt => ExprType::ListInt,
            JobParameterType::ListFloat => ExprType::ListFloat,
            JobParameterType::ListBool => ExprType::ListBool,
            JobParameterType::ListListInt => ExprType::ListListInt,
        }
    }
}

/// The type of the values that coercion to a declared type produces: a path is held as a
/// string.
pub open spec fn representation(t: JobParameterType) -> ExprType {
    if t == JobParameterType::Path {
        ExprType::String
    } else {
        t.spec_expr_type()
    }
}

/// The type of the values that coercion to a declared type produces.
pub fn representation_expr_type(param_type: JobParameterType) -> (t: ExprType)
    ensures
        t == representation(param_type),
{
    match param_type {
        JobParameterType::Path => ExprType::String,
        other => other.expr_type(),
    }
}

/// An ASCII letter in lower case, and any other character as it is.
pub open spec fn lower_char(c: char) -> char {
    if 'A' <= c <= 'Z' {
        (c as int + 32) as char
    } else {
        c
    }
}

/// A text with its ASCII letters in lower case.
pub open spec fn lower(s: Seq<char>) -> Seq<char> {
    Seq::new(s.len(), |i: int| lower_char(s[i]))
}

/// The boolean that a word stands for, whatever the case of its letters.
///
/// No other character has one of these letters as its lower case, so ASCII letters are all
/// that needs folding.
pub open spec fn bool_word(s: Seq<char>) -> Option<bool> {
    let w = lower(s);
    if w == "true"@ || w == "yes"@ || w == "on"@ || w == "1"@ {
        Some(true)
    } else if w == "false"@ || w == "no"@ || w == "off"@ || w == "0"@ {
        Some(false)
    } else {
        None
    }
}

/// Whether a text is a word but for the case of its letters.
fn is_word(s: &Vec<char>, word: &str) -> (r: bool)
    ensures
        r == (lower(s@) == word@),
{
    let w = chars_of(word);
    if s.len() != w.len() {
        return false;
    }
    let mut i: usize = 0;
    while i < s.len()
        invariant
            i <= s.len() == w.len(),
            w@ == word@,
            forall|k: int| 0 <= k < i ==> lower_char(s@[k]) == w@[k],
        decreases s.len() - i,
    {
        let c: char = s[i];
        let d: char = w[i];
        let same: bool = if 'A' <= c && c <= 'Z' {
            'a' <= d && d <= 'z' && c as u32 + 32 == d as u32
        } else {
            c == d
        };
        assert(same == (lower_char(c) == w@[i as int]));
        if !same {
            assert(lower(s@)[i as int] != word@[i as int]);
            return false;
        }
        i += 1;
    }
    assert(lower(s@) =~= word@);
    true
}

/// The boolean that a word stands for.
fn read_bool(s: &str) -> (r: Option<bool>)
    ensures
        r == bool_word(s@),
{
    let c = chars_of(s);
    if is_word(&c, "true") || is_word(&c, "yes") || is_word(&c, "on") || is_word(&c, "1") {
        Some(true)
    } else if is_word(&c, "false") || is_word(&c, "no") || is_word(&c, "off") || is_word(&c, "0") {
        Some(false)
    } else {
        None
    }
}

/// A text brought to a scalar type.
pub open spec fn coerced_scalar_text(
    s: Seq<char>,
    t: JobParameterType,
    r: Readings,
) -> Result<ValueView, Seq<char>> {
    match t {
        JobParameterType::Int => if is_i64_literal(s) {
            Ok(ValueView::Int(literal_value(s) as i64))
        } else {
            Err("Value '"@ + s + "' is not a valid integer or integer string."@)
        },
        JobParameterType::Float => if r.literal(s) matches Some(n) && is_finite(n.bits) {
            Ok(ValueView::Float(FloatView { number: r.literal(s)->0, text: s }))
        } else {
            Err("Value '"@ + s + "' is not a valid float."@)
        },
        JobParameterType::Bool => match bool_word(s) {
            Some(b) => Ok(ValueView::Bool(b)),
            None => Err(
                "Value '"@ + s
                    + "' is not a valid boolean. Accepted: true/false, 1/0, yes/no, on/off."@,
            ),
        },
        JobParameterType::RangeExpr => match r.range_refusal(s) {
            None => Ok(ValueView::RangeExpr(s)),
            Some(reason) => Err(
                "Value '"@ + s + "' is not a valid range expression: "@ + reason,
            ),
        },
        _ => Ok(ValueView::String(s)),
    }
}

/// What the number in a value decides before its text is looked at.
pub open spec fn coerced_directly(
    v: ValueView,
    t: JobParameterType,
    r: Readings,
) -> Option<Result<ValueView, Seq<char>>> {
    if matches_type(v, t) {
        Some(Ok(v))
    } else {
        match (v, t) {
            (ValueView::Int(i), JobParameterType::Float) => Some(
                if r.integer(i) matches Some(f) && is_finite(f.number.bits) {
                    Ok(ValueView::Float(r.integer(i)->0))
                } else {
                    Err(
                        "Cannot represent integer "@ + int_text(i as int)
                            + " as a finite float"@,
                    )
                },
            ),
            (ValueView::Float(f), JobParameterType::Int) => if integer_value(f.number.bits)
                matches Some(n) && i64::MIN <= n <= i64::MAX {
                Some(Ok(ValueView::Int(integer_value(f.number.bits)->0 as i64)))
            } else {
                None
            },
            (ValueView::Int(i), JobParameterType::Bool) => if i == 0 || i == 1 {
                Some(Ok(ValueView::Bool(i == 1)))
            } else {
                None
            },
            (ValueView::Float(f), JobParameterType::Bool) => if float_eq(f.number.bits, 0)
                || float_eq(f.number.bits, ONE_BITS) {
                Some(Ok(ValueView::Bool(float_eq(f.number.bits, ONE_BITS))))
            } else {
                None
            },
            _ => None,
        }
    }
}

/// The text that a scalar value is coerced by.
pub open spec fn text_form(v: ValueView) -> Option<Seq<char>> {
    match v {
        ValueView::String(s) => Some(s),
        ValueView::Int(i) => Some(int_text(i as int)),
        ValueView::Float(f) => Some(f.text),
        ValueView::Bool(b) => Some(
            if b {
                "true"@
            } else {
                "false"@
            },
        ),
        _ => None,
    }
}

/// The refusal of a value that has no text to coerce by.
pub open spec fn cannot_coerce(v: ValueView, t: JobParameterType) -> Seq<char> {
    "Cannot coerce "@ + value_kind_name(v) + " to "@ + t.spec_str()
}

/// A value brought to a scalar type.
pub open spec fn coerced_scalar(
    v: ValueView,
    t: JobParameterType,
    r: Readings,
) -> Result<ValueView, Seq<char>> {
    match coerced_directly(v, t, r) {
        Some(x) => x,
        None => match text_form(v) {
            Some(s) => coerced_scalar_text(s, t, r),
            None => Err(cannot_coerce(v, t)),
        },
    }
}

/// Whether every value of a list is of one form.
pub open spec fn all_bool(s: Seq<ValueView>) -> bool {
    forall|i: int| 0 <= i < s.len() ==> (#[trigger] s[i]) is Bool
}

pub open spec fn all_int(s: Seq<ValueView>) -> bool {
    forall|i: int| 0 <= i < s.len() ==> (#[trigger] s[i]) is Int
}

pub open spec fn all_float(s: Seq<ValueView>) -> bool {
    forall|i: int| 0 <= i < s.len() ==> (#[trigger] s[i]) is Float
}

pub open spec fn all_string(s: Seq<ValueView>) -> bool {
    forall|i: int| 0 <= i < s.len() ==> (#[trigger] s[i]) is String
}

pub open spec fn all_path(s: Seq<ValueView>) -> bool {
    forall|i: int| 0 <= i < s.len() ==> (#[trigger] s[i]) is Path
}

/// Whether a value is a list.
pub open spec fn is_list(v: ValueView) -> bool {
    v is ListBool || v is ListInt || v is ListFloat || v is ListString || v is ListPath
        || v is ListList
}

pub open spec fn all_list(s: Seq<ValueView>) -> bool {
    forall|i: int| 0 <= i < s.len() ==> is_list(#[trigger] s[i])
}

/// The list without elements of a given element type.
pub open spec fn empty_list(hint: ExprType) -> ValueView {
    match hint {
        ExprType::Bool => ValueView::ListBool(Seq::empty()),
        ExprType::Int => ValueView::ListInt(Seq::empty()),
        ExprType::Float => ValueView::ListFloat(Seq::empty()),
        ExprType::String => ValueView::ListString(Seq::empty()),
        ExprType::Path => ValueView::ListPath(Seq::empty()),
        _ => ValueView::ListList(Seq::empty()),
    }
}

/// The list of some values: its form goes by the values, or by the hint where there are none.
pub open spec fn list_of(s: Seq<ValueView>, hint: ExprType) -> Result<ValueView, Seq<char>> {
    if s.len() == 0 {
        Ok(empty_list(hint))
    } else if all_bool(s) {
        Ok(ValueView::ListBool(Seq::new(s.len(), |i: int| s[i]->Bool_0)))
    } else if all_int(s) {
        Ok(ValueView::ListInt(Seq::new(s.len(), |i: int| s[i]->Int_0)))
    } else if all_float(s) {
        Ok(ValueView::ListFloat(Seq::new(s.len(), |i: int| s[i]->Float_0)))
    } else if all_string(s) {
        Ok(ValueView::ListString(Seq::new(s.len(), |i: int| s[i]->String_0)))
    } else if all_path(s) {
        Ok(ValueView::ListPath(Seq::new(s.len(), |i: int| s[i]->Path_0)))
    } else if all_list(s) {
        Ok(ValueView::ListList(s))
    } else {
        Err("list elements are not all of one type"@)
    }
}

/// The list of the values found, or the error met while finding them.
pub open spec fn list_of_found(
    found: Result<Seq<ValueView>, Seq<char>>,
    hint: ExprType,
) -> Result<ValueView, Seq<char>> {
    match found {
        Ok(v) => match list_of(v, hint) {
            Ok(l) => Ok(l),
            Err(e) => Err("Invalid list value: "@ + e),
        },
        Err(e) => Err(e),
    }
}

/// The values found so far with one more, or the first error.
pub open spec fn and_found(
    found: Result<Seq<ValueView>, Seq<char>>,
    next: Result<ValueView, Seq<char>>,
) -> Result<Seq<ValueView>, Seq<char>> {
    match found {
        Ok(v) => match next {
            Ok(x) => Ok(v.push(x)),
            Err(e) => Err(e),
        },
        Err(e) => Err(e),
    }
}

/// A JSON value as the value that its own form says.
pub open spec fn json_value(j: JsonView, r: Readings) -> Result<ValueView, Seq<char>>
    decreases j,
{
    match j {
        JsonView::Null => Err(
            "Unexpected null in parameter value. List elements must be strings, integers, floats, or booleans."@,
        ),
        JsonView::Bool(b) => Ok(ValueView::Bool(b)),
        JsonView::Number(n) => match n.int {
            Some(i) => Ok(ValueView::Int(i)),
            None => match n.float {
                Some(f) => if is_finite(f.bits) {
                    Ok(ValueView::Float(FloatView { number: f, text: r.float_text(f) }))
                } else {
                    Err("Float value "@ + f.shown + " is not finite"@)
                },
                None => Ok(ValueView::String(n.text)),
            },
        },
        JsonView::String(s) => Ok(ValueView::String(s)),
        JsonView::Array(a) => list_of_found(json_items(a, r), ExprType::NullType),
        JsonView::Object => Err(
            "Unexpected JSON object in parameter value. List elements must be strings, integers, floats, or booleans."@,
        ),
    }
}

/// The values of a JSON list, or the first error among them.
pub open spec fn json_items(a: Seq<JsonView>, r: Readings) -> Result<Seq<ValueView>, Seq<char>>
    decreases a,
{
    if a.len() == 0 {
        Ok(Seq::empty())
    } else {
        and_found(json_items(a.drop_last(), r), json_value(a.last(), r))
    }
}

/// How deep lists nest in a declared type.
pub open spec fn depth(t: JobParameterType) -> nat {
    match t {
        JobParameterType::ListListInt => 2,
        JobParameterType::ListString
        | JobParameterType::ListPath
        | JobParameterType::ListInt
        | JobParameterType::ListFloat
        | JobParameterType::ListBool => 1,
        _ => 0,
    }
}

/// A JSON value brought to a declared type, list elements to the type of the elements.
pub open spec fn coerced_json(
    j: JsonView,
    t: JobParameterType,
    r: Readings,
) -> Result<ValueView, Seq<char>>
    decreases depth(t), 0nat,
{
    match element_type(t) {
        Some(e) => match j {
            JsonView::Array(a) => list_of_found(coerced_items(a, e, r), representation(e)),
            _ => Err(
                "Value is not a list for parameter type "@ + t.spec_str() + ". Got "@
                    + json_kind(j) + "."@,
            ),
        },
        None => match json_value(j, r) {
            Ok(v) => coerced_scalar(v, t, r),
            Err(e) => Err(e),
        },
    }
}

/// The elements of a JSON list brought to an element type, or the first error among them.
pub open spec fn coerced_items(
    a: Seq<JsonView>,
    e: JobParameterType,
    r: Readings,
) -> Result<Seq<ValueView>, Seq<char>>
    decreases depth(e), a.len(),
{
    if a.len() == 0 {
        Ok(Seq::empty())
    } else {
        and_found(coerced_items(a.drop_last(), e, r), coerced_json(a.last(), e, r))
    }
}

/// A text brought to a declared type. For a list type it is read as JSON.
pub open spec fn coerced_text(
    s: Seq<char>,
    t: JobParameterType,
    r: Readings,
) -> Result<ValueView, Seq<char>> {
    if element_type(t) is Some {
        match json_text(s) {
            Some(j) => coerced_json(j, t, r),
            None => Err("Value '"@ + s + "' is not valid JSON for a list parameter."@),
        }
    } else {
        coerced_scalar_text(s, t, r)
    }
}

/// A value brought to a declared type.
pub open spec fn coerced(
    v: ValueView,
    t: JobParameterType,
    r: Readings,
) -> Result<ValueView, Seq<char>> {
    match coerced_directly(v, t, r) {
        Some(x) => x,
        None => match text_form(v) {
            Some(s) => coerced_text(s, t, r),
            None => Err(cannot_coerce(v, t)),
        },
    }
}

/// What a contract reads of a coercion's result.
pub open spec fn outcome(r: Result<ExprValue, String>) -> Result<ValueView, Seq<char>> {
    match r {
        Ok(v) => Ok(v@),
        Err(e) => Err(e@),
    }
}

fn take_bools(v: &Vec<ExprValue>) -> (r: Option<Vec<bool>>)
    ensures
        r is Some <==> all_bool(value_views(v@)),
        r matches Some(b) ==> b@ == Seq::new(v@.len(), |i: int| value_views(v@)[i]->Bool_0),
{
    let mut out: Vec<bool> = Vec::new();
    let mut i: usize = 0;
    while i < v.len()
        invariant
            i <= v.len(),
            out.len() == i,
            forall|k: int| 0 <= k < i ==> (#[trigger] value_views(v@)[k]) is Bool,
            forall|k: int| 0 <= k < i ==> out@[k] == #[trigger] value_views(v@)[k]->Bool_0,
        decreases v.len() - i,
    {
        match &v[i] {
            ExprValue::Bool(b) => {
                out.push(*b);
            },
            _ => {
                assert(!(value_views(v@)[i as int] is Bool));
                return None;
            },
        }
        i += 1;
    }
    assert(out@ =~= Seq::new(v@.len(), |i: int| value_views(v@)[i]->Bool_0));
    Some(out)
}

fn take_ints(v: &Vec<ExprValue>) -> (r: Option<Vec<i64>>)
    ensures
        r is Some <==> all_int(value_views(v@)),
        r matches Some(b) ==> b@ == Seq::new(v@.len(), |i: int| value_views(v@)[i]->Int_0),
{
    let mut out: Vec<i64> = Vec::new();
    let mut i: usize = 0;
    while i < v.len()
        invariant
            i <= v.len(),
            out.len() == i,
            forall|k: int| 0 <= k < i ==> (#[trigger] value_views(v@)[k]) is Int,
            forall|k: int| 0 <= k < i ==> out@[k] == #[trigger] value_views(v@)[k]->Int_0,
        decreases v.len() - i,
    {
        match &v[i] {
            ExprValue::Int(b) => {
                out.push(*b);
            },
            _ => {
                assert(!(value_views(v@)[i as int] is Int));
                return None;
            },
        }
        i += 1;
    }
    assert(out@ =~= Seq::new(v@.len(), |i: int| value_views(v@)[i]->Int_0));
    Some(out)
}

fn take_floats(v: &Vec<ExprValue>) -> (r: Option<Vec<Float64>>)
    ensures
        r is Some <==> all_float(value_views(v@)),
        r matches Some(b) ==> float_views(b@) == Seq::new(
            v@.len(),
            |i: int| value_views(v@)[i]->Float_0,
        ),
{
    let mut out: Vec<Float64> = Vec::new();
    let mut i: usize = 0;
    while i < v.len()
        invariant
            i <= v.len(),
            out.len() == i,
            forall|k: int| 0 <= k < i ==> (#[trigger] value_views(v@)[k]) is Float,
            forall|k: int| 0 <= k < i ==> out@[k]@ == #[trigger] value_views(v@)[k]->Float_0,
        decreases v.len() - i,
    {
        match &v[i] {
            ExprValue::Float(f) => {
                out.push(f.copy());
            },
            _ => {
                assert(!(value_views(v@)[i as int] is Float));
                return None;
            },
        }
        i += 1;
    }
    assert(float_views(out@) =~= Seq::new(v@.len(), |i: int| value_views(v@)[i]->Float_0));
    Some(out)
}

fn take_strings(v: &Vec<ExprValue>) -> (r: Option<Vec<String>>)
    ensures
        r is Some <==> all_string(value_views(v@)),
        r matches Some(b) ==> texts(b@) == Seq::new(
            v@.len(),
            |i: int| value_views(v@)[i]->String_0,
        ),
{
    let mut out: Vec<String> = Vec::new();
    let mut i: usize = 0;
    while i < v.len()
        invariant
            i <= v.len(),
            out.len() == i,
            forall|k: int| 0 <= k < i ==> (#[trigger] value_views(v@)[k]) is String,
            forall|k: int| 0 <= k < i ==> out@[k]@ == #[trigger] value_views(v@)[k]->String_0,
        decreases v.len() - i,
    {
        match &v[i] {
            ExprValue::String(s) => {
                out.push(s.clone());
            },
            _ => {
                assert(!(value_views(v@)[i as int] is String));
                return None;
            },
        }
        i += 1;
    }
    assert(texts(out@) =~= Seq::new(v@.len(), |i: int| value_views(v@)[i]->String_0));
    Some(out)
}

fn take_paths(v: &Vec<ExprValue>) -> (r: Option<Vec<String>>)
    ensures
        r is Some <==> all_path(value_views(v@)),
        r matches Some(b) ==> texts(b@) == Seq::new(v@.len(), |i: int| value_views(v@)[i]->Path_0),
{
    let mut out: Vec<String> = Vec::new();
    let mut i: usize = 0;
    while i < v.len()
        invariant
            i <= v.len(),
            out.len() == i,
            forall|k: int| 0 <= k < i ==> (#[trigger] value_views(v@)[k]) is Path,
            forall|k: int| 0 <= k < i ==> out@[k]@ == #[trigger] value_views(v@)[k]->Path_0,
        decreases v.len() - i,
    {
        match &v[i] {
            ExprValue::Path { value } => {
                out.push(value.clone());
            },
            _ => {
                assert(!(value_views(v@)[i as int] is Path));
                return None;
            },
        }
        i += 1;
    }
    assert(texts(out@) =~= Seq::new(v@.len(), |i: int| value_views(v@)[i]->Path_0));
    Some(out)
}

fn are_lists(v: &Vec<ExprValue>) -> (r: bool)
    ensures
        r == all_list(value_views(v@)),
{
    let mut i: usize = 0;
    while i < v.len()
        invariant
            i <= v.len(),
            forall|k: int| 0 <= k < i ==> is_list(#[trigger] value_views(v@)[k]),
        decreases v.len() - i,
    {
        let list: bool = match &v[i] {
            ExprValue::ListBool(_)
            | ExprValue::ListInt(_)
            | ExprValue::ListFloat(_)
            | ExprValue::ListString(_)
            | ExprValue::ListPath(_)
            | ExprValue::ListList(_) => true,
            _ => false,
        };
        assert(list == is_list(value_views(v@)[i as int]));
        if !list {
            return false;
        }
        i += 1;
    }
    true
}

/// The list of some values. Its form goes by the values, or by the hint where there are none.
pub fn make_list(elements: Vec<ExprValue>, hint: ExprType) -> (r: Result<ExprValue, String>)
    ensures
        outcome(r) == list_of(value_views(elements@), hint),
{
    let ghost s = value_views(elements@);
    if elements.len() == 0 {
        let r = match hint {
            ExprType::Bool => ExprValue::ListBool(Vec::new()),
            ExprType::Int => ExprValue::ListInt(Vec::new()),
            ExprType::Float => ExprValue::ListFloat(Vec::new()),
            ExprType::String => ExprValue::ListString(Vec::new()),
            ExprType::Path => ExprValue::ListPath(Vec::new()),
            _ => {
                proof {
                    list_list_view(elements);
                    assert(value_views(elements@) =~= Seq::empty());
                }
                return Ok(ExprValue::ListList(elements));
            },
        };
        proof {
            assert(float_views(Seq::empty()) =~= Seq::empty());
            assert(texts(Seq::empty()) =~= Seq::empty());
        }
        return Ok(r);
    }
    if let Some(v) = take_bools(&elements) {
        return Ok(ExprValue::ListBool(v));
    }
    if let Some(v) = take_ints(&elements) {
        return Ok(ExprValue::ListInt(v));
    }
    if let Some(v) = take_floats(&elements) {
        return Ok(ExprValue::ListFloat(v));
    }
    if let Some(v) = take_strings(&elements) {
        return Ok(ExprValue::ListString(v));
    }
    if let Some(v) = take_paths(&elements) {
        return Ok(ExprValue::ListPath(v));
    }
    if are_lists(&elements) {
        proof {
            list_list_view(elements);
        }
        return Ok(ExprValue::ListList(elements));
    }
    Err("list elements are not all of one type".to_owned())
}

fn list_or_reason(elements: Vec<ExprValue>, hint: ExprType) -> (r: Result<ExprValue, String>)
    ensures
        outcome(r) == match list_of(value_views(elements@), hint) {
            Ok(l) => Ok(l),
            Err(e) => Err("Invalid list value: "@ + e),
        },
{
    match make_list(elements, hint) {
        Ok(v) => Ok(v),
        Err(e) => {
            let mut m = "Invalid list value: ".to_owned();
            m.append(e.as_str());
            Err(m)
        },
    }
}

proof fn json_error_stays(a: Seq<JsonView>, n: int, r: Readings)
    requires
        0 <= n <= a.len(),
        json_items(a.take(n), r) is Err,
    ensures
        json_items(a, r) == json_items(a.take(n), r),
    decreases a.len(),
{
    if n < a.len() {
        assert(a.drop_last().take(n) =~= a.take(n));
        json_error_stays(a.drop_last(), n, r);
    } else {
        assert(a.take(n) =~= a);
    }
}

proof fn coercion_error_stays(a: Seq<JsonView>, n: int, e: JobParameterType, r: Readings)
    requires
        0 <= n <= a.len(),
        coerced_items(a.take(n), e, r) is Err,
    ensures
        coerced_items(a, e, r) == coerced_items(a.take(n), e, r),
    decreases a.len(),
{
    if n < a.len() {
        assert(a.drop_last().take(n) =~= a.take(n));
        coercion_error_stays(a.drop_last(), n, e, r);
    } else {
        assert(a.take(n) =~= a);
    }
}

/// A JSON value as the value that its own form says.
///
/// The declared type is not looked at: `coerce_json_to_job_parameter_type` does that.
pub fn json_to_expr_value(val: &JsonValue, readings: &Readings) -> (r: Result<ExprValue, String>)
    ensures
        outcome(r) == json_value(val@, *readings),
    decreases val,
{
    match val {
        JsonValue::Null => Err(
            "Unexpected null in parameter value. List elements must be strings, integers, floats, or booleans.".to_owned(),
        ),
        JsonValue::Bool(b) => Ok(ExprValue::Bool(*b)),
        JsonValue::Number(n) => {
            if let Some(i) = n.int {
                return Ok(ExprValue::Int(i));
            }
            if let Some(f) = &n.float {
                let text = readings.text_of_float(f);
                return match Float64::new(f.copy(), text) {
                    Some(v) => Ok(ExprValue::Float(v)),
                    None => {
                        let mut m = "Float value ".to_owned();
                        m.append(f.shown.as_str());
                        m.append(" is not finite");
                        Err(m)
                    },
                };
            }
            Ok(ExprValue::String(n.text.clone()))
        },
        JsonValue::String(s) => Ok(ExprValue::String(s.clone())),
        JsonValue::Array(a) => {
            let ghost items = json_views(a@);
            proof {
                array_view(*a);
                assert(value_views(Seq::empty()) =~= Seq::empty());
                assert(items.take(0) =~= Seq::empty());
            }
            let mut elements: Vec<ExprValue> = Vec::new();
            let mut i: usize = 0;
            while i < a.len()
                invariant
                    i <= a.len(),
                    *val == JsonValue::Array(*a),
                    val@ == JsonView::Array(items),
                    items == json_views(a@),
                    json_items(items.take(i as int), *readings) == Ok::<
                        Seq<ValueView>,
                        Seq<char>,
                    >(value_views(elements@)),
                decreases a.len() - i,
            {
                assert(decreases_to!(val => val->Array_0));
                assert(decreases_to!(a => a@));
                assert(decreases_to!(a@ => a@[i as int]));
                assert(items.take(i + 1).drop_last() =~= items.take(i as int));
                match json_to_expr_value(&a[i], readings) {
                    Ok(v) => {
                        let ghost before = elements@;
                        elements.push(v);
                        assert(value_views(elements@) =~= value_views(before).push(v@));
                    },
                    Err(e) => {
                        proof {
                            json_error_stays(items, i + 1, *readings);
                        }
                        return Err(e);
                    },
                }
                i += 1;
            }
            assert(items.take(a.len() as int) =~= items);
            list_or_reason(elements, ExprType::NullType)
        },
        JsonValue::Object => Err(
            "Unexpected JSON object in parameter value. List elements must be strings, integers, floats, or booleans.".to_owned(),
        ),
    }
}

/// `Value 'text`, the beginning of a refusal.
fn refusal(s: &str, why: &str) -> (m: String)
    ensures
        m@ == "Value '"@ + s@ + why@,
{
    let mut m = "Value '".to_owned();
    m.append(s);
    m.append(why);
    m
}

/// Convert a JSON value to a value of the declared parameter type.
///
/// Each leaf is coerced as a scalar of the element type is, so a list type accepts exactly
/// what its element type accepts. What is no list where a list type is declared is refused.
pub fn coerce_json_to_job_parameter_type(
    val: &JsonValue,
    param_type: JobParameterType,
    readings: &Readings,
) -> (r: Result<ExprValue, String>)
    ensures
        outcome(r) == coerced_json(val@, param_type, *readings),
    decreases
        depth(param_type),
        (if element_type(param_type) is Some {
            0nat
        } else {
            2nat
        }),
{
    match list_element_type(param_type) {
        Some(element) => match val {
            JsonValue::Array(a) => {
                let ghost items = json_views(a@);
                proof {
                    array_view(*a);
                    assert(value_views(Seq::empty()) =~= Seq::empty());
                    assert(items.take(0) =~= Seq::empty());
                }
                let mut elements: Vec<ExprValue> = Vec::new();
                let mut i: usize = 0;
                while i < a.len()
                    invariant
                        i <= a.len(),
                        val@ == JsonView::Array(items),
                        items == json_views(a@),
                        element_type(param_type) == Some(element),
                        coerced_items(items.take(i as int), element, *readings) == Ok::<
                            Seq<ValueView>,
                            Seq<char>,
                        >(value_views(elements@)),
                    decreases a.len() - i,
                {
                    assert(items.take(i + 1).drop_last() =~= items.take(i as int));
                    match coerce_json_to_job_parameter_type(&a[i], element, readings) {
                        Ok(v) => {
                            let ghost before = elements@;
                            elements.push(v);
                            assert(value_views(elements@) =~= value_views(before).push(v@));
                        },
                        Err(e) => {
                            proof {
                                coercion_error_stays(items, i + 1, element, *readings);
                            }
                            return Err(e);
                        },
                    }
                    i += 1;
                }
                assert(items.take(a.len() as int) =~= items);
                list_or_reason(elements, representation_expr_type(element))
            },
            other => {
                let mut m = "Value is not a list for parameter type ".to_owned();
                m.append(param_type.as_spec_str());
                m.append(". Got ");
                m.append(json_type_name(other));
                m.append(".");
                Err(m)
            },
        },
        None => match json_to_expr_value(val, readings) {
            Ok(v) => coerce_to_job_parameter_type(&v, param_type, readings),
            Err(e) => Err(e),
        },
    }
}

/// Coerce a string value to the declared type.
pub fn coerce_from_str(
    s: &str,
    param_type: JobParameterType,
    readings: &Readings,
) -> (r: Result<ExprValue, String>)
    ensures
        outcome(r) == coerced_text(s@, param_type, *readings),
    decreases
        depth(param_type),
        (if element_type(param_type) is Some {
            1nat
        } else {
            0nat
        }),
{
    match param_type {
        JobParameterType::Int => match parse_i64(s) {
            Some(i) => Ok(ExprValue::Int(i)),
            None => Err(refusal(s, "' is not a valid integer or integer string.")),
        },
        JobParameterType::Float => {
            if let Some(n) = readings.read_literal(s) {
                if let Some(v) = Float64::new(n, s.to_owned()) {
                    return Ok(ExprValue::Float(v));
                }
            }
            Err(refusal(s, "' is not a valid float."))
        },
        JobParameterType::Bool => match read_bool(s) {
            Some(b) => Ok(ExprValue::Bool(b)),
            None => Err(
                refusal(
                    s,
                    "' is not a valid boolean. Accepted: true/false, 1/0, yes/no, on/off.",
                ),
            ),
        },
        JobParameterType::RangeExpr => match readings.refuse_range(s) {
            None => Ok(ExprValue::RangeExpr(RangeExpr { text: s.to_owned() })),
            Some(reason) => {
                let mut m = refusal(s, "' is not a valid range expression: ");
                m.append(reason.as_str());
                Err(m)
            },
        },
        JobParameterType::Path | JobParameterType::String => Ok(ExprValue::String(s.to_owned())),
        JobParameterType::ListString
        | JobParameterType::ListInt
        | JobParameterType::ListFloat
        | JobParameterType::ListPath
        | JobParameterType::ListBool
        | JobParameterType::ListListInt => match parse_json(s) {
            Some(j) => coerce_json_to_job_parameter_type(&j, param_type, readings),
            None => Err(refusal(s, "' is not valid JSON for a list parameter.")),
        },
    }
}

/// Coerce a value to the declared type.
pub fn coerce_to_job_parameter_type(
    value: &ExprValue,
    param_type: JobParameterType,
    readings: &Readings,
) -> (r: Result<ExprValue, String>)
    ensures
        outcome(r) == coerced(value@, param_type, *readings),
    decreases
        depth(param_type),
        (if element_type(param_type) is Some {
            2nat
        } else {
            1nat
        }),
{
    if value_matches_type(value, param_type) {
        return Ok(value.copy());
    }
    match value {
        ExprValue::Int(i) => {
            if param_type == JobParameterType::Float {
                if let Some(f) = readings.read_integer(*i) {
                    if finite_bits(f.number.bits) {
                        return Ok(ExprValue::Float(f));
                    }
                }
                let mut m = "Cannot represent integer ".to_owned();
                m.append(i64_text(*i).as_str());
                m.append(" as a finite float");
                return Err(m);
            }
            if param_type == JobParameterType::Bool && (*i == 0 || *i == 1) {
                return Ok(ExprValue::Bool(*i == 1));
            }
            coerce_from_str(i64_text(*i).as_str(), param_type, readings)
        },
        ExprValue::Float(f) => {
            if param_type == JobParameterType::Int {
                if let Some(i) = to_i64(f.number.bits) {
                    return Ok(ExprValue::Int(i));
                }
            }
            if param_type == JobParameterType::Bool {
                let one: bool = equal(f.number.bits, ONE_BITS);
                if one || equal(f.number.bits, 0) {
                    return Ok(ExprValue::Bool(one));
                }
            }
            coerce_from_str(f.text.as_str(), param_type, readings)
        },
        ExprValue::Bool(b) => {
            let word = if *b {
                "true"
            } else {
                "false"
            };
            coerce_from_str(word, param_type, readings)
        },
        ExprValue::String(s) => coerce_from_str(s.as_str(), param_type, readings),
        other => {
            let mut m = "Cannot coerce ".to_owned();
            m.append(other.kind_name());
            m.append(" to ");
            m.append(param_type.as_spec_str());
            Err(m)
        },
    }
}

/// The elements of a list.
pub open spec fn elements(v: ValueView) -> Seq<ValueView> {
    match v {
        ValueView::ListBool(s) => Seq::new(s.len(), |i: int| ValueView::Bool(s[i])),
        ValueView::ListInt(s) => Seq::new(s.len(), |i: int| ValueView::Int(s[i])),
        ValueView::ListFloat(s) => Seq::new(s.len(), |i: int| ValueView::Float(s[i])),
        ValueView::ListString(s) => Seq::new(s.len(), |i: int| ValueView::String(s[i])),
        ValueView::ListPath(s) => Seq::new(s.len(), |i: int| ValueView::Path(s[i])),
        ValueView::ListList(s) => s,
        _ => Seq::empty(),
    }
}

/// Values of one element type always make a list, which is of the list type and has them as
/// its elements.
proof fn list_of_one_type(s: Seq<ValueView>, t: JobParameterType, e: JobParameterType)
    requires
        element_type(t) == Some(e),
        forall|i: int| 0 <= i < s.len() ==> matches_type(#[trigger] s[i], e),
    ensures
        list_of(s, representation(e)) matches Ok(l) && matches_type(l, t) && elements(l) == s,
{
    if s.len() == 0 {
        assert(elements(empty_list(representation(e))) =~= s);
    } else {
        assert(matches_type(s[0], e));
        let l = list_of(s, representation(e))->Ok_0;
        match e {
            JobParameterType::Bool => assert(all_bool(s)),
            JobParameterType::Int => assert(all_int(s)),
            JobParameterType::Float => assert(all_float(s)),
            JobParameterType::ListInt => {
                assert forall|i: int| 0 <= i < s.len() implies is_list(#[trigger] s[i]) by {
                    assert(matches_type(s[i], e));
                }
            },
            _ => assert(all_string(s)),
        }
        assert(elements(l) =~= s);
    }
}

proof fn scalar_has_declared_form(v: ValueView, t: JobParameterType, r: Readings)
    requires
        element_type(t) is None,
    ensures
        coerced_scalar(v, t, r) matches Ok(x) ==> matches_type(x, t),
{
}

proof fn items_have_declared_form(a: Seq<JsonView>, e: JobParameterType, r: Readings)
    ensures
        coerced_items(a, e, r) matches Ok(s) ==> s.len() == a.len() && (forall|i: int|
            0 <= i < s.len() ==> matches_type(#[trigger] s[i], e)),
    decreases depth(e), a.len(),
{
    if a.len() > 0 {
        items_have_declared_form(a.drop_last(), e, r);
        json_has_declared_form(a.last(), e, r);
    }
}

/// What a JSON value is brought to has the form of the declared type.
pub proof fn json_has_declared_form(j: JsonView, t: JobParameterType, r: Readings)
    ensures
        coerced_json(j, t, r) matches Ok(x) ==> matches_type(x, t),
    decreases depth(t), 0nat,
{
    match element_type(t) {
        Some(e) => {
            if let JsonView::Array(a) = j {
                items_have_declared_form(a, e, r);
                if let Ok(s) = coerced_items(a, e, r) {
                    list_of_one_type(s, t, e);
                }
            }
        },
        None => {
            if let Ok(v) = json_value(j, r) {
                scalar_has_declared_form(v, t, r);
            }
        },
    }
}

/// Whatever coercion accepts has the form of the declared type.
pub proof fn coerced_has_declared_form(v: ValueView, t: JobParameterType, r: Readings)
    ensures
        coerced(v, t, r) matches Ok(x) ==> matches_type(x, t),
{
    text_has_declared_form(text_form(v)->0, t, r);
}

/// Whatever is accepted of a text has the form of the declared type.
pub proof fn text_has_declared_form(s: Seq<char>, t: JobParameterType, r: Readings)
    ensures
        coerced_text(s, t, r) matches Ok(x) ==> matches_type(x, t),
{
    if element_type(t) is Some && json_text(s) is Some {
        json_has_declared_form(json_text(s)->0, t, r);
    }
}

/// A value that already has the form of its declared type is left as it is; so coercing
/// twice is coercing once.
pub proof fn matching_value_is_untouched(v: ValueView, t: JobParameterType, r: Readings)
    ensures
        matches_type(v, t) ==> coerced(v, t, r) == Ok::<ValueView, Seq<char>>(v),
        coerced(v, t, r) matches Ok(x) ==> coerced(x, t, r) == Ok::<ValueView, Seq<char>>(x),
{
    coerced_has_declared_form(v, t, r);
}

/// Whether `i` is the first of JSON values that an element type refuses.
pub open spec fn first_refused(
    a: Seq<JsonView>,
    e: JobParameterType,
    r: Readings,
    i: int,
) -> bool {
    &&& 0 <= i < a.len()
    &&& coerced_json(a[i], e, r) is Err
    &&& forall|k: int| 0 <= k < i ==> coerced_json(#[trigger] a[k], e, r) is Ok
}

proof fn items_one_by_one(a: Seq<JsonView>, e: JobParameterType, r: Readings)
    ensures
        match coerced_items(a, e, r) {
            Ok(s) => s.len() == a.len() && forall|i: int|
                0 <= i < a.len() ==> coerced_json(#[trigger] a[i], e, r) == Ok::<
                    ValueView,
                    Seq<char>,
                >(s[i]),
            Err(m) => exists|i: int|
                #[trigger] first_refused(a, e, r, i) && coerced_json(a[i], e, r) == Err::<
                    ValueView,
                    Seq<char>,
                >(m),
        },
    decreases a.len(),
{
    if a.len() > 0 {
        let front = a.drop_last();
        let n = a.len() - 1;
        items_one_by_one(front, e, r);
        match coerced_items(front, e, r) {
            Ok(s) => {
                assert forall|i: int| 0 <= i < n implies coerced_json(#[trigger] a[i], e, r)
                    == Ok::<ValueView, Seq<char>>(s[i]) by {
                    assert(front[i] == a[i]);
                }
                if coerced_json(a[n], e, r) is Err {
                    assert(first_refused(a, e, r, n));
                }
            },
            Err(m) => {
                let i = choose|i: int|
                    #[trigger] first_refused(front, e, r, i) && coerced_json(front[i], e, r)
                        == Err::<ValueView, Seq<char>>(m);
                assert forall|k: int| 0 <= k < i implies coerced_json(#[trigger] a[k], e, r)
                    is Ok by {
                    assert(front[k] == a[k]);
                }
                assert(first_refused(a, e, r, i));
            },
        }
    }
}

/// A JSON list is accepted for a list type exactly where every element is accepted for the
/// element type; its elements are then what they are brought to, and else the refusal is that
/// of the first refused element.
pub proof fn list_accepts_exactly_what_its_elements_do(
    a: Seq<JsonView>,
    t: JobParameterType,
    e: JobParameterType,
    r: Readings,
)
    requires
        element_type(t) == Some(e),
    ensures
        match coerced_json(JsonView::Array(a), t, r) {
            Ok(l) => elements(l).len() == a.len() && forall|i: int|
                0 <= i < a.len() ==> coerced_json(#[trigger] a[i], e, r) == Ok::<
                    ValueView,
                    Seq<char>,
                >(elements(l)[i]),
            Err(m) => exists|i: int|
                #[trigger] first_refused(a, e, r, i) && coerced_json(a[i], e, r) == Err::<
                    ValueView,
                    Seq<char>,
                >(m),
        },
{
    items_one_by_one(a, e, r);
    items_have_declared_form(a, e, r);
    if let Ok(s) = coerced_items(a, e, r) {
        list_of_one_type(s, t, e);
    }
}

/// An element of a list is accepted, and brought to a value, as the same value is on its own.
pub proof fn element_is_coerced_as_a_scalar(j: JsonView, e: JobParameterType, r: Readings)
    requires
        element_type(e) is None,
    ensures
        coerced_json(j, e, r) == match json_value(j, r) {
            Ok(v) => coerced(v, e, r),
            Err(m) => Err(m),
        },
{
}

/// A JSON list has the same form with and without elements.
pub proof fn empty_list_has_the_form_of_any_other(
    a: Seq<JsonView>,
    t: JobParameterType,
    r: Readings,
)
    requires
        element_type(t) is Some,
    ensures
        coerced_json(JsonView::Array(Seq::empty()), t, r) matches Ok(x) && matches_type(x, t)
            && elements(x).len() == 0,
        coerced_json(JsonView::Array(a), t, r) matches Ok(x) ==> matches_type(x, t),
{
    list_accepts_exactly_what_its_elements_do(Seq::empty(), t, element_type(t)->0, r);
    json_has_declared_form(JsonView::Array(Seq::empty()), t, r);
    json_has_declared_form(JsonView::Array(a), t, r);
}

/// What is no list is refused for a list type.
pub proof fn scalar_is_refused_for_a_list_type(j: JsonView, t: JobParameterType, r: Readings)
    requires
        element_type(t) is Some,
        !(j is Array),
    ensures
        coerced_json(j, t, r) is Err,
{
}

/// Whether a text is a word in lower case but for the case of its ASCII letters.
pub open spec fn same_but_for_case(s: Seq<char>, w: Seq<char>) -> bool {
    s.len() == w.len() && forall|i: int|
        0 <= i < s.len() ==> #[trigger] s[i] == w[i] || ('A' <= s[i] <= 'Z' && s[i] as int + 32
            == w[i] as int)
}

proof fn folding_is_comparing(s: Seq<char>, w: Seq<char>)
    requires
        forall|i: int| 0 <= i < w.len() ==> !('A' <= #[trigger] w[i] <= 'Z'),
    ensures
        lower(s) == w <==> same_but_for_case(s, w),
{
    if same_but_for_case(s, w) {
        assert forall|i: int| 0 <= i < s.len() implies lower(s)[i] == w[i] by {
            assert(s[i] == w[i] || ('A' <= s[i] <= 'Z' && s[i] as int + 32 == w[i] as int));
            assert(!('A' <= w[i] <= 'Z'));
        }
        assert(lower(s) =~= w);
    }
    if lower(s) == w {
        assert forall|i: int| 0 <= i < s.len() implies #[trigger] s[i] == w[i] || ('A' <= s[i]
            <= 'Z' && s[i] as int + 32 == w[i] as int) by {
            assert(lower(s)[i] == w[i]);
        }
    }
}

/// The words true, yes, on and 1 stand for true, and false, no, off and 0 for false, whatever
/// the case of their letters; no other text stands for a boolean.
pub proof fn words_have_their_truth_value(s: Seq<char>)
    ensures
        bool_word(s) == Some(true) <==> same_but_for_case(s, "true"@) || same_but_for_case(
            s,
            "yes"@,
        ) || same_but_for_case(s, "on"@) || same_but_for_case(s, "1"@),
        bool_word(s) == Some(false) <==> same_but_for_case(s, "false"@) || same_but_for_case(
            s,
            "no"@,
        ) || same_but_for_case(s, "off"@) || same_but_for_case(s, "0"@),
{
    reveal_strlit("true");
    reveal_strlit("yes");
    reveal_strlit("on");
    reveal_strlit("1");
    reveal_strlit("false");
    reveal_strlit("no");
    reveal_strlit("off");
    reveal_strlit("0");
    folding_is_comparing(s, "true"@);
    folding_is_comparing(s, "yes"@);
    folding_is_comparing(s, "on"@);
    folding_is_comparing(s, "1"@);
    folding_is_comparing(s, "false"@);
    folding_is_comparing(s, "no"@);
    folding_is_comparing(s, "off"@);
    folding_is_comparing(s, "0"@);
    if bool_word(s) == Some(false) {
        let w = lower(s);
        assert(w != "true"@ && w != "yes"@ && w != "on"@ && w != "1"@) by {
            assert(w.len() == 5 || w.len() == 2 || w.len() == 3 || w.len() == 1);
        }
    }
    if same_but_for_case(s, "false"@) || same_but_for_case(s, "no"@) || same_but_for_case(s, "off"@)
        || same_but_for_case(s, "0"@) {
        let w = lower(s);
        assert(w == "false"@ || w == "no"@ || w == "off"@ || w == "0"@);
        if w == "false"@ {
            assert(w[0] == 'f');
        } else if w == "no"@ {
            assert(w[0] == 'n' && "on"@[0] == 'o');
        } else if w == "off"@ {
            assert(w[0] == 'o' && "yes"@[0] == 'y');
        } else {
            assert(w[0] == '0' && "1"@[0] == '1');
        }
    }
}

/// A boolean goes through its text unchanged.
pub proof fn boolean_goes_through_its_text(b: bool, r: Readings)
    ensures
        text_form(ValueView::Bool(b)) matches Some(t) && bool_word(t) == Some(b),
        coerced(ValueView::Bool(b), JobParameterType::Bool, r) == Ok::<ValueView, Seq<char>>(
            ValueView::Bool(b),
        ),
        coerced(ValueView::Bool(b), JobParameterType::String, r) matches Ok(ValueView::String(t))
            && coerced(ValueView::String(t), JobParameterType::Bool, r) == Ok::<
            ValueView,
            Seq<char>,
        >(ValueView::Bool(b)),
        coerced(ValueView::Bool(b), JobParameterType::Int, r) is Err,
{
    let t = text_form(ValueView::Bool(b))->0;
    reveal_strlit("true");
    reveal_strlit("false");
    words_have_their_truth_value(t);
    if b {
        assert(same_but_for_case(t, "true"@));
    } else {
        assert(same_but_for_case(t, "false"@));
    }
    integer_literals_are_signed_digits(t);
    assert(!('0' <= t[0] <= '9') && t[0] != '+' && t[0] != '-');
}

/// What is accepted for BOOL is a boolean: of a text the word's, of a number whether it is one,
/// where it is zero or one.
pub proof fn booleans_come_from_words_and_from_zero_and_one(v: ValueView, r: Readings)
    ensures
        coerced(v, JobParameterType::Bool, r) matches Ok(x) ==> x is Bool,
        v matches ValueView::String(s) ==> match bool_word(s) {
            Some(b) => coerced(v, JobParameterType::Bool, r) == Ok::<ValueView, Seq<char>>(
                ValueView::Bool(b),
            ),
            None => coerced(v, JobParameterType::Bool, r) is Err,
        },
        v matches ValueView::Int(i) ==> match i {
            0 => coerced(v, JobParameterType::Bool, r) == Ok::<ValueView, Seq<char>>(
                ValueView::Bool(false),
            ),
            1 => coerced(v, JobParameterType::Bool, r) == Ok::<ValueView, Seq<char>>(
                ValueView::Bool(true),
            ),
            _ => coerced(v, JobParameterType::Bool, r) is Err,
        },
        v matches ValueView::Float(f) ==> {
            &&& float_eq(f.number.bits, 0) ==> coerced(v, JobParameterType::Bool, r) == Ok::<
                ValueView,
                Seq<char>,
            >(ValueView::Bool(false))
            &&& float_eq(f.number.bits, 0x3ff0_0000_0000_0000) ==> coerced(
                v,
                JobParameterType::Bool,
                r,
            ) == Ok::<ValueView, Seq<char>>(ValueView::Bool(true))
        },
        !(v is Bool || v is Int || v is Float || v is String) ==> coerced(
            v,
            JobParameterType::Bool,
            r,
        ) is Err,
{
    if let ValueView::Int(i) = v {
        if i != 0 && i != 1 {
            let t = int_text(i as int);
            decimal_text_is_read_back(i);
            integer_literals_are_signed_digits(t);
            words_have_their_truth_value(t);
            reveal_strlit("true");
            reveal_strlit("yes");
            reveal_strlit("on");
            reveal_strlit("1");
            reveal_strlit("false");
            reveal_strlit("no");
            reveal_strlit("off");
            reveal_strlit("0");
            assert(t[0] == '-' || t[0] == '+' || '0' <= t[0] <= '9');
            digits_count_by_tens(Seq::empty(), '0');
            digits_count_by_tens(Seq::empty(), '1');
            if same_but_for_case(t, "1"@) || same_but_for_case(t, "0"@) {
                assert(t[0] == '1' || t[0] == '0');
                assert(t =~= Seq::empty().push(t[0]));
                signs_turn_a_number(t);
            }
            assert(!same_but_for_case(t, "true"@));
            assert(!same_but_for_case(t, "yes"@));
            assert(!same_but_for_case(t, "on"@));
            assert(!same_but_for_case(t, "false"@));
            assert(!same_but_for_case(t, "no"@));
            assert(!same_but_for_case(t, "off"@));
        }
    }
}

/// What is accepted for INT is an integer: itself, the one that a literal stands for, or the
/// one that a float equals. An integer goes through its text unchanged.
pub proof fn integers_keep_their_value(v: ValueView, r: Readings)
    ensures
        coerced(v, JobParameterType::Int, r) matches Ok(x) ==> x is Int,
        v matches ValueView::Int(i) ==> coerced(v, JobParameterType::Int, r) == Ok::<
            ValueView,
            Seq<char>,
        >(v) && coerced(v, JobParameterType::String, r) == Ok::<ValueView, Seq<char>>(
            ValueView::String(int_text(i as int)),
        ) && coerced(ValueView::String(int_text(i as int)), JobParameterType::Int, r) == Ok::<
            ValueView,
            Seq<char>,
        >(v),
        v matches ValueView::String(s) ==> (coerced(v, JobParameterType::Int, r) is Ok
            <==> is_i64_literal(s)) && (is_i64_literal(s) ==> coerced(v, JobParameterType::Int, r)
            == Ok::<ValueView, Seq<char>>(ValueView::Int(literal_value(s) as i64))),
        v matches ValueView::Float(f) ==> (integer_value(f.number.bits) matches Some(n)
            && i64::MIN <= n <= i64::MAX ==> coerced(v, JobParameterType::Int, r) == Ok::<
            ValueView,
            Seq<char>,
        >(ValueView::Int(integer_value(f.number.bits)->0 as i64))) && (!is_i64_literal(f.text) && !(
        integer_value(f.number.bits) matches Some(n) && i64::MIN <= n <= i64::MAX) ==> coerced(
            v,
            JobParameterType::Int,
            r,
        ) is Err),
        !(v is Bool || v is Int || v is Float || v is String) ==> coerced(
            v,
            JobParameterType::Int,
            r,
        ) is Err,
{
    if let ValueView::Int(i) = v {
        decimal_text_is_read_back(i);
    }
}

/// What is accepted for FLOAT is a finite float where floats that come in are finite: itself,
/// the number that a literal is read as, with the literal as its text, or the float that an
/// integer is read as.
pub proof fn floats_are_what_is_read(v: ValueView, r: Readings)
    ensures
        coerced(v, JobParameterType::Float, r) matches Ok(x) ==> x is Float && (!(v is Float)
            ==> is_finite(x->Float_0.number.bits)),
        v is Float ==> coerced(v, JobParameterType::Float, r) == Ok::<ValueView, Seq<char>>(v),
        v matches ValueView::String(s) ==> (coerced(v, JobParameterType::Float, r) is Ok <==> (
        r.literal(s) matches Some(n) && is_finite(n.bits))) && (coerced(
            v,
            JobParameterType::Float,
            r,
        ) matches Ok(ValueView::Float(f)) ==> Some(f.number) == r.literal(s) && f.text == s),
        v matches ValueView::Int(i) ==> (coerced(v, JobParameterType::Float, r) is Ok <==> (
        r.integer(i) matches Some(f) && is_finite(f.number.bits))) && (coerced(
            v,
            JobParameterType::Float,
            r,
        ) matches Ok(ValueView::Float(f)) ==> Some(f) == r.integer(i)),
        !(v is Bool || v is Int || v is Float || v is String) ==> coerced(
            v,
            JobParameterType::Float,
            r,
        ) is Err,
{
}

/// What is accepted for STRING and PATH is a string: a string as it is, and a scalar as its
/// text. Every scalar is accepted.
pub proof fn strings_keep_their_text(v: ValueView, path: bool, r: Readings)
    ensures
        ({
            let t = if path {
                JobParameterType::Path
            } else {
                JobParameterType::String
            };
            &&& coerced(v, t, r) matches Ok(x) ==> x is String
            &&& v is String ==> coerced(v, t, r) == Ok::<ValueView, Seq<char>>(v)
            &&& v matches ValueView::Float(f) ==> coerced(v, t, r) == Ok::<ValueView, Seq<char>>(
                ValueView::String(f.text),
            )
            &&& v matches ValueView::Int(i) ==> coerced(v, t, r) == Ok::<ValueView, Seq<char>>(
                ValueView::String(int_text(i as int)),
            )
            &&& v matches ValueView::Bool(b) ==> coerced(v, t, r) == Ok::<ValueView, Seq<char>>(
                ValueView::String(
                    if b {
                        "true"@
                    } else {
                        "false"@
                    },
                ),
            )
            &&& !(v is Bool || v is Int || v is Float || v is String) ==> coerced(v, t, r) is Err
            &&& forall|s: Seq<char>| #[trigger]
                coerced_text(s, t, r) == Ok::<ValueView, Seq<char>>(ValueView::String(s))
        }),
{
}

/// What is accepted for RANGE_EXPR is a range expression with the text that was given, and a
/// text is accepted exactly where it is read as one.
pub proof fn range_expressions_keep_their_text(v: ValueView, r: Readings)
    ensures
        coerced(v, JobParameterType::RangeExpr, r) matches Ok(x) ==> x is RangeExpr,
        v is RangeExpr ==> coerced(v, JobParameterType::RangeExpr, r) == Ok::<
            ValueView,
            Seq<char>,
        >(v),
        v matches ValueView::String(s) ==> (coerced(v, JobParameterType::RangeExpr, r) is Ok
            <==> r.range_refusal(s) is None) && (coerced(v, JobParameterType::RangeExpr, r)
            matches Ok(x) ==> x == ValueView::RangeExpr(s)),
{
}

/// A text is coerced as the string that holds it is, whatever the type.
pub proof fn text_is_coerced_as_a_string(s: Seq<char>, t: JobParameterType, r: Readings)
    ensures
        t != JobParameterType::String && t != JobParameterType::Path ==> coerced_text(s, t, r)
            == coerced(ValueView::String(s), t, r),
        coerced_text(s, t, r) is Ok <==> coerced(ValueView::String(s), t, r) is Ok,
{
}

/// A refused text is quoted in its refusal, behind the word that says what it is.
pub proof fn refusal_quotes_the_text(s: Seq<char>, t: JobParameterType, r: Readings)
    requires
        t == JobParameterType::Int || t == JobParameterType::Float || t == JobParameterType::Bool
            || t == JobParameterType::RangeExpr,
    ensures
        coerced_text(s, t, r) matches Err(m) ==> ("Value '"@ + s + "' is not a valid "@).is_prefix_of(
            m,
        ),
{
    reveal_strlit("' is not a valid ");
    reveal_strlit("' is not a valid integer or integer string.");
    reveal_strlit("' is not a valid float.");
    reveal_strlit("' is not a valid boolean. Accepted: true/false, 1/0, yes/no, on/off.");
    reveal_strlit("' is not a valid range expression: ");
    if let Err(m) = coerced_text(s, t, r) {
        let head = "Value '"@ + s + "' is not a valid "@;
        assert(head =~= m.subrange(0, head.len() as int));
    }
}

/// The elements of a value that is a list of the form that a list type asks for: integers for
/// LIST[INT], strings for LIST[STRING] and LIST[PATH], and so on.
pub open spec fn list_elements(v: ValueView, t: JobParameterType) -> Option<Seq<ValueView>> {
    match (t, v) {
        (JobParameterType::ListBool, ValueView::ListBool(s)) => Some(
            Seq::new(s.len(), |i: int| ValueView::Bool(s[i])),
        ),
        (JobParameterType::ListInt, ValueView::ListInt(s)) => Some(
            Seq::new(s.len(), |i: int| ValueView::Int(s[i])),
        ),
        (JobParameterType::ListFloat, ValueView::ListFloat(s)) => Some(
            Seq::new(s.len(), |i: int| ValueView::Float(s[i])),
        ),
        (JobParameterType::ListString, ValueView::ListString(s)) => Some(
            Seq::new(s.len(), |i: int| ValueView::String(s[i])),
        ),
        (JobParameterType::ListPath, ValueView::ListString(s)) => Some(
            Seq::new(s.len(), |i: int| ValueView::String(s[i])),
        ),
        (JobParameterType::ListListInt, ValueView::ListList(s)) => Some(s),
        _ => None,
    }
}

/// A JSON list that is accepted becomes a list of its type's form with as many elements, each
/// of which is the element there coerced on its own.
pub proof fn json_list_is_coerced_element_by_element(a: Seq<JsonView>, r: Readings)
    ensures
        forall|t: JobParameterType, e: JobParameterType|
            #![trigger element_type(t), representation(e)]
            (t == JobParameterType::ListBool && e == JobParameterType::Bool) || (t
                == JobParameterType::ListInt && e == JobParameterType::Int) || (t
                == JobParameterType::ListFloat && e == JobParameterType::Float) || (t
                == JobParameterType::ListString && e == JobParameterType::String) || (t
                == JobParameterType::ListPath && e == JobParameterType::Path) || (t
                == JobParameterType::ListListInt && e == JobParameterType::ListInt) ==> {
                &&& coerced_json(JsonView::Array(a), t, r) is Ok <==> forall|i: int|
                    0 <= i < a.len() ==> coerced_json(#[trigger] a[i], e, r) is Ok
                &&& coerced_json(JsonView::Array(a), t, r) matches Ok(l) ==> list_elements(l, t)
                    is Some && list_elements(l, t)->0.len() == a.len() && forall|i: int|
                    0 <= i < a.len() ==> coerced_json(#[trigger] a[i], e, r) == Ok::<
                        ValueView,
                        Seq<char>,
                    >(list_elements(l, t)->0[i])
            },
{
    assert forall|t: JobParameterType, e: JobParameterType|
        #![trigger element_type(t), representation(e)]
        (t == JobParameterType::ListBool && e == JobParameterType::Bool) || (t
            == JobParameterType::ListInt && e == JobParameterType::Int) || (t
            == JobParameterType::ListFloat && e == JobParameterType::Float) || (t
            == JobParameterType::ListString && e == JobParameterType::String) || (t
            == JobParameterType::ListPath && e == JobParameterType::Path) || (t
            == JobParameterType::ListListInt && e == JobParameterType::ListInt) implies {
        &&& coerced_json(JsonView::Array(a), t, r) is Ok <==> forall|i: int|
            0 <= i < a.len() ==> coerced_json(#[trigger] a[i], e, r) is Ok
        &&& coerced_json(JsonView::Array(a), t, r) matches Ok(l) ==> list_elements(l, t) is Some
            && list_elements(l, t)->0.len() == a.len() && forall|i: int|
            0 <= i < a.len() ==> coerced_json(#[trigger] a[i], e, r) == Ok::<
                ValueView,
                Seq<char>,
            >(list_elements(l, t)->0[i])
    } by {
        list_accepts_exactly_what_its_elements_do(a, t, e, r);
        json_has_declared_form(JsonView::Array(a), t, r);
        if let Ok(l) = coerced_json(JsonView::Array(a), t, r) {
            assert(list_elements(l, t)->0 =~= elements(l));
        } else {
            let i = choose|i: int| #[trigger] first_refused(a, e, r, i);
            assert(coerced_json(a[i], e, r) is Err);
        }
    }
}

/// A text for a list type is read as JSON and coerced as that: what is no JSON, or no list, is
/// refused.
pub proof fn list_text_is_read_as_json(s: Seq<char>, t: JobParameterType, r: Readings)
    requires
        t == JobParameterType::ListBool || t == JobParameterType::ListInt || t
            == JobParameterType::ListFloat || t == JobParameterType::ListString || t
            == JobParameterType::ListPath || t == JobParameterType::ListListInt,
    ensures
        json_text(s) is None ==> coerced_text(s, t, r) is Err,
        json_text(s) matches Some(j) ==> coerced_text(s, t, r) == coerced_json(j, t, r) && (!(
        j is Array) ==> coerced_text(s, t, r) is Err),
{
}

/// A list value that already has its type's form is left as it is, and any other value that is
/// no scalar is refused for a list type.
pub proof fn lists_in_form_are_untouched(v: ValueView, t: JobParameterType, r: Readings)
    ensures
        list_elements(v, t) is Some ==> coerced(v, t, r) == Ok::<ValueView, Seq<char>>(v),
        (t == JobParameterType::ListBool || t == JobParameterType::ListInt || t
            == JobParameterType::ListFloat || t == JobParameterType::ListString || t
            == JobParameterType::ListPath || t == JobParameterType::ListListInt) && list_elements(
            v,
            t,
        ) is None && !(v is String || v is Int || v is Float || v is Bool) ==> coerced(v, t, r)
            is Err,
        coerced(v, t, r) matches Ok(x) ==> (x is ListBool || x is ListInt || x is ListFloat
            || x is ListString || x is ListPath || x is ListList) == (t
            == JobParameterType::ListBool || t == JobParameterType::ListInt || t
            == JobParameterType::ListFloat || t == JobParameterType::ListString || t
            == JobParameterType::ListPath || t == JobParameterType::ListListInt),
{
    coerced_has_declared_form(v, t, r);
}

/// A JSON scalar becomes the value of its own form: a boolean, a number that is an integer, a
/// finite float, or a string. Null and objects are refused.
pub proof fn json_scalars_keep_their_value(j: JsonView, r: Readings)
    ensures
        j matches JsonView::Bool(b) ==> json_value(j, r) == Ok::<ValueView, Seq<char>>(
            ValueView::Bool(b),
        ),
        j matches JsonView::String(s) ==> json_value(j, r) == Ok::<ValueView, Seq<char>>(
            ValueView::String(s),
        ),
        j matches JsonView::Number(n) ==> {
            &&& n.int matches Some(i) ==> json_value(j, r) == Ok::<ValueView, Seq<char>>(
                ValueView::Int(i),
            )
            &&& n.int is None && n.float is Some ==> (json_value(j, r) is Ok <==> is_finite(
                n.float->0.bits,
            )) && (json_value(j, r) matches Ok(x) ==> x is Float && x->Float_0.number
                == n.float->0)
            &&& n.int is None && n.float is None ==> json_value(j, r) == Ok::<
                ValueView,
                Seq<char>,
            >(ValueView::String(n.text))
        },
        j is Null || j is Object ==> json_value(j, r) is Err,
{
}

proof fn json_items_one_by_one(a: Seq<JsonView>, r: Readings)
    ensures
        json_items(a, r) is Ok <==> forall|i: int|
            0 <= i < a.len() ==> json_value(#[trigger] a[i], r) is Ok,
        json_items(a, r) matches Ok(s) ==> s.len() == a.len() && forall|i: int|
            0 <= i < a.len() ==> json_value(#[trigger] a[i], r) == Ok::<ValueView, Seq<char>>(
                s[i],
            ),
    decreases a.len(),
{
    if a.len() > 0 {
        let front = a.drop_last();
        let n = a.len() - 1;
        json_items_one_by_one(front, r);
        assert forall|i: int| 0 <= i < n implies #[trigger] a[i] == front[i] by {}
        if forall|i: int| 0 <= i < a.len() ==> json_value(#[trigger] a[i], r) is Ok {
            assert forall|i: int| 0 <= i < front.len() implies json_value(#[trigger] front[i], r)
                is Ok by {
                assert(json_value(a[i], r) is Ok);
            }
            assert(json_value(a[n], r) is Ok);
        }
        if json_items(a, r) is Ok {
            assert forall|i: int| 0 <= i < a.len() implies json_value(#[trigger] a[i], r)
                is Ok by {
                if i < n {
                    assert(json_value(front[i], r) is Ok);
                }
            }
        }
    }
}

/// A JSON list becomes the list of what its elements become, where each becomes something and
/// all become values of one form.
pub proof fn json_list_holds_its_elements(a: Seq<JsonView>, r: Readings)
    ensures
        json_value(JsonView::Array(a), r) matches Ok(l) ==> elements(l).len() == a.len()
            && forall|i: int|
            0 <= i < a.len() ==> json_value(#[trigger] a[i], r) == Ok::<ValueView, Seq<char>>(
                elements(l)[i],
            ),
        (exists|i: int| 0 <= i < a.len() && json_value(#[trigger] a[i], r) is Err) ==> json_value(
            JsonView::Array(a),
            r,
        ) is Err,
{
    json_items_one_by_one(a, r);
    if let Ok(s) = json_items(a, r) {
        if let Ok(l) = list_of(s, ExprType::NullType) {
            list_holds_its_elements(s, ExprType::NullType);
        }
    }
}

/// A list that is made of values holds just these, in order. Values of one form always make a
/// list, and values of two forms never do.
pub proof fn list_holds_its_elements(s: Seq<ValueView>, hint: ExprType)
    ensures
        list_of(s, hint) matches Ok(l) ==> elements(l) == s,
        s.len() == 0 ==> list_of(s, hint) is Ok,
        (forall|i: int| 0 <= i < s.len() ==> (#[trigger] s[i]) is Int) ==> list_of(s, hint) is Ok,
        (forall|i: int| 0 <= i < s.len() ==> (#[trigger] s[i]) is Bool) ==> list_of(s, hint) is Ok,
        (forall|i: int| 0 <= i < s.len() ==> (#[trigger] s[i]) is Float) ==> list_of(s, hint)
            is Ok,
        (forall|i: int| 0 <= i < s.len() ==> (#[trigger] s[i]) is String) ==> list_of(s, hint)
            is Ok,
        (forall|i: int| 0 <= i < s.len() ==> (#[trigger] s[i]) is Path) ==> list_of(s, hint) is Ok,
        forall|i: int, j: int|
            0 <= i < s.len() && 0 <= j < s.len() && (#[trigger] s[i]) is Int && !((
            #[trigger] s[j]) is Int) ==> list_of(s, hint) is Err,
        forall|i: int, j: int|
            0 <= i < s.len() && 0 <= j < s.len() && (#[trigger] s[i]) is String && !((
            #[trigger] s[j]) is String) ==> list_of(s, hint) is Err,
{
    if s.len() > 0 {
        assert(s[0] == s[0]);
        if let Ok(l) = list_of(s, hint) {
            assert(elements(l) =~= s);
        }
    } else {
        assert(elements(empty_list(hint)) =~= s);
    }
}

/// Every declared type stands for expressions of the type of its own name, and its values are
/// of that type, but for paths, which are held as strings.
pub proof fn types_stand_for_expressions_of_their_name(t: JobParameterType)
    ensures
        JobParameterType::String.spec_expr_type() == ExprType::String,
        JobParameterType::Int.spec_expr_type() == ExprType::Int,
        JobParameterType::Float.spec_expr_type() == ExprType::Float,
        JobParameterType::Path.spec_expr_type() == ExprType::Path,
        JobParameterType::Bool.spec_expr_type() == ExprType::Bool,
        JobParameterType::RangeExpr.spec_expr_type() == ExprType::RangeExpr,
        JobParameterType::ListString.spec_expr_type() == ExprType::ListString,
        JobParameterType::ListPath.spec_expr_type() == ExprType::ListPath,
        JobParameterType::ListInt.spec_expr_type() == ExprType::ListInt,
        JobParameterType::ListFloat.spec_expr_type() == ExprType::ListFloat,
        JobParameterType::ListBool.spec_expr_type() == ExprType::ListBool,
        JobParameterType::ListListInt.spec_expr_type() == ExprType::ListListInt,
        representation(t) == if t == JobParameterType::Path {
            ExprType::String
        } else {
            t.spec_expr_type()
        },
{
}

/// Every refusal says what was refused: a text is quoted, a value is named by its own kind and
/// then by the type that it was to have, and a reason that was given comes at the end.
pub proof fn refusals_say_what_was_refused(
    v: ValueView,
    s: Seq<char>,
    t: JobParameterType,
    j: JsonView,
    i: i64,
    r: Readings,
)
    ensures
        r.range_refusal(s) is Some ==> coerced_text(s, JobParameterType::RangeExpr, r) == Err::<
            ValueView,
            Seq<char>,
        >("Value '"@ + s + ("' is not a valid range expression: "@ + r.range_refusal(s)->0)),
        !matches_type(v, t) && (v is Null || v is Path || v is RangeExpr || is_list(v)) ==> coerced(
            v,
            t,
            r,
        ) == Err::<ValueView, Seq<char>>(
            "Cannot coerce "@ + value_kind_name(v) + (" to "@ + t.spec_str()),
        ),
        element_type(t) is Some && json_text(s) is None ==> coerced_text(s, t, r) == Err::<
            ValueView,
            Seq<char>,
        >("Value '"@ + s + "' is not valid JSON for a list parameter."@),
        element_type(t) is Some && !(j is Array) ==> coerced_json(j, t, r) == Err::<
            ValueView,
            Seq<char>,
        >(
            "Value is not a list for parameter type "@ + t.spec_str() + (". Got "@ + json_kind(j)
                + "."@),
        ),
        (r.integer(i) is None || !is_finite(r.integer(i)->0.number.bits)) ==> coerced(
            ValueView::Int(i),
            JobParameterType::Float,
            r,
        ) == Err::<ValueView, Seq<char>>(
            "Cannot represent integer "@ + int_text(i as int) + " as a finite float"@,
        ),
{
    if r.range_refusal(s) is Some {
        let reason = r.range_refusal(s)->0;
        assert("Value '"@ + s + "' is not a valid range expression: "@ + reason =~= "Value '"@ + s
            + ("' is not a valid range expression: "@ + reason));
    }
    assert(cannot_coerce(v, t) =~= "Cannot coerce "@ + value_kind_name(v) + (" to "@
        + t.spec_str()));
    assert("Value is not a list for parameter type "@ + t.spec_str() + ". Got "@ + json_kind(j)
        + "."@ =~= "Value is not a list for parameter type "@ + t.spec_str() + (". Got "@
        + json_kind(j) + "."@));
}

/// A JSON number that is no integer keeps its number, with the text that it has as a float; one
/// that is not finite is refused as it prints, and `null` and objects are refused.
pub proof fn json_floats_keep_number_and_text(n: JsonNumberView, r: Readings)
    ensures
        n.int is None && n.float is Some && is_finite(n.float->0.bits) ==> json_value(
            JsonView::Number(n),
            r,
        ) == Ok::<ValueView, Seq<char>>(
            ValueView::Float(FloatView { number: n.float->0, text: r.float_text(n.float->0) }),
        ),
        n.int is None && n.float is Some && !is_finite(n.float->0.bits) ==> json_value(
            JsonView::Number(n),
            r,
        ) == Err::<ValueView, Seq<char>>("Float value "@ + n.float->0.shown + " is not finite"@),
        json_value(JsonView::Null, r) is Err,
        json_value(JsonView::Object, r) is Err,
{
}

/// A list without elements takes the form that its hint says, and a list that cannot be made of
/// its elements is refused as an invalid list, with the reason.
pub proof fn empty_lists_go_by_the_hint(s: Seq<ValueView>, hint: ExprType)
    ensures
        ({
            let none = list_of(Seq::empty(), hint);
            &&& none is Ok
            &&& hint is Bool ==> none->Ok_0 == ValueView::ListBool(Seq::empty())
            &&& hint is Int ==> none->Ok_0 == ValueView::ListInt(Seq::empty())
            &&& hint is Float ==> none->Ok_0 == ValueView::ListFloat(Seq::empty())
            &&& hint is String ==> none->Ok_0 == ValueView::ListString(Seq::empty())
            &&& hint is Path ==> none->Ok_0 == ValueView::ListPath(Seq::empty())
            &&& !(hint is Bool || hint is Int || hint is Float || hint is String || hint is Path)
                ==> none->Ok_0 == ValueView::ListList(Seq::empty())
        }),
        list_of(s, hint) is Err ==> list_of_found(Ok(s), hint) == Err::<ValueView, Seq<char>>(
            "Invalid list value: "@ + list_of(s, hint)->Err_0,
        ),
        list_of(s, hint) is Ok ==> list_of_found(Ok(s), hint) == list_of(s, hint),
{
}

} // verus!
