//! The values that job parameters take, and their declared types.

use vstd::prelude::*;

use crate::params::floats::{Float64, FloatView};
use crate::text::{clone_texts, texts};

verus! {

/// The declared type of a job parameter.
#[derive(Debug, Clone, Copy, PartialEq, Eq, Structural)]
pub enum JobParameterType {
    String,
    Int,
    Float,
    Path,
    Bool,
    RangeExpr,
    ListString,
    ListPath,
    ListInt,
    ListFloat,
    ListBool,
    ListListInt,
}

impl JobParameterType {
    /// The type as templates write it.
    pub open spec fn spec_str(self) -> Seq<char> {
        match self {
            JobParameterType::String => "STRING"@,
            JobParameterType::Int => "INT"@,
            JobParameterType::Float => "FLOAT"@,
            JobParameterType::Path => "PATH"@,
            JobParameterType::Bool => "BOOL"@,
            JobParameterType::RangeExpr => "RANGE_EXPR"@,
            JobParameterType::ListString => "LIST[STRING]"@,
            JobParameterType::ListPath => "LIST[PATH]"@,
            JobParameterType::ListInt => "LIST[INT]"@,
            JobParameterType::ListFloat => "LIST[FLOAT]"@,
            JobParameterType::ListBool => "LIST[BOOL]"@,
            JobParameterType::ListListInt => "LIST[LIST[INT]]"@,
        }
    }

    /// The type as templates write it.
    pub fn as_spec_str(self) -> (s: &'static str)
        ensures
            s@ == self.spec_str(),
    {
        match self {
            JobParameterType::String => "STRING",
            JobParameterType::Int => "INT",
            JobParameterType::Float => "FLOAT",
            JobParameterType::Path => "PATH",
            JobParameterType::Bool => "BOOL",
            JobParameterType::RangeExpr => "RANGE_EXPR",
            JobParameterType::ListString => "LIST[STRING]",
            JobParameterType::ListPath => "LIST[PATH]",
            JobParameterType::ListInt => "LIST[INT]",
            JobParameterType::ListFloat => "LIST[FLOAT]",
            JobParameterType::ListBool => "LIST[BOOL]",
            JobParameterType::ListListInt => "LIST[LIST[INT]]",
        }
    }
}

/// A range expression, held as the text that was read as one.
#[derive(Debug, PartialEq, Eq)]
pub struct RangeExpr {
    pub text: String,
}

/// A value of the expression language.
#[derive(Debug)]
pub enum ExprValue {
    Null,
    Bool(bool),
    Int(i64),
    Float(Float64),
    String(String),
    Path { value: String },
    RangeExpr(RangeExpr),
    ListBool(Vec<bool>),
    ListInt(Vec<i64>),
    ListFloat(Vec<Float64>),
    ListString(Vec<String>),
    ListPath(Vec<String>),
    ListList(Vec<ExprValue>),
}

/// What a contract reads of a value.
pub enum ValueView {
    Null,
    Bool(bool),
    Int(i64),
    Float(FloatView),
    String(Seq<char>),
    Path(Seq<char>),
    RangeExpr(Seq<char>),
    ListBool(Seq<bool>),
    ListInt(Seq<i64>),
    ListFloat(Seq<FloatView>),
    ListString(Seq<Seq<char>>),
    ListPath(Seq<Seq<char>>),
    ListList(Seq<ValueView>),
}

/// The floats of a list.
pub open spec fn float_views(v: Seq<Float64>) -> Seq<FloatView> {
    Seq::new(v.len(), |i: int| v[i]@)
}

/// The values of a list.
pub open spec fn value_views(v: Seq<ExprValue>) -> Seq<ValueView> {
    Seq::new(v.len(), |i: int| v[i]@)
}

impl View for ExprValue {
    type V = ValueView;

    open spec fn view(&self) -> ValueView
        decreases self,
    {
        match self {
            ExprValue::Null => ValueView::Null,
            ExprValue::Bool(b) => ValueView::Bool(*b),
            ExprValue::Int(i) => ValueView::Int(*i),
            ExprValue::Float(f) => ValueView::Float(f@),
            ExprValue::String(s) => ValueView::String(s@),
            ExprValue::Path { value } => ValueView::Path(value@),
            ExprValue::RangeExpr(r) => ValueView::RangeExpr(r.text@),
            ExprValue::ListBool(v) => ValueView::ListBool(v@),
            ExprValue::ListInt(v) => ValueView::ListInt(v@),
            ExprValue::ListFloat(v) => ValueView::ListFloat(float_views(v@)),
            ExprValue::ListString(v) => ValueView::ListString(texts(v@)),
            ExprValue::ListPath(v) => ValueView::ListPath(texts(v@)),
            ExprValue::ListList(v) => ValueView::ListList(
                Seq::new(
                    v@.len(),
                    |i: int|
                        if 0 <= i < v@.len() {
                            v@[i].view()
                        } else {
                            ValueView::Null
                        },
                ),
            ),
        }
    }
}

/// The view of a list of lists, element by element.
pub proof fn list_list_view(v: Vec<ExprValue>)
    ensures
        ExprValue::ListList(v)@ == ValueView::ListList(value_views(v@)),
{
    reveal_with_fuel(<ExprValue as View>::view, 2);
    assert(ExprValue::ListList(v)@->ListList_0 =~= value_views(v@));
}

/// A list of integers, copied.
pub fn copy_ints(v: &Vec<i64>) -> (r: Vec<i64>)
    ensures
        r@ == v@,
{
    let r = v.clone();
    assert(r@ =~= v@);
    r
}

/// A list of booleans, copied.
pub fn copy_bools(v: &Vec<bool>) -> (r: Vec<bool>)
    ensures
        r@ == v@,
{
    let r = v.clone();
    assert(r@ =~= v@);
    r
}

/// A list of floats, copied.
pub fn copy_floats(v: &Vec<Float64>) -> (r: Vec<Float64>)
    ensures
        r@ == v@,
{
    let mut r: Vec<Float64> = Vec::new();
    let mut i: usize = 0;
    while i < v.len()
        invariant
            i <= v.len(),
            r@ == v@.take(i as int),
        decreases v.len() - i,
    {
        r.push(v[i].copy());
        i += 1;
        assert(r@ =~= v@.take(i as int));
    }
    assert(r@ =~= v@);
    r
}

impl ExprValue {
    /// A copy of the value.
    pub fn copy(&self) -> (r: ExprValue)
        ensures
            r@ == self@,
        decreases self,
    {
        match self {
            ExprValue::Null => ExprValue::Null,
            ExprValue::Bool(b) => ExprValue::Bool(*b),
            ExprValue::Int(i) => ExprValue::Int(*i),
            ExprValue::Float(f) => ExprValue::Float(f.copy()),
            ExprValue::String(s) => ExprValue::String(s.clone()),
            ExprValue::Path { value } => ExprValue::Path { value: value.clone() },
            ExprValue::RangeExpr(r) => ExprValue::RangeExpr(RangeExpr { text: r.text.clone() }),
            ExprValue::ListBool(v) => ExprValue::ListBool(copy_bools(v)),
            ExprValue::ListInt(v) => ExprValue::ListInt(copy_ints(v)),
            ExprValue::ListFloat(v) => ExprValue::ListFloat(copy_floats(v)),
            ExprValue::ListString(v) => ExprValue::ListString(clone_texts(v)),
            ExprValue::ListPath(v) => ExprValue::ListPath(clone_texts(v)),
            ExprValue::ListList(v) => {
                let mut items: Vec<ExprValue> = Vec::new();
                let mut i: usize = 0;
                while i < v.len()
                    invariant
                        i <= v.len(),
                        items.len() == i,
                        *self == ExprValue::ListList(*v),
                        forall|k: int| 0 <= k < i ==> items@[k]@ == #[trigger] v@[k]@,
                    decreases v.len() - i,
                {
                    assert(decreases_to!(self => self->ListList_0));
                    assert(decreases_to!(v => v@));
                    assert(decreases_to!(v@ => v@[i as int]));
                    items.push(v[i].copy());
                    i += 1;
                }
                proof {
                    list_list_view(*v);
                    list_list_view(items);
                    assert(value_views(items@) =~= value_views(v@));
                }
                ExprValue::ListList(items)
            },
        }
    }

    /// The name of the value's own type.
    pub fn kind_name(&self) -> (s: &'static str)
        ensures
            s@ == value_kind_name(self@),
    {
        match self {
            ExprValue::Null => "nulltype",
            ExprValue::Bool(_) => "bool",
            ExprValue::Int(_) => "int",
            ExprValue::Float(_) => "float",
            ExprValue::String(_) => "string",
            ExprValue::Path { .. } => "path",
            ExprValue::RangeExpr(_) => "range_expr",
            ExprValue::ListBool(_) => "list[bool]",
            ExprValue::ListInt(_) => "list[int]",
            ExprValue::ListFloat(_) => "list[float]",
            ExprValue::ListString(_) => "list[string]",
            ExprValue::ListPath(_) => "list[path]",
            ExprValue::ListList(_) => "list[list]",
        }
    }
}

/// The name of a value's own type.
pub open spec fn value_kind_name(v: ValueView) -> Seq<char> {
    match v {
        ValueView::Null => "nulltype"@,
        ValueView::Bool(_) => "bool"@,
        ValueView::Int(_) => "int"@,
        ValueView::Float(_) => "float"@,
        ValueView::String(_) => "string"@,
        ValueView::Path(_) => "path"@,
        ValueView::RangeExpr(_) => "range_expr"@,
        ValueView::ListBool(_) => "list[bool]"@,
        ValueView::ListInt(_) => "list[int]"@,
        ValueView::ListFloat(_) => "list[float]"@,
        ValueView::ListString(_) => "list[string]"@,
        ValueView::ListPath(_) => "list[path]"@,
        ValueView::ListList(_) => "list[list]"@,
    }
}

/// Whether a value already has the form that a declared type asks for.
pub open spec fn matches_type(v: ValueView, t: JobParameterType) -> bool {
    match t {
        JobParameterType::String | JobParameterType::Path => v is String,
        JobParameterType::Int => v is Int,
        JobParameterType::Float => v is Float,
        JobParameterType::Bool => v is Bool,
        JobParameterType::RangeExpr => v is RangeExpr,
        JobParameterType::ListString | JobParameterType::ListPath => v is ListString,
        JobParameterType::ListInt => v is ListInt,
        JobParameterType::ListFloat => v is ListFloat,
        JobParameterType::ListBool => v is ListBool,
        JobParameterType::ListListInt => v is ListList,
    }
}

/// Whether a value already has the form that a declared type asks for.
pub fn value_matches_type(value: &ExprValue, param_type: JobParameterType) -> (r: bool)
    ensures
        r == matches_type(value@, param_type),
{
    match (value, param_type) {
        (ExprValue::String(_), JobParameterType::String) => true,
        (ExprValue::String(_), JobParameterType::Path) => true,
        (ExprValue::Int(_), JobParameterType::Int) => true,
        (ExprValue::Float(_), JobParameterType::Float) => true,
        (ExprValue::Bool(_), JobParameterType::Bool) => true,
        (ExprValue::RangeExpr(_), JobParameterType::RangeExpr) => true,
        (ExprValue::ListString(_), JobParameterType::ListString) => true,
        (ExprValue::ListString(_), JobParameterType::ListPath) => true,
        (ExprValue::ListInt(_), JobParameterType::ListInt) => true,
        (ExprValue::ListFloat(_), JobParameterType::ListFloat) => true,
        (ExprValue::ListBool(_), JobParameterType::ListBool) => true,
        (ExprValue::ListList(_), JobParameterType::ListListInt) => true,
        _ => false,
    }
}

/// The element type of a list type, or none for a scalar type.
///
/// `LIST[LIST[INT]]` yields `LIST[INT]`, so nesting needs no case of its own.
pub open spec fn element_type(t: JobParameterType) -> Option<JobParameterType> {
    match t {
        JobParameterType::ListString => Some(JobParameterType::String),
        JobParameterType::ListPath => Some(JobParameterType::Path),
        JobParameterType::ListInt => Some(JobParameterType::Int),
        JobParameterType::ListFloat => Some(JobParameterType::Float),
        JobParameterType::ListBool => Some(JobParameterType::Bool),
        JobParameterType::ListListInt => Some(JobParameterType::ListInt),
        JobParameterType::String
        | JobParameterType::Int
        | JobParameterType::Float
        | JobParameterType::Path
        | JobParameterType::Bool
        | JobParameterType::RangeExpr => None,
    }
}

/// The element type of a list type, or none for a scalar type.
pub fn list_element_type(param_type: JobParameterType) -> (r: Option<JobParameterType>)
    ensures
        r == element_type(param_type),
{
    match param_type {
        JobParameterType::ListString => Some(JobParameterType::String),
        JobParameterType::ListPath => Some(JobParameterType::Path),
        JobParameterType::ListInt => Some(JobParameterType::Int),
        JobParameterType::ListFloat => Some(JobParameterType::Float),
        JobParameterType::ListBool => Some(JobParameterType::Bool),
        JobParameterType::ListListInt => Some(JobParameterType::ListInt),
        JobParameterType::String
        | JobParameterType::Int
        | JobParameterType::Float
        | JobParameterType::Path
        | JobParameterType::Bool
        | JobParameterType::RangeExpr => None,
    }
}

/// A list type is written as `LIST[..]` around its element type, and no two types are written
/// alike.
pub proof fn list_types_are_written_around_their_elements(t: JobParameterType, u: JobParameterType)
    ensures
        element_type(t) matches Some(e) ==> t.spec_str() == "LIST["@ + e.spec_str() + "]"@,
        t != u ==> t.spec_str() != u.spec_str(),
        t == JobParameterType::String ==> t.spec_str() == "STRING"@,
        t == JobParameterType::Int ==> t.spec_str() == "INT"@,
        t == JobParameterType::Float ==> t.spec_str() == "FLOAT"@,
        t == JobParameterType::Path ==> t.spec_str() == "PATH"@,
        t == JobParameterType::Bool ==> t.spec_str() == "BOOL"@,
        t == JobParameterType::RangeExpr ==> t.spec_str() == "RANGE_EXPR"@,
        t == JobParameterType::ListString || t == JobParameterType::ListPath || t
            == JobParameterType::ListInt || t == JobParameterType::ListFloat || t
            == JobParameterType::ListBool || t == JobParameterType::ListListInt <==> element_type(t)
            is Some,
{
    reveal_strlit("STRING");
    reveal_strlit("INT");
    reveal_strlit("FLOAT");
    reveal_strlit("PATH");
    reveal_strlit("BOOL");
    reveal_strlit("RANGE_EXPR");
    reveal_strlit("LIST[STRING]");
    reveal_strlit("LIST[PATH]");
    reveal_strlit("LIST[INT]");
    reveal_strlit("LIST[FLOAT]");
    reveal_strlit("LIST[BOOL]");
    reveal_strlit("LIST[LIST[INT]]");
    reveal_strlit("LIST[");
    reveal_strlit("]");
    if let Some(e) = element_type(t) {
        assert(t.spec_str() =~= "LIST["@ + e.spec_str() + "]"@);
    }
    if t != u {
        let a = t.spec_str();
        let b = u.spec_str();
        assert(a.len() != b.len() || a[0] != b[0] || a[5] != b[5]);
    }
}

/// A value has the form of a type where it is of the type's own kind; STRING and PATH both take
/// strings, and lists of either take lists of strings. A list has the form of a list type where
/// each of its elements has that of the element type.
pub proof fn form_goes_by_the_kind_of_value(v: ValueView, t: JobParameterType)
    ensures
        v is Null || v is Path || v is ListPath ==> !matches_type(v, t),
        v is Bool ==> (matches_type(v, t) <==> t == JobParameterType::Bool),
        v is Int ==> (matches_type(v, t) <==> t == JobParameterType::Int),
        v is Float ==> (matches_type(v, t) <==> t == JobParameterType::Float),
        v is String ==> (matches_type(v, t) <==> t == JobParameterType::String || t
            == JobParameterType::Path),
        v is RangeExpr ==> (matches_type(v, t) <==> t == JobParameterType::RangeExpr),
        v is ListBool ==> (matches_type(v, t) <==> element_type(t) == Some(JobParameterType::Bool)),
        v is ListInt ==> (matches_type(v, t) <==> element_type(t) == Some(JobParameterType::Int)),
        v is ListFloat ==> (matches_type(v, t) <==> element_type(t) == Some(
            JobParameterType::Float,
        )),
        v is ListString ==> (matches_type(v, t) <==> element_type(t) == Some(
            JobParameterType::String,
        ) || element_type(t) == Some(JobParameterType::Path)),
        v is ListList ==> (matches_type(v, t) <==> element_type(t) == Some(
            JobParameterType::ListInt,
        )),
{
}

/// The kind of a list is named around the kind of its elements, and no two kinds have one name.
pub proof fn kinds_of_lists_are_named_around_their_elements(v: ValueView, w: ValueView)
    ensures
        v is ListBool && w is Bool || v is ListInt && w is Int || v is ListFloat && w is Float || v
            is ListString && w is String || v is ListPath && w is Path ==> value_kind_name(v)
            == "list["@ + value_kind_name(w) + "]"@,
        v is ListList ==> value_kind_name(v) == "list[list]"@,
        v is Int ==> value_kind_name(v) == "int"@,
        v is Bool ==> value_kind_name(v) == "bool"@,
        v is Float ==> value_kind_name(v) == "float"@,
        v is String ==> value_kind_name(v) == "string"@,
        v is Path ==> value_kind_name(v) == "path"@,
        v is Null ==> value_kind_name(v) == "nulltype"@,
        v is RangeExpr ==> value_kind_name(v) == "range_expr"@,
        value_kind_name(v) == value_kind_name(w) && v is Int ==> w is Int,
        value_kind_name(v) == value_kind_name(w) && v is Bool ==> w is Bool,
        value_kind_name(v) == value_kind_name(w) && v is Float ==> w is Float,
        value_kind_name(v) == value_kind_name(w) && v is String ==> w is String,
        value_kind_name(v) == value_kind_name(w) && v is Path ==> w is Path,
{
    reveal_strlit("nulltype");
    reveal_strlit("bool");
    reveal_strlit("int");
    reveal_strlit("float");
    reveal_strlit("string");
    reveal_strlit("path");
    reveal_strlit("range_expr");
    reveal_strlit("list[bool]");
    reveal_strlit("list[int]");
    reveal_strlit("list[float]");
    reveal_strlit("list[string]");
    reveal_strlit("list[path]");
    reveal_strlit("list[list]");
    reveal_strlit("list[");
    reveal_strlit("]");
    let a = value_kind_name(v);
    let b = value_kind_name(w);
    if v is ListBool && w is Bool || v is ListInt && w is Int || v is ListFloat && w is Float || v
        is ListString && w is String || v is ListPath && w is Path {
        assert(a =~= "list["@ + b + "]"@);
    }
    if a == b {
        assert(a.len() == b.len() && a[0] == b[0]);
    }
}

} // verus!
