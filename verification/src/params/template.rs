//! Templates as far as they define job parameters, and the errors of working on them.

use vstd::prelude::*;

use crate::params::floats::{FloatNumber, NumberView};
use crate::params::values::JobParameterType;
use crate::text::{opt_text, texts};

verus! {

/// What a PATH parameter names.
#[derive(Debug, Clone, Copy, PartialEq, Eq, Structural)]
pub enum ObjectType {
    File,
    Directory,
}

impl ObjectType {
    /// The object type as templates write it.
    pub open spec fn spec_str(self) -> Seq<char> {
        match self {
            ObjectType::File => "FILE"@,
            ObjectType::Directory => "DIRECTORY"@,
        }
    }

    /// The object type as templates write it.
    pub fn as_spec_str(self) -> (s: &'static str)
        ensures
            s@ == self.spec_str(),
    {
        match self {
            ObjectType::File => "FILE",
            ObjectType::Directory => "DIRECTORY",
        }
    }
}

/// Which way data moves through a PATH parameter.
#[derive(Debug, Clone, Copy, PartialEq, Eq, Structural)]
pub enum DataFlow {
    NoFlow,
    In,
    Out,
    InOut,
}

impl DataFlow {
    /// The data flow as templates write it.
    pub open spec fn spec_str(self) -> Seq<char> {
        match self {
            DataFlow::NoFlow => "NONE"@,
            DataFlow::In => "IN"@,
            DataFlow::Out => "OUT"@,
            DataFlow::InOut => "INOUT"@,
        }
    }

    /// The data flow as templates write it.
    pub fn as_spec_str(self) -> (s: &'static str)
        ensures
            s@ == self.spec_str(),
    {
        match self {
            DataFlow::NoFlow => "NONE",
            DataFlow::In => "IN",
            DataFlow::Out => "OUT",
            DataFlow::InOut => "INOUT",
        }
    }
}

/// Limits on an integer.
#[derive(Debug)]
pub struct IntBounds {
    pub min: Option<i64>,
    pub max: Option<i64>,
    pub allowed: Option<Vec<i64>>,
}

/// What a contract reads of limits on an integer.
pub struct IntBoundsView {
    pub min: Option<i64>,
    pub max: Option<i64>,
    pub allowed: Option<Seq<i64>>,
}

impl View for IntBounds {
    type V = IntBoundsView;

    open spec fn view(&self) -> IntBoundsView {
        IntBoundsView {
            min: self.min,
            max: self.max,
            allowed: match self.allowed {
                Some(v) => Some(v@),
                None => None,
            },
        }
    }
}

/// Limits on a float.
#[derive(Debug)]
pub struct FloatBounds {
    pub min: Option<FloatNumber>,
    pub max: Option<FloatNumber>,
    pub allowed: Option<Vec<FloatNumber>>,
}

/// What a contract reads of limits on a float.
pub struct FloatBoundsView {
    pub min: Option<NumberView>,
    pub max: Option<NumberView>,
    pub allowed: Option<Seq<NumberView>>,
}

/// The views of a list of numbers.
pub open spec fn numbers(v: Seq<FloatNumber>) -> Seq<NumberView> {
    Seq::new(v.len(), |i: int| v[i]@)
}

/// The bit patterns of a list of numbers.
pub open spec fn bits_of(v: Seq<NumberView>) -> Seq<u64> {
    Seq::new(v.len(), |i: int| v[i].bits)
}

/// The view of a number that may be missing.
pub open spec fn opt_number(n: Option<FloatNumber>) -> Option<NumberView> {
    match n {
        Some(n) => Some(n@),
        None => None,
    }
}

/// The texts of a list of strings that may be missing.
pub open spec fn opt_texts(t: Option<Vec<String>>) -> Option<Seq<Seq<char>>> {
    match t {
        Some(v) => Some(texts(v@)),
        None => None,
    }
}

impl View for FloatBounds {
    type V = FloatBoundsView;

    open spec fn view(&self) -> FloatBoundsView {
        FloatBoundsView {
            min: opt_number(self.min),
            max: opt_number(self.max),
            allowed: match self.allowed {
                Some(v) => Some(numbers(v@)),
                None => None,
            },
        }
    }
}

/// Limits on a length or a count.
#[derive(Debug, Clone, Copy)]
pub struct LengthBounds {
    pub min: Option<usize>,
    pub max: Option<usize>,
}

/// Everything that a parameter definition demands of a value.
#[derive(Debug)]
pub struct Constraints {
    pub ints: IntBounds,
    pub floats: FloatBounds,
    /// The length of a string, or the number of items of a list.
    pub length: LengthBounds,
    pub allowed_texts: Option<Vec<String>>,
    pub item_ints: IntBounds,
    pub item_floats: FloatBounds,
    pub item_length: LengthBounds,
    pub item_allowed_texts: Option<Vec<String>>,
    pub item_item_ints: IntBounds,
}

/// What a contract reads of what a parameter definition demands of a value.
pub struct ConstraintsView {
    pub ints: IntBoundsView,
    pub floats: FloatBoundsView,
    pub length: LengthBounds,
    pub allowed_texts: Option<Seq<Seq<char>>>,
    pub item_ints: IntBoundsView,
    pub item_floats: FloatBoundsView,
    pub item_length: LengthBounds,
    pub item_allowed_texts: Option<Seq<Seq<char>>>,
    pub item_item_ints: IntBoundsView,
}

impl View for Constraints {
    type V = ConstraintsView;

    open spec fn view(&self) -> ConstraintsView {
        ConstraintsView {
            ints: self.ints@,
            floats: self.floats@,
            length: self.length,
            allowed_texts: opt_texts(self.allowed_texts),
            item_ints: self.item_ints@,
            item_floats: self.item_floats@,
            item_length: self.item_length,
            item_allowed_texts: opt_texts(self.item_allowed_texts),
            item_item_ints: self.item_item_ints@,
        }
    }
}

impl IntBoundsView {
    /// No limit.
    pub open spec fn none() -> IntBoundsView {
        IntBoundsView { min: None, max: None, allowed: None }
    }
}

impl FloatBoundsView {
    /// No limit.
    pub open spec fn none() -> FloatBoundsView {
        FloatBoundsView { min: None, max: None, allowed: None }
    }
}

impl ConstraintsView {
    /// No limit on anything.
    pub open spec fn none() -> ConstraintsView {
        ConstraintsView {
            ints: IntBoundsView::none(),
            floats: FloatBoundsView::none(),
            length: LengthBounds { min: None, max: None },
            allowed_texts: None,
            item_ints: IntBoundsView::none(),
            item_floats: FloatBoundsView::none(),
            item_length: LengthBounds { min: None, max: None },
            item_allowed_texts: None,
            item_item_ints: IntBoundsView::none(),
        }
    }
}

impl Constraints {
    /// No limit on anything.
    pub fn none() -> (c: Constraints)
        ensures
            c@ == ConstraintsView::none(),
    {
        Constraints {
            ints: IntBounds { min: None, max: None, allowed: None },
            floats: FloatBounds { min: None, max: None, allowed: None },
            length: LengthBounds { min: None, max: None },
            allowed_texts: None,
            item_ints: IntBounds { min: None, max: None, allowed: None },
            item_floats: FloatBounds { min: None, max: None, allowed: None },
            item_length: LengthBounds { min: None, max: None },
            item_allowed_texts: None,
            item_item_ints: IntBounds { min: None, max: None, allowed: None },
        }
    }
}

/// One parameter as one template defines it.
#[derive(Debug)]
pub struct JobParameterDefinition {
    pub name: String,
    pub param_type: JobParameterType,
    pub default: Option<String>,
    pub object_type: Option<ObjectType>,
    pub data_flow: Option<DataFlow>,
    pub constraints: Constraints,
}

/// What a contract reads of a parameter definition.
pub struct DefinitionView {
    pub name: Seq<char>,
    pub param_type: JobParameterType,
    pub default: Option<Seq<char>>,
    pub object_type: Option<ObjectType>,
    pub data_flow: Option<DataFlow>,
    pub constraints: ConstraintsView,
}

impl View for JobParameterDefinition {
    type V = DefinitionView;

    open spec fn view(&self) -> DefinitionView {
        DefinitionView {
            name: self.name@,
            param_type: self.param_type,
            default: opt_text(self.default),
            object_type: self.object_type,
            data_flow: self.data_flow,
            constraints: self.constraints@,
        }
    }
}

/// A job template.
#[derive(Debug)]
pub struct JobTemplate {
    /// The extensions that the template names.
    pub extensions: Option<Vec<String>>,
    pub parameter_definitions: Option<Vec<JobParameterDefinition>>,
}

/// The environment of an environment template.
#[derive(Debug)]
pub struct Environment {
    pub name: String,
}

/// An environment template.
#[derive(Debug)]
pub struct EnvironmentTemplate {
    pub environment: Environment,
    pub parameter_definitions: Option<Vec<JobParameterDefinition>>,
}

/// Why templates or parameter values were refused.
#[derive(Debug, PartialEq, Eq)]
pub enum ModelError {
    /// Values or constraints that cannot be accepted.
    DecodeValidation(String),
    /// Templates that contradict each other.
    Compatibility(String),
    /// Any other failure, as it prints.
    Other(String),
}

/// What a contract reads of an error.
pub enum ErrorView {
    DecodeValidation(Seq<char>),
    Compatibility(Seq<char>),
    Other(Seq<char>),
}

impl View for ModelError {
    type V = ErrorView;

    open spec fn view(&self) -> ErrorView {
        match self {
            ModelError::DecodeValidation(m) => ErrorView::DecodeValidation(m@),
            ModelError::Compatibility(m) => ErrorView::Compatibility(m@),
            ModelError::Other(m) => ErrorView::Other(m@),
        }
    }
}

/// The text of an error.
pub open spec fn error_text(e: ErrorView) -> Seq<char> {
    match e {
        ErrorView::DecodeValidation(m) => m,
        ErrorView::Compatibility(m) => m,
        ErrorView::Other(m) => m,
    }
}

/// The text of an error.
pub fn model_err_message(e: ModelError) -> (m: String)
    ensures
        m@ == error_text(e@),
{
    match e {
        ModelError::DecodeValidation(msg) => msg,
        ModelError::Compatibility(msg) => msg,
        ModelError::Other(msg) => msg,
    }
}

/// No two object types are written alike, nor two data flows; one that goes both ways is written
/// as both ways behind each other.
pub proof fn written_words_differ(a: ObjectType, b: ObjectType, f: DataFlow, g: DataFlow)
    ensures
        a != b ==> a.spec_str() != b.spec_str(),
        f != g ==> f.spec_str() != g.spec_str(),
        DataFlow::InOut.spec_str() == DataFlow::In.spec_str() + DataFlow::Out.spec_str(),
{
    reveal_strlit("FILE");
    reveal_strlit("DIRECTORY");
    reveal_strlit("NONE");
    reveal_strlit("IN");
    reveal_strlit("OUT");
    reveal_strlit("INOUT");
    assert("INOUT"@ =~= "IN"@ + "OUT"@);
    if a != b {
        assert(a.spec_str().len() != b.spec_str().len());
    }
    if f != g {
        assert(f.spec_str().len() != g.spec_str().len());
    }
}

/// The text of an error is its own, whatever sort of error it is.
pub proof fn errors_keep_their_text(m: Seq<char>)
    ensures
        error_text(ErrorView::DecodeValidation(m)) == m,
        error_text(ErrorView::Compatibility(m)) == m,
        error_text(ErrorView::Other(m)) == m,
{
}

} // verus!
