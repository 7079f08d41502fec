//! From input values to the values of a job's parameters.

use vstd::prelude::*;

use crate::params::coerce::{
    coerce_from_str, coerce_to_job_parameter_type, coerced, coerced_has_declared_form,
    coerced_text, text_has_declared_form,
};
use crate::params::constraints::value_complaint;
use crate::params::merge::{
    all_contributions, merge_job_parameter_definitions, merged, merged_names_are_distinct,
    merged_views, unsatisfiable, MergedParameterDefinition, MergedView,
};
use crate::params::paths::{is_within, normalize_path_str, normalized, path_is_within, PathFormat};
use crate::params::readings::Readings;
use crate::params::satisfiable::satisfiable;
use crate::params::template::{
    model_err_message, EnvironmentTemplate, ErrorView, JobTemplate, ModelError,
};
use crate::params::tighten::{accepts, complaint_exactly_when_refused};
use crate::params::values::{matches_type, ExprValue, JobParameterType, ValueView};
use crate::text::{contains_text, join_texts, joined, sort_texts, sorted_texts, str_eq, texts};

verus! {

/// A value given for a parameter.
#[derive(Debug)]
pub struct JobParameterInputValue {
    pub name: String,
    pub value: ExprValue,
    /// The value as text, for reading it as a path.
    pub text: String,
}

/// What a contract reads of a value given for a parameter.
pub struct InputView {
    pub name: Seq<char>,
    pub value: ValueView,
    pub text: Seq<char>,
}

impl View for JobParameterInputValue {
    type V = InputView;

    open spec fn view(&self) -> InputView {
        InputView { name: self.name@, value: self.value@, text: self.text@ }
    }
}

/// The values given for parameters, at most one for a name.
#[derive(Debug)]
pub struct JobParameterInputValues {
    pub entries: Vec<JobParameterInputValue>,
}

impl View for JobParameterInputValues {
    type V = Seq<InputView>;

    open spec fn view(&self) -> Seq<InputView> {
        Seq::new(self.entries@.len(), |i: int| self.entries@[i]@)
    }
}

/// Where the input for a name stands, if there is one.
pub open spec fn input_place(s: Seq<InputView>, name: Seq<char>) -> Option<int>
    decreases s.len(),
{
    if s.len() == 0 {
        None
    } else if s.last().name == name {
        Some(s.len() - 1)
    } else {
        input_place(s.drop_last(), name)
    }
}

proof fn input_place_facts(s: Seq<InputView>, name: Seq<char>)
    ensures
        match input_place(s, name) {
            Some(i) => 0 <= i < s.len() && s[i].name == name,
            None => forall|k: int| 0 <= k < s.len() ==> (#[trigger] s[k]).name != name,
        },
    decreases s.len(),
{
    if s.len() > 0 && s.last().name != name {
        input_place_facts(s.drop_last(), name);
        if input_place(s, name) is None {
            assert forall|k: int| 0 <= k < s.len() implies (#[trigger] s[k]).name != name by {
                if k < s.len() - 1 {
                    assert(s.drop_last()[k].name != name);
                }
            }
        }
    }
}

/// Whether no name has two inputs.
pub open spec fn distinct_inputs(s: Seq<InputView>) -> bool {
    forall|i: int, j: int|
        0 <= i < j < s.len() ==> (#[trigger] s[i]).name != (#[trigger] s[j]).name
}

impl JobParameterInputValues {
    /// Whether no name has two inputs.
    pub open spec fn wf(self) -> bool {
        distinct_inputs(self@)
    }

    /// No inputs.
    pub fn new() -> (r: JobParameterInputValues)
        ensures
            r@ == Seq::<InputView>::empty(),
            r.wf(),
    {
        let r = JobParameterInputValues { entries: Vec::new() };
        assert(r@ =~= Seq::<InputView>::empty());
        r
    }

    /// Give a value for a parameter, in place of one given before.
    pub fn insert(&mut self, name: String, value: ExprValue, text: String)
        requires
            old(self).wf(),
        ensures
            final(self).wf(),
            match input_place(old(self)@, name@) {
                Some(i) => final(self)@ == old(self)@.update(
                    i,
                    InputView { name: name@, value: value@, text: text@ },
                ),
                None => final(self)@ == old(self)@.push(
                    InputView { name: name@, value: value@, text: text@ },
                ),
            },
    {
        let ghost before = self@;
        let entry = JobParameterInputValue { name, value, text };
        let ghost new = entry@;
        proof {
            input_place_facts(before, new.name);
        }
        match self.position(entry.name.as_str()) {
            Some(i) => {
                self.entries.set(i, entry);
                assert(self@ =~= before.update(i as int, new));
                assert forall|a: int, b: int| 0 <= a < b < self@.len() implies (
                #[trigger] self@[a]).name != (#[trigger] self@[b]).name by {
                    assert(before[a].name != before[b].name);
                }
            },
            None => {
                self.entries.push(entry);
                assert(self@ =~= before.push(new));
                assert forall|a: int, b: int| 0 <= a < b < self@.len() implies (
                #[trigger] self@[a]).name != (#[trigger] self@[b]).name by {
                    assert(before[a].name != new.name);
                    if b < before.len() {
                        assert(before[a].name != before[b].name);
                    }
                }
            },
        }
    }

    /// Where the input for a name stands.
    pub fn position(&self, name: &str) -> (r: Option<usize>)
        ensures
            match input_place(self@, name@) {
                Some(i) => r matches Some(k) && k == i && k < self.entries.len(),
                None => r is None,
            },
    {
        let ghost all = self@;
        let mut n: usize = self.entries.len();
        assert(all.take(n as int) =~= all);
        while n > 0
            invariant
                n <= self.entries.len(),
                all == self@,
                input_place(all, name@) == input_place(all.take(n as int), name@),
            decreases n,
        {
            assert(all.take(n as int).drop_last() =~= all.take(n - 1));
            if str_eq(self.entries[n - 1].name.as_str(), name) {
                return Some(n - 1);
            }
            n -= 1;
        }
        None
    }
}

/// The value of a parameter.
#[derive(Debug)]
pub struct JobParameterValue {
    pub name: String,
    pub param_type: JobParameterType,
    pub value: ExprValue,
}

/// What a contract reads of the value of a parameter.
pub struct ParameterView {
    pub name: Seq<char>,
    pub param_type: JobParameterType,
    pub value: ValueView,
}

impl View for JobParameterValue {
    type V = ParameterView;

    open spec fn view(&self) -> ParameterView {
        ParameterView { name: self.name@, param_type: self.param_type, value: self.value@ }
    }
}

/// The values of parameters, in the order of their definitions.
#[derive(Debug)]
pub struct JobParameterValues {
    pub entries: Vec<JobParameterValue>,
}

impl View for JobParameterValues {
    type V = Seq<ParameterView>;

    open spec fn view(&self) -> Seq<ParameterView> {
        Seq::new(self.entries@.len(), |i: int| self.entries@[i]@)
    }
}

/// Whether no name has two values.
pub open spec fn distinct_values(s: Seq<ParameterView>) -> bool {
    forall|i: int, j: int|
        0 <= i < j < s.len() ==> (#[trigger] s[i]).name != (#[trigger] s[j]).name
}

/// How PATH parameters are resolved.
#[derive(Debug)]
pub struct PathParameterOptions<'a> {
    /// The directory that holds the job template. Relative PATH defaults are joined to it.
    pub job_template_dir: &'a str,
    /// The current working directory. Relative PATH inputs are joined to it.
    pub current_working_dir: &'a str,
    /// How path strings are read.
    pub path_format: PathFormat,
    /// If `false`, PATH defaults must be relative and stay in `job_template_dir`. If `true`,
    /// absolute defaults and walking up are permitted.
    pub allow_template_dir_walk_up: bool,
    /// If `true`, URIs in PATH parameters are kept as they are where the EXPR extension is in
    /// use. If `false`, they are refused there. Without EXPR a URI is a relative path like any
    /// other.
    pub allow_uri_path_values: bool,
}

/// What a contract reads of the options.
pub struct OptionsView {
    pub job_template_dir: Seq<char>,
    pub current_working_dir: Seq<char>,
    pub path_format: PathFormat,
    pub allow_template_dir_walk_up: bool,
    pub allow_uri_path_values: bool,
}

impl<'a> View for PathParameterOptions<'a> {
    type V = OptionsView;

    open spec fn view(&self) -> OptionsView {
        OptionsView {
            job_template_dir: self.job_template_dir@,
            current_working_dir: self.current_working_dir@,
            path_format: self.path_format,
            allow_template_dir_walk_up: self.allow_template_dir_walk_up,
            allow_uri_path_values: self.allow_uri_path_values,
        }
    }
}

impl<'a> PathParameterOptions<'a> {
    /// Options with the path format of the host, no walking up and no URIs.
    pub fn new(
        job_template_dir: &'a str,
        current_working_dir: &'a str,
        host: PathFormat,
    ) -> (r: PathParameterOptions<'a>)
        ensures
            r@ == (OptionsView {
                job_template_dir: job_template_dir@,
                current_working_dir: current_working_dir@,
                path_format: host,
                allow_template_dir_walk_up: false,
                allow_uri_path_values: false,
            }),
    {
        PathParameterOptions {
            job_template_dir,
            current_working_dir,
            path_format: host,
            allow_template_dir_walk_up: false,
            allow_uri_path_values: false,
        }
    }
}

/// Whether a template uses the EXPR extension.
pub open spec fn uses_expr(extensions: Option<Vec<String>>) -> bool {
    extensions matches Some(e) && texts(e@).contains("EXPR"@)
}

/// Everything besides definitions and inputs that values depend on.
pub struct Setting {
    pub options: OptionsView,
    pub has_expr: bool,
    pub readings: Readings,
}

/// Whether a path is absolute and no URI.
pub open spec fn absolute_path(s: Seq<char>, at: Setting) -> bool {
    !at.readings.path(s).is_uri && at.readings.path(s).is_absolute
}

/// Whether the directory of the job template is absolute.
pub open spec fn template_dir_is_absolute(at: Setting) -> bool {
    at.readings.path(at.options.job_template_dir).is_absolute
}

/// `Parameter 'name': `, the beginning of a message.
pub open spec fn of_parameter(name: Seq<char>) -> Seq<char> {
    "Parameter '"@ + name + "': "@
}

/// What is coerced for a PATH parameter whose input has the text `s`, or the refusal.
pub open spec fn path_input(
    name: Seq<char>,
    v: ValueView,
    s: Seq<char>,
    at: Setting,
) -> Result<ValueView, Seq<char>> {
    if s.len() > 0 && at.has_expr && at.readings.path(s).is_uri {
        if at.options.allow_uri_path_values {
            Ok(v)
        } else {
            Err(
                of_parameter(name) + "URI path values are not permitted. Got '"@ + s + "'"@,
            )
        }
    } else if s.len() > 0 && !absolute_path(s, at) && at.options.current_working_dir.len() > 0 {
        Ok(ValueView::String(at.readings.path(s).in_working_dir))
    } else {
        Ok(v)
    }
}

/// What becomes of a parameter.
pub enum Outcome {
    /// It has a value.
    Value(ValueView),
    /// It is refused, with a message.
    Refused(Seq<char>),
    /// It has neither an input nor a default.
    Missing,
}

/// What becomes of a parameter with an input.
pub open spec fn input_outcome(m: MergedView, input: InputView, at: Setting) -> Outcome {
    let given = if m.param_type == JobParameterType::Path {
        path_input(m.name, input.value, input.text, at)
    } else {
        Ok(input.value)
    };
    match given {
        Ok(v) => match coerced(v, m.param_type, at.readings) {
            Ok(x) => match value_complaint(m.constraints, m.name, x) {
                Some(c) => Outcome::Refused(c),
                None => Outcome::Value(x),
            },
            Err(e) => Outcome::Refused(of_parameter(m.name) + e),
        },
        Err(e) => Outcome::Refused(e),
    }
}

/// The text that a PATH default stands for, or the refusal.
pub open spec fn path_default(
    name: Seq<char>,
    d: Seq<char>,
    at: Setting,
) -> Result<Seq<char>, Seq<char>> {
    let o = at.options;
    let joined_path = normalized(at.readings.path(d).in_template_dir, o.path_format);
    if at.has_expr && at.readings.path(d).is_uri {
        if o.allow_uri_path_values {
            Ok(d)
        } else {
            Err(
                of_parameter(name) + "URI path values are not permitted in defaults. Got '"@ + d
                    + "'"@,
            )
        }
    } else if absolute_path(d, at) {
        if o.allow_template_dir_walk_up {
            Ok(d)
        } else {
            Err(
                "The default value of PATH parameter "@ + name
                    + " is an absolute path. Default paths must be relative, and are joined to the job template's directory."@,
            )
        }
    } else if !template_dir_is_absolute(at) {
        Ok(d)
    } else if o.allow_template_dir_walk_up || is_within(
        joined_path,
        normalized(o.job_template_dir, o.path_format),
        o.path_format,
    ) {
        Ok(joined_path)
    } else {
        Err(
            "The default value of PATH parameter "@ + name
                + " references a path outside of the template directory. Walking up from the template directory is not permitted."@,
        )
    }
}

/// What becomes of a parameter that takes its default.
pub open spec fn default_outcome(m: MergedView, d: Seq<char>, at: Setting) -> Outcome {
    let given = if m.param_type == JobParameterType::Path && d.len() > 0 {
        path_default(m.name, d, at)
    } else {
        Ok(d)
    };
    match given {
        Ok(s) => match coerced_text(s, m.param_type, at.readings) {
            Ok(x) => Outcome::Value(x),
            Err(e) => Outcome::Refused(of_parameter(m.name) + e),
        },
        Err(e) => Outcome::Refused(e),
    }
}

/// What becomes of a parameter: its input counts before its default.
pub open spec fn parameter_outcome(m: MergedView, inputs: Seq<InputView>, at: Setting) -> Outcome {
    match input_place(inputs, m.name) {
        Some(i) => input_outcome(m, inputs[i], at),
        None => match m.default {
            Some(d) => default_outcome(m, d, at),
            None => Outcome::Missing,
        },
    }
}

/// The messages of parameters whose merged constraints cannot be met.
pub open spec fn unsatisfiable_messages(s: Seq<MergedView>) -> Seq<Seq<char>>
    decreases s.len(),
{
    if s.len() == 0 {
        Seq::empty()
    } else {
        let before = unsatisfiable_messages(s.drop_last());
        match unsatisfiable(s.last()) {
            Some(m) => before.push(m),
            None => before,
        }
    }
}

/// What became of the parameters so far.
pub struct Progress {
    pub values: Seq<ParameterView>,
    pub refusals: Seq<Seq<char>>,
    pub missing: Seq<Seq<char>>,
}

/// What becomes of the parameters, in order.
pub open spec fn progress(s: Seq<MergedView>, inputs: Seq<InputView>, at: Setting) -> Progress
    decreases s.len(),
{
    if s.len() == 0 {
        Progress { values: Seq::empty(), refusals: Seq::empty(), missing: Seq::empty() }
    } else {
        let p = progress(s.drop_last(), inputs, at);
        let m = s.last();
        match parameter_outcome(m, inputs, at) {
            Outcome::Value(v) => Progress {
                values: p.values.push(
                    ParameterView { name: m.name, param_type: m.param_type, value: v },
                ),
                ..p
            },
            Outcome::Refused(e) => Progress { refusals: p.refusals.push(e), ..p },
            Outcome::Missing => Progress { missing: p.missing.push(m.name), ..p },
        }
    }
}

/// The names of merged definitions.
pub open spec fn names_of(s: Seq<MergedView>) -> Seq<Seq<char>> {
    Seq::new(s.len(), |i: int| s[i].name)
}

/// The names of inputs for parameters that are not defined.
pub open spec fn extra_names(inputs: Seq<InputView>, s: Seq<MergedView>) -> Seq<Seq<char>>
    decreases inputs.len(),
{
    if inputs.len() == 0 {
        Seq::empty()
    } else {
        let before = extra_names(inputs.drop_last(), s);
        if names_of(s).contains(inputs.last().name) {
            before
        } else {
            before.push(inputs.last().name)
        }
    }
}

/// One line that lists names in order, or none where there are none.
pub open spec fn listing(what: Seq<char>, names: Seq<Seq<char>>) -> Seq<Seq<char>> {
    if names.len() == 0 {
        Seq::empty()
    } else {
        seq![what + joined(sorted_texts(names), ", "@)]
    }
}

/// All messages about values and definitions, in the order in which they are reported.
pub open spec fn messages(
    s: Seq<MergedView>,
    inputs: Seq<InputView>,
    at: Setting,
) -> Seq<Seq<char>> {
    unsatisfiable_messages(s) + progress(s, inputs, at).refusals + listing(
        "Job parameter values provided for parameters that are not defined in the template: "@,
        extra_names(inputs, s),
    ) + listing(
        "Values missing for required job parameters: "@,
        progress(s, inputs, at).missing,
    )
}

/// The refusal of a template directory that is not absolute.
pub open spec fn relative_template_dir(dir: Seq<char>) -> Seq<char> {
    "The value supplied for the job template dir, "@ + dir
        + ", is not an absolute path. It must be absolute to enforce that PATH parameter defaults are always inside the job template dir."@
}

/// The setting of a job template under given options.
pub open spec fn setting(
    job: JobTemplate,
    options: OptionsView,
    readings: Readings,
) -> Setting {
    Setting { options, has_expr: uses_expr(job.extensions), readings }
}

/// The values of the parameters of a job, or why it has none.
pub open spec fn preprocessed(
    job: JobTemplate,
    inputs: Seq<InputView>,
    envs: Seq<EnvironmentTemplate>,
    options: OptionsView,
    readings: Readings,
) -> Result<Seq<ParameterView>, ErrorView> {
    let at = setting(job, options, readings);
    if !options.allow_template_dir_walk_up && !template_dir_is_absolute(at) {
        Err(ErrorView::DecodeValidation(relative_template_dir(options.job_template_dir)))
    } else {
        match merged(all_contributions(job, envs)) {
            Err(m) => Err(ErrorView::Compatibility(m)),
            Ok(s) => if messages(s, inputs, at).len() > 0 {
                Err(ErrorView::DecodeValidation(joined(messages(s, inputs, at), "\n"@)))
            } else {
                Ok(progress(s, inputs, at).values)
            },
        }
    }
}

/// What becomes of a parameter.
enum Found {
    Value(ExprValue),
    Refused(String),
    Missing,
}

spec fn found(f: Found) -> Outcome {
    match f {
        Found::Value(v) => Outcome::Value(v@),
        Found::Refused(m) => Outcome::Refused(m@),
        Found::Missing => Outcome::Missing,
    }
}

/// `Parameter 'name': ` and more.
fn of_parameter_text(name: &str, more: &str) -> (m: String)
    ensures
        m@ == of_parameter(name@) + more@,
{
    let mut m = "Parameter '".to_owned();
    m.append(name);
    m.append("': ");
    m.append(more);
    m
}

fn find_path_input(
    name: &str,
    input: &JobParameterInputValue,
    options: &PathParameterOptions,
    has_expr: bool,
    readings: &Readings,
) -> (r: Result<ExprValue, String>)
    ensures
        crate::params::coerce::outcome(r) == path_input(
            name@,
            input@.value,
            input@.text,
            Setting { options: options@, has_expr, readings: *readings },
        ),
{
    let s = input.text.as_str();
    let empty: bool = s.is_empty();
    if !empty && has_expr && readings.is_uri(s) {
        if options.allow_uri_path_values {
            return Ok(input.value.copy());
        }
        let mut m = of_parameter_text(name, "URI path values are not permitted. Got '");
        m.append(s);
        m.append("'");
        return Err(m);
    }
    if !empty && !readings.is_absolute_for_format_no_uri(s)
        && !options.current_working_dir.is_empty() {
        return Ok(ExprValue::String(readings.join_to_working_dir(s)));
    }
    Ok(input.value.copy())
}

fn process_input(
    m: &MergedParameterDefinition,
    input: &JobParameterInputValue,
    options: &PathParameterOptions,
    has_expr: bool,
    readings: &Readings,
) -> (r: Found)
    ensures
        found(r) == input_outcome(
            m@,
            input@,
            Setting { options: options@, has_expr, readings: *readings },
        ),
{
    let given = if m.param_type == JobParameterType::Path {
        match find_path_input(m.name.as_str(), input, options, has_expr, readings) {
            Ok(v) => v,
            Err(e) => {
                return Found::Refused(e);
            },
        }
    } else {
        input.value.copy()
    };
    match coerce_to_job_parameter_type(&given, m.param_type, readings) {
        Ok(v) => match m.check_constraints(&v) {
            Ok(_) => Found::Value(v),
            Err(e) => Found::Refused(model_err_message(e)),
        },
        Err(e) => Found::Refused(of_parameter_text(m.name.as_str(), e.as_str())),
    }
}

fn find_path_default(
    name: &str,
    d: &str,
    options: &PathParameterOptions,
    has_expr: bool,
    readings: &Readings,
) -> (r: Result<String, String>)
    ensures
        match path_default(
            name@,
            d@,
            Setting { options: options@, has_expr, readings: *readings },
        ) {
            Ok(s) => r matches Ok(t) && t@ == s,
            Err(s) => r matches Err(t) && t@ == s,
        },
{
    if has_expr && readings.is_uri(d) {
        if options.allow_uri_path_values {
            return Ok(d.to_owned());
        }
        let mut m = of_parameter_text(
            name,
            "URI path values are not permitted in defaults. Got '",
        );
        m.append(d);
        m.append("'");
        return Err(m);
    }
    if readings.is_absolute_for_format_no_uri(d) {
        if options.allow_template_dir_walk_up {
            return Ok(d.to_owned());
        }
        let mut m = "The default value of PATH parameter ".to_owned();
        m.append(name);
        m.append(
            " is an absolute path. Default paths must be relative, and are joined to the job template's directory.",
        );
        return Err(m);
    }
    if !readings.is_absolute_for_format(options.job_template_dir) {
        return Ok(d.to_owned());
    }
    let path = readings.join_for_format(d);
    let normal = normalize_path_str(path.as_str(), options.path_format);
    if options.allow_template_dir_walk_up {
        return Ok(normal);
    }
    let normal_dir = normalize_path_str(options.job_template_dir, options.path_format);
    if path_is_within(normal.as_str(), normal_dir.as_str(), options.path_format) {
        return Ok(normal);
    }
    let mut m = "The default value of PATH parameter ".to_owned();
    m.append(name);
    m.append(
        " references a path outside of the template directory. Walking up from the template directory is not permitted.",
    );
    Err(m)
}

fn process_default(
    m: &MergedParameterDefinition,
    d: &String,
    options: &PathParameterOptions,
    has_expr: bool,
    readings: &Readings,
) -> (r: Found)
    ensures
        found(r) == default_outcome(
            m@,
            d@,
            Setting { options: options@, has_expr, readings: *readings },
        ),
{
    let s = d.as_str();
    let given = if m.param_type == JobParameterType::Path && !s.is_empty() {
        match find_path_default(m.name.as_str(), s, options, has_expr, readings) {
            Ok(t) => t,
            Err(e) => {
                return Found::Refused(e);
            },
        }
    } else {
        d.clone()
    };
    match coerce_from_str(given.as_str(), m.param_type, readings) {
        Ok(v) => Found::Value(v),
        Err(e) => Found::Refused(of_parameter_text(m.name.as_str(), e.as_str())),
    }
}

fn process_parameter(
    m: &MergedParameterDefinition,
    inputs: &JobParameterInputValues,
    options: &PathParameterOptions,
    has_expr: bool,
    readings: &Readings,
) -> (r: Found)
    ensures
        found(r) == parameter_outcome(
            m@,
            inputs@,
            Setting { options: options@, has_expr, readings: *readings },
        ),
{
    match inputs.position(m.name.as_str()) {
        Some(i) => process_input(m, &inputs.entries[i], options, has_expr, readings),
        None => match &m.default {
            Some(d) => process_default(m, d, options, has_expr, readings),
            None => Found::Missing,
        },
    }
}

fn is_defined(defs: &Vec<MergedParameterDefinition>, name: &str) -> (r: bool)
    ensures
        r == names_of(merged_views(defs@)).contains(name@),
{
    let ghost names = names_of(merged_views(defs@));
    let mut i: usize = 0;
    while i < defs.len()
        invariant
            i <= defs.len(),
            names == names_of(merged_views(defs@)),
            forall|k: int| 0 <= k < i ==> #[trigger] names[k] != name@,
        decreases defs.len() - i,
    {
        if str_eq(defs[i].name.as_str(), name) {
            assert(names[i as int] == name@);
            return true;
        }
        i += 1;
    }
    false
}

fn find_extras(
    inputs: &JobParameterInputValues,
    defs: &Vec<MergedParameterDefinition>,
) -> (r: Vec<String>)
    ensures
        texts(r@) == extra_names(inputs@, merged_views(defs@)),
{
    let ghost all = inputs@;
    let ghost s = merged_views(defs@);
    let mut r: Vec<String> = Vec::new();
    let mut i: usize = 0;
    assert(all.take(0) =~= Seq::empty());
    assert(texts(r@) =~= Seq::empty());
    while i < inputs.entries.len()
        invariant
            i <= inputs.entries.len(),
            all == inputs@,
            s == merged_views(defs@),
            texts(r@) == extra_names(all.take(i as int), s),
        decreases inputs.entries.len() - i,
    {
        assert(all.take(i + 1).drop_last() =~= all.take(i as int));
        let name = &inputs.entries[i].name;
        if !is_defined(defs, name.as_str()) {
            let ghost before = r@;
            r.push(name.clone());
            assert(texts(r@) =~= texts(before).push(name@));
        }
        i += 1;
    }
    assert(all.take(all.len() as int) =~= all);
    r
}

fn push_listing(out: &mut Vec<String>, what: &str, names: &Vec<String>)
    ensures
        texts(final(out)@) == texts(old(out)@) + listing(what@, texts(names@)),
{
    let ghost before = out@;
    if names.len() > 0 {
        let mut line = what.to_owned();
        let sorted = sort_texts(names);
        line.append(join_texts(&sorted, ", ").as_str());
        let ghost text = line@;
        out.push(line);
        assert(texts(out@) =~= texts(before).push(text));
    }
    assert(texts(out@) =~= texts(before) + listing(what@, texts(names@)));
}

fn find_unsatisfiable(defs: &Vec<MergedParameterDefinition>) -> (r: Vec<String>)
    ensures
        texts(r@) == unsatisfiable_messages(merged_views(defs@)),
{
    let ghost s = merged_views(defs@);
    let mut r: Vec<String> = Vec::new();
    let mut i: usize = 0;
    assert(s.take(0) =~= Seq::empty());
    assert(texts(r@) =~= Seq::empty());
    while i < defs.len()
        invariant
            i <= defs.len(),
            s == merged_views(defs@),
            texts(r@) == unsatisfiable_messages(s.take(i as int)),
        decreases defs.len() - i,
    {
        assert(s.take(i + 1).drop_last() =~= s.take(i as int));
        if let Err(e) = defs[i].validate_satisfiable() {
            let ghost before = r@;
            let m = model_err_message(e);
            let ghost text = m@;
            r.push(m);
            assert(texts(r@) =~= texts(before).push(text));
        }
        i += 1;
    }
    assert(s.take(s.len() as int) =~= s);
    r
}

/// Preprocess job parameters: validate inputs, fill in defaults, check constraints.
///
/// Errors are collected, so that one bad parameter does not hide another. They are reported
/// together, one to a line, in this order: merged constraints that cannot be met; inputs and
/// defaults that are refused, in the order of the definitions; one line with the inputs for
/// parameters that are not defined; one line with the parameters that have no value.
///
/// A job template directory that is not absolute, and definitions that contradict each other,
/// are reported alone.
pub fn preprocess_job_parameters(
    job_template: &JobTemplate,
    input_values: &JobParameterInputValues,
    environment_templates: &Vec<EnvironmentTemplate>,
    path_options: &PathParameterOptions,
    readings: &Readings,
) -> (r: Result<JobParameterValues, ModelError>)
    ensures
        match preprocessed(
            *job_template,
            input_values@,
            environment_templates@,
            path_options@,
            *readings,
        ) {
            Ok(v) => r matches Ok(values) && values@ == v,
            Err(m) => r matches Err(e) && e@ == m,
        },
{
    let has_expr: bool = match &job_template.extensions {
        Some(e) => contains_text(e, "EXPR"),
        None => false,
    };
    let ghost at = Setting { options: path_options@, has_expr, readings: *readings };
    let ghost inputs = input_values@;
    assert(at == setting(*job_template, path_options@, *readings));
    if !path_options.allow_template_dir_walk_up && !readings.is_absolute_for_format(
        path_options.job_template_dir,
    ) {
        let mut m = "The value supplied for the job template dir, ".to_owned();
        m.append(path_options.job_template_dir);
        m.append(
            ", is not an absolute path. It must be absolute to enforce that PATH parameter defaults are always inside the job template dir.",
        );
        return Err(ModelError::DecodeValidation(m));
    }
    let defs = match merge_job_parameter_definitions(job_template, environment_templates) {
        Ok(v) => v,
        Err(e) => {
            return Err(e);
        },
    };
    let ghost s = merged_views(defs@);
    let mut errors = find_unsatisfiable(&defs);
    let ghost first = texts(errors@);
    let mut values: Vec<JobParameterValue> = Vec::new();
    let mut missing: Vec<String> = Vec::new();
    let mut i: usize = 0;
    proof {
        assert(s.take(0) =~= Seq::empty());
        assert((JobParameterValues { entries: values })@ =~= Seq::empty());
        assert(texts(missing@) =~= Seq::empty());
        assert(texts(errors@) =~= first + Seq::empty());
    }
    while i < defs.len()
        invariant
            i <= defs.len(),
            s == merged_views(defs@),
            inputs == input_values@,
            at == (Setting { options: path_options@, has_expr, readings: *readings }),
            (JobParameterValues { entries: values })@ == progress(
                s.take(i as int),
                inputs,
                at,
            ).values,
            texts(errors@) == first + progress(s.take(i as int), inputs, at).refusals,
            texts(missing@) == progress(s.take(i as int), inputs, at).missing,
        decreases defs.len() - i,
    {
        let param = &defs[i];
        assert(s.take(i + 1).drop_last() =~= s.take(i as int));
        let ghost p = progress(s.take(i as int), inputs, at);
        match process_parameter(param, input_values, path_options, has_expr, readings) {
            Found::Value(v) => {
                let entry = JobParameterValue {
                    name: param.name.clone(),
                    param_type: param.param_type,
                    value: v,
                };
                let ghost view = entry@;
                values.push(entry);
                assert((JobParameterValues { entries: values })@ =~= p.values.push(view));
            },
            Found::Refused(e) => {
                let ghost before = errors@;
                let ghost text = e@;
                errors.push(e);
                assert(texts(errors@) =~= texts(before).push(text));
                assert(texts(errors@) =~= first + p.refusals.push(text));
            },
            Found::Missing => {
                missing.push(param.name.clone());
                assert(texts(missing@) =~= p.missing.push(param.name@));
            },
        }
        i += 1;
    }
    assert(s.take(s.len() as int) =~= s);
    let extras = find_extras(input_values, &defs);
    push_listing(
        &mut errors,
        "Job parameter values provided for parameters that are not defined in the template: ",
        &extras,
    );
    push_listing(&mut errors, "Values missing for required job parameters: ", &missing);
    assert(texts(errors@) == messages(s, inputs, at));
    if errors.len() > 0 {
        return Err(ModelError::DecodeValidation(join_texts(&errors, "\n")));
    }
    Ok(JobParameterValues { entries: values })
}

proof fn progress_facts(s: Seq<MergedView>, inputs: Seq<InputView>, at: Setting)
    ensures
        ({
            let p = progress(s, inputs, at);
            p.refusals.len() == 0 && p.missing.len() == 0 ==> {
                &&& p.values.len() == s.len()
                &&& forall|i: int|
                    0 <= i < s.len() ==> {
                        &&& (#[trigger] p.values[i]).name == s[i].name
                        &&& p.values[i].param_type == s[i].param_type
                        &&& parameter_outcome(s[i], inputs, at) == Outcome::Value(
                            p.values[i].value,
                        )
                    }
            }
        }),
    decreases s.len(),
{
    if s.len() > 0 {
        progress_facts(s.drop_last(), inputs, at);
        let before = progress(s.drop_last(), inputs, at);
        let p = progress(s, inputs, at);
        if p.refusals.len() == 0 && p.missing.len() == 0 {
            assert forall|i: int| 0 <= i < s.len() implies {
                &&& (#[trigger] p.values[i]).name == s[i].name
                &&& p.values[i].param_type == s[i].param_type
                &&& parameter_outcome(s[i], inputs, at) == Outcome::Value(p.values[i].value)
            } by {
                if i < s.len() - 1 {
                    assert(before.values[i] == p.values[i]);
                    assert(s.drop_last()[i] == s[i]);
                }
            }
        }
    }
}

proof fn progress_without_uris(s: Seq<MergedView>, inputs: Seq<InputView>, a: Setting, b: Setting)
    requires
        !a.has_expr,
        b == (Setting {
            options: OptionsView {
                allow_uri_path_values: b.options.allow_uri_path_values,
                ..a.options
            },
            ..a
        }),
    ensures
        progress(s, inputs, a) == progress(s, inputs, b),
    decreases s.len(),
{
    if s.len() > 0 {
        progress_without_uris(s.drop_last(), inputs, a, b);
        assert(parameter_outcome(s.last(), inputs, a) == parameter_outcome(s.last(), inputs, b));
    }
}

/// Without the EXPR extension it makes no difference whether URIs are permitted: two runs that
/// differ in nothing else come to the same.
pub proof fn uri_permission_counts_only_with_expr(
    job: JobTemplate,
    inputs: Seq<InputView>,
    envs: Seq<EnvironmentTemplate>,
    options: OptionsView,
    readings: Readings,
    allow: bool,
)
    requires
        !uses_expr(job.extensions),
    ensures
        preprocessed(
            job,
            inputs,
            envs,
            OptionsView { allow_uri_path_values: allow, ..options },
            readings,
        ) == preprocessed(job, inputs, envs, options, readings),
{
    let other = OptionsView { allow_uri_path_values: allow, ..options };
    if let Ok(s) = merged(all_contributions(job, envs)) {
        progress_without_uris(
            s,
            inputs,
            setting(job, options, readings),
            setting(job, other, readings),
        );
    }
}

/// A value that a parameter is given has the form of its type. One that comes from an input
/// meets all constraints of the merged definition.
pub proof fn given_value_suits_its_parameter(m: MergedView, inputs: Seq<InputView>, at: Setting)
    ensures
        parameter_outcome(m, inputs, at) matches Outcome::Value(v) ==> matches_type(
            v,
            m.param_type,
        ) && (input_place(inputs, m.name) is Some ==> accepts(m.constraints, v)),
{
    if let Outcome::Value(v) = parameter_outcome(m, inputs, at) {
        match input_place(inputs, m.name) {
            Some(i) => {
                let given = if m.param_type == JobParameterType::Path {
                    path_input(m.name, inputs[i].value, inputs[i].text, at)
                } else {
                    Ok(inputs[i].value)
                };
                coerced_has_declared_form(given->Ok_0, m.param_type, at.readings);
                complaint_exactly_when_refused(m.constraints, m.name, v);
            },
            None => {
                let d = m.default->0;
                let given = if m.param_type == JobParameterType::Path && d.len() > 0 {
                    path_default(m.name, d, at)
                } else {
                    Ok(d)
                };
                text_has_declared_form(given->Ok_0, m.param_type, at.readings);
            },
        }
    }
}

/// A job that is accepted has exactly one value for every defined parameter, of that
/// parameter's type and in its form; no input is left over, every input meets the merged
/// constraints, and no parameter's constraints are impossible to meet: some value of its type
/// meets them all.
pub proof fn accepted_job_has_every_value(
    job: JobTemplate,
    inputs: Seq<InputView>,
    envs: Seq<EnvironmentTemplate>,
    options: OptionsView,
    readings: Readings,
)
    requires
        preprocessed(job, inputs, envs, options, readings) is Ok,
    ensures
        ({
            let values = preprocessed(job, inputs, envs, options, readings)->Ok_0;
            let s = merged(all_contributions(job, envs))->Ok_0;
            &&& merged(all_contributions(job, envs)) is Ok
            &&& values.len() == s.len()
            &&& distinct_values(values)
            &&& forall|i: int|
                0 <= i < s.len() ==> {
                    &&& (#[trigger] values[i]).name == s[i].name
                    &&& values[i].param_type == s[i].param_type
                    &&& matches_type(values[i].value, s[i].param_type)
                    &&& input_place(inputs, s[i].name) is Some ==> accepts(
                        s[i].constraints,
                        values[i].value,
                    )
                    &&& unsatisfiable(s[i]) is None
                    &&& satisfiable(s[i].constraints, s[i].param_type)
                }
            &&& forall|k: int|
                0 <= k < inputs.len() ==> names_of(s).contains((#[trigger] inputs[k]).name)
        }),
{
    let c = all_contributions(job, envs);
    let s = merged(c)->Ok_0;
    let at = setting(job, options, readings);
    let p = progress(s, inputs, at);
    assert(messages(s, inputs, at).len() == 0);
    progress_facts(s, inputs, at);
    no_extras_means_all_defined(inputs, s);
    no_message_means_satisfiable(s);
    merged_names_are_distinct(c);
    assert forall|i: int, j: int| 0 <= i < j < p.values.len() implies (#[trigger] p.values[i]).name
        != (#[trigger] p.values[j]).name by {
        assert(s[i].name != s[j].name);
    }
    assert forall|i: int| 0 <= i < s.len() implies {
        &&& (#[trigger] p.values[i]).name == s[i].name
        &&& p.values[i].param_type == s[i].param_type
        &&& matches_type(p.values[i].value, s[i].param_type)
        &&& input_place(inputs, s[i].name) is Some ==> accepts(
            s[i].constraints,
            p.values[i].value,
        )
        &&& unsatisfiable(s[i]) is None
        &&& satisfiable(s[i].constraints, s[i].param_type)
    } by {
        given_value_suits_its_parameter(s[i], inputs, at);
        assert(unsatisfiable(s[i]) is None);
    }
}

proof fn no_extras_means_all_defined(inputs: Seq<InputView>, s: Seq<MergedView>)
    requires
        extra_names(inputs, s).len() == 0,
    ensures
        forall|k: int|
            0 <= k < inputs.len() ==> names_of(s).contains((#[trigger] inputs[k]).name),
    decreases inputs.len(),
{
    if inputs.len() > 0 {
        no_extras_means_all_defined(inputs.drop_last(), s);
        assert forall|k: int| 0 <= k < inputs.len() implies names_of(s).contains(
            (#[trigger] inputs[k]).name,
        ) by {
            if k < inputs.len() - 1 {
                assert(names_of(s).contains(inputs.drop_last()[k].name));
            }
        }
    }
}

proof fn no_message_means_satisfiable(s: Seq<MergedView>)
    requires
        unsatisfiable_messages(s).len() == 0,
    ensures
        forall|i: int| 0 <= i < s.len() ==> unsatisfiable(#[trigger] s[i]) is None,
    decreases s.len(),
{
    if s.len() > 0 {
        no_message_means_satisfiable(s.drop_last());
        assert forall|i: int| 0 <= i < s.len() implies unsatisfiable(#[trigger] s[i]) is None by {
            if i < s.len() - 1 {
                assert(unsatisfiable(s.drop_last()[i]) is None);
            }
        }
    }
}

/// Without permission to walk up, a PATH default that is accepted stands for a path in the
/// normalized template directory, unless it is a URI that the EXPR extension keeps.
pub proof fn accepted_default_lies_in_template_dir(name: Seq<char>, d: Seq<char>, at: Setting)
    requires
        !at.options.allow_template_dir_walk_up,
        template_dir_is_absolute(at),
        !(at.has_expr && at.readings.path(d).is_uri),
    ensures
        path_default(name, d, at) matches Ok(p) ==> is_within(
            p,
            normalized(at.options.job_template_dir, at.options.path_format),
            at.options.path_format,
        ),
{
}

/// Without permission for URIs, no URI passes where the EXPR extension is in use, neither as
/// an input nor as a default.
pub proof fn uris_are_refused_without_permission(
    m: MergedView,
    inputs: Seq<InputView>,
    at: Setting,
)
    requires
        m.param_type == JobParameterType::Path,
        at.has_expr,
        !at.options.allow_uri_path_values,
    ensures
        match input_place(inputs, m.name) {
            Some(i) => inputs[i].text.len() > 0 && at.readings.path(inputs[i].text).is_uri
                ==> parameter_outcome(m, inputs, at) is Refused,
            None => m.default matches Some(d) && d.len() > 0 && at.readings.path(d).is_uri
                ==> parameter_outcome(m, inputs, at) is Refused,
        },
{
}

/// Where there are several errors, each of them is reported.
pub proof fn every_error_is_reported(
    s: Seq<MergedView>,
    inputs: Seq<InputView>,
    at: Setting,
    i: int,
)
    requires
        0 <= i < s.len(),
    ensures
        unsatisfiable(s[i]) matches Some(m) ==> messages(s, inputs, at).contains(m),
        parameter_outcome(s[i], inputs, at) matches Outcome::Refused(m) ==> messages(
            s,
            inputs,
            at,
        ).contains(m),
        parameter_outcome(s[i], inputs, at) is Missing ==> progress(
            s,
            inputs,
            at,
        ).missing.contains(s[i].name),
{
    let u = unsatisfiable_messages(s);
    let p = progress(s, inputs, at);
    let all = messages(s, inputs, at);
    reported_unsatisfiable(s, i);
    reported_refusal(s, inputs, at, i);
    if let Some(m) = unsatisfiable(s[i]) {
        let k = choose|k: int| 0 <= k < u.len() && u[k] == m;
        assert(all[k] == m);
    }
    if let Outcome::Refused(m) = parameter_outcome(s[i], inputs, at) {
        let k = choose|k: int| 0 <= k < p.refusals.len() && p.refusals[k] == m;
        assert(all[u.len() + k] == m);
    }
}

proof fn reported_unsatisfiable(s: Seq<MergedView>, i: int)
    requires
        0 <= i < s.len(),
    ensures
        unsatisfiable(s[i]) matches Some(m) ==> unsatisfiable_messages(s).contains(m),
    decreases s.len(),
{
    let before = unsatisfiable_messages(s.drop_last());
    let all = unsatisfiable_messages(s);
    if let Some(m) = unsatisfiable(s[i]) {
        if i < s.len() - 1 {
            reported_unsatisfiable(s.drop_last(), i);
            let k = choose|k: int| 0 <= k < before.len() && before[k] == m;
            assert(all[k] == m);
        } else {
            assert(all[before.len() as int] == m);
        }
    }
}

proof fn reported_refusal(s: Seq<MergedView>, inputs: Seq<InputView>, at: Setting, i: int)
    requires
        0 <= i < s.len(),
    ensures
        parameter_outcome(s[i], inputs, at) matches Outcome::Refused(m) ==> progress(
            s,
            inputs,
            at,
        ).refusals.contains(m),
        parameter_outcome(s[i], inputs, at) is Missing ==> progress(
            s,
            inputs,
            at,
        ).missing.contains(s[i].name),
    decreases s.len(),
{
    let before = progress(s.drop_last(), inputs, at);
    let p = progress(s, inputs, at);
    if i < s.len() - 1 {
        reported_refusal(s.drop_last(), inputs, at, i);
        if let Outcome::Refused(m) = parameter_outcome(s[i], inputs, at) {
            let k = choose|k: int| 0 <= k < before.refusals.len() && before.refusals[k] == m;
            assert(p.refusals[k] == m);
        }
        if parameter_outcome(s[i], inputs, at) is Missing {
            let k = choose|k: int|
                0 <= k < before.missing.len() && before.missing[k] == s[i].name;
            assert(p.missing[k] == s[i].name);
        }
    } else {
        if let Outcome::Refused(m) = parameter_outcome(s[i], inputs, at) {
            assert(p.refusals[before.refusals.len() as int] == m);
        }
        if parameter_outcome(s[i], inputs, at) is Missing {
            assert(p.missing[before.missing.len() as int] == s[i].name);
        }
    }
}

/// The text of a PATH input that is there, is no URI and is not absolute is joined to the
/// current working directory where there is one, whether or not the EXPR extension is in use.
pub proof fn relative_input_is_joined_to_the_working_dir(
    name: Seq<char>,
    v: ValueView,
    s: Seq<char>,
    at: Setting,
)
    requires
        s.len() > 0,
        !at.readings.path(s).is_uri,
        !at.readings.path(s).is_absolute,
        at.options.current_working_dir.len() > 0,
    ensures
        path_input(name, v, s, at) == Ok::<ValueView, Seq<char>>(
            ValueView::String(at.readings.path(s).in_working_dir),
        ),
        path_input(name, v, s, Setting { has_expr: !at.has_expr, ..at }) == path_input(
            name,
            v,
            s,
            at,
        ),
{
}

/// A PATH input without a text is taken as it is, and so is an absolute path that is no URI, and
/// any path that is no URI where there is no working directory.
pub proof fn other_paths_are_taken_as_they_are(
    name: Seq<char>,
    v: ValueView,
    s: Seq<char>,
    at: Setting,
)
    requires
        s.len() == 0 || (!at.readings.path(s).is_uri && (at.readings.path(s).is_absolute
            || at.options.current_working_dir.len() == 0)),
    ensures
        path_input(name, v, s, at) == Ok::<ValueView, Seq<char>>(v),
{
}

/// A URI that is given for a PATH parameter is kept where the EXPR extension is in use and URIs
/// are permitted, and refused with the name and the URI where they are not. Without the extension
/// it is a relative path like any other.
pub proof fn uris_are_kept_refused_or_joined(
    name: Seq<char>,
    v: ValueView,
    s: Seq<char>,
    at: Setting,
)
    requires
        s.len() > 0,
        at.readings.path(s).is_uri,
    ensures
        at.has_expr && at.options.allow_uri_path_values ==> path_input(name, v, s, at) == Ok::<
            ValueView,
            Seq<char>,
        >(v),
        at.has_expr && !at.options.allow_uri_path_values ==> path_input(name, v, s, at) == Err::<
            ValueView,
            Seq<char>,
        >("Parameter '"@ + name + "': "@ + "URI path values are not permitted. Got '"@ + s + "'"@),
        !at.has_expr && at.options.current_working_dir.len() > 0 ==> path_input(name, v, s, at)
            == Ok::<ValueView, Seq<char>>(ValueView::String(at.readings.path(s).in_working_dir)),
        !at.has_expr && at.options.current_working_dir.len() == 0 ==> path_input(name, v, s, at)
            == Ok::<ValueView, Seq<char>>(v),
{
}

/// A PATH default that is a relative path is joined to the directory of the job template and
/// normalized, where that directory is absolute, and kept as it is where it is not. Where walking
/// up is not permitted, it is refused exactly where it leaves the directory.
pub proof fn relative_default_is_joined_to_the_template_dir(
    name: Seq<char>,
    d: Seq<char>,
    at: Setting,
)
    requires
        !at.readings.path(d).is_uri || !at.has_expr,
        !at.readings.path(d).is_absolute || at.readings.path(d).is_uri,
    ensures
        ({
            let o = at.options;
            let r = path_default(name, d, at);
            let full = normalized(at.readings.path(d).in_template_dir, o.path_format);
            let dir = normalized(o.job_template_dir, o.path_format);
            let dir_is_absolute = at.readings.path(o.job_template_dir).is_absolute;
            &&& !dir_is_absolute ==> r == Ok::<Seq<char>, Seq<char>>(d)
            &&& dir_is_absolute && o.allow_template_dir_walk_up ==> r == Ok::<
                Seq<char>,
                Seq<char>,
            >(full)
            &&& dir_is_absolute && is_within(full, dir, o.path_format) ==> r == Ok::<
                Seq<char>,
                Seq<char>,
            >(full)
            &&& dir_is_absolute && !o.allow_template_dir_walk_up && !is_within(
                full,
                dir,
                o.path_format,
            ) ==> r is Err && ("The default value of PATH parameter "@ + name).is_prefix_of(
                r->Err_0,
            )
        }),
{
    let r = path_default(name, d, at);
    if let Err(m) = r {
        let head = "The default value of PATH parameter "@ + name;
        assert(m.subrange(0, head.len() as int) =~= head);
    }
}

/// An absolute PATH default is kept as it is where walking up is permitted and refused where it
/// is not; a URI is kept, where the EXPR extension is in use, with permission for URIs and
/// refused without.
pub proof fn absolute_defaults_and_uris_need_permission(
    name: Seq<char>,
    d: Seq<char>,
    at: Setting,
)
    ensures
        ({
            let r = path_default(name, d, at);
            let uri = at.readings.path(d).is_uri;
            &&& at.readings.path(d).is_absolute && !uri ==> if at.options.allow_template_dir_walk_up {
                r == Ok::<Seq<char>, Seq<char>>(d)
            } else {
                r is Err && ("The default value of PATH parameter "@ + name).is_prefix_of(r->Err_0)
            }
            &&& at.has_expr && uri ==> if at.options.allow_uri_path_values {
                r == Ok::<Seq<char>, Seq<char>>(d)
            } else {
                r is Err && ("Parameter '"@ + name + "': "@).is_prefix_of(r->Err_0)
            }
        }),
{
    if let Err(m) = path_default(name, d, at) {
        let head = "The default value of PATH parameter "@ + name;
        let other = "Parameter '"@ + name + "': "@;
        if at.has_expr && at.readings.path(d).is_uri {
            assert(m.subrange(0, other.len() as int) =~= other);
        } else {
            assert(m.subrange(0, head.len() as int) =~= head);
        }
    }
}

/// What a parameter gets from an input is the input coerced to its type, by way of the path that
/// it stands for where the parameter is a PATH; it gets nothing where that cannot be had, where
/// it cannot be coerced, or where a constraint is not met.
pub proof fn input_becomes_the_coerced_value(m: MergedView, input: InputView, at: Setting)
    ensures
        ({
            let out = input_outcome(m, input, at);
            let path = path_input(m.name, input.value, input.text, at);
            let given = if m.param_type == JobParameterType::Path && path is Ok {
                path->Ok_0
            } else {
                input.value
            };
            let v = coerced(given, m.param_type, at.readings);
            &&& !(out is Missing)
            &&& m.param_type == JobParameterType::Path && path is Err ==> out == Outcome::Refused(
                path->Err_0,
            )
            &&& m.param_type != JobParameterType::Path || path is Ok ==> (out is Value <==> v is Ok
                && accepts(m.constraints, v->Ok_0))
            &&& out is Value ==> out == Outcome::Value(v->Ok_0)
            &&& (m.param_type != JobParameterType::Path || path is Ok) && v is Err ==> out
                == Outcome::Refused("Parameter '"@ + m.name + "': "@ + v->Err_0)
            &&& (m.param_type != JobParameterType::Path || path is Ok) && v is Ok && !accepts(
                m.constraints,
                v->Ok_0,
            ) ==> value_complaint(m.constraints, m.name, v->Ok_0) == Some(out->Refused_0)
        }),
{
    let path = path_input(m.name, input.value, input.text, at);
    let given = if m.param_type == JobParameterType::Path && path is Ok {
        path->Ok_0
    } else {
        input.value
    };
    if let Ok(x) = coerced(given, m.param_type, at.readings) {
        complaint_exactly_when_refused(m.constraints, m.name, x);
    }
}

/// What a parameter gets from its default is the default read as its type, by way of the path
/// that it stands for where the parameter is a PATH and the default is not empty. Constraints are
/// not asked: with other constraints it would get the same.
pub proof fn default_becomes_the_coerced_text(
    m: MergedView,
    d: Seq<char>,
    at: Setting,
    other: MergedView,
)
    requires
        other.name == m.name,
        other.param_type == m.param_type,
    ensures
        ({
            let out = default_outcome(m, d, at);
            let is_path = m.param_type == JobParameterType::Path && d.len() > 0;
            let path = path_default(m.name, d, at);
            let s = if is_path && path is Ok {
                path->Ok_0
            } else {
                d
            };
            let v = coerced_text(s, m.param_type, at.readings);
            &&& out == default_outcome(other, d, at)
            &&& is_path && path is Err ==> out == Outcome::Refused(path->Err_0)
            &&& (!is_path || path is Ok) && v is Ok ==> out == Outcome::Value(v->Ok_0)
            &&& (!is_path || path is Ok) && v is Err ==> out == Outcome::Refused(
                "Parameter '"@ + m.name + "': "@ + v->Err_0,
            )
        }),
{
}

/// A parameter gets what its input comes to where there is one for its name, whatever default it
/// has; else what its default comes to; and it is missing exactly where it has neither.
pub proof fn input_counts_before_default(
    m: MergedView,
    inputs: Seq<InputView>,
    at: Setting,
    i: int,
)
    requires
        distinct_inputs(inputs),
    ensures
        0 <= i < inputs.len() && inputs[i].name == m.name ==> parameter_outcome(m, inputs, at)
            == input_outcome(m, inputs[i], at),
        (forall|k: int| 0 <= k < inputs.len() ==> (#[trigger] inputs[k]).name != m.name)
            && m.default is Some ==> parameter_outcome(m, inputs, at) == default_outcome(
            m,
            m.default->0,
            at,
        ),
        parameter_outcome(m, inputs, at) is Missing <==> m.default is None && forall|k: int|
            0 <= k < inputs.len() ==> (#[trigger] inputs[k]).name != m.name,
{
    input_place_facts(inputs, m.name);
    if 0 <= i < inputs.len() && inputs[i].name == m.name {
        let p = input_place(inputs, m.name)->0;
        if p < i {
            assert(inputs[p].name != inputs[i].name);
        } else if i < p {
            assert(inputs[i].name != inputs[p].name);
        }
    }
    if let Some(p) = input_place(inputs, m.name) {
        assert(inputs[p].name == m.name);
    }
}

/// The input for a name stands where the last one with that name does; there is none exactly
/// where no input has the name.
pub proof fn last_input_counts(s: Seq<InputView>, name: Seq<char>, i: int)
    ensures
        input_place(s, name) is None <==> forall|k: int|
            0 <= k < s.len() ==> (#[trigger] s[k]).name != name,
        0 <= i < s.len() && s[i].name == name && (forall|k: int|
            i < k < s.len() ==> (#[trigger] s[k]).name != name) ==> input_place(s, name) == Some(i),
    decreases s.len(),
{
    input_place_facts(s, name);
    if s.len() > 0 {
        let front = s.drop_last();
        last_input_counts(front, name, i);
        assert forall|k: int| 0 <= k < front.len() implies #[trigger] front[k] == s[k] by {}
        if 0 <= i < s.len() - 1 && s[i].name == name && (forall|k: int|
            i < k < s.len() ==> (#[trigger] s[k]).name != name) {
            assert(s[s.len() - 1].name != name);
            assert(front[i] == s[i]);
            assert forall|k: int| i < k < front.len() implies (#[trigger] front[k]).name
                != name by {
                assert(s[k].name != name);
            }
        }
        if let Some(p) = input_place(s, name) {
            assert(s[p].name == name);
        }
    }
}

/// The parameters are gone through in order: what becomes of two pieces is what becomes of the
/// first and then what becomes of the second. Of a single parameter it is its value under its
/// own name and type, or its refusal, or its name as missing, and only one of these.
pub proof fn parameters_are_gone_through_in_order(
    a: Seq<MergedView>,
    b: Seq<MergedView>,
    m: MergedView,
    inputs: Seq<InputView>,
    at: Setting,
)
    ensures
        ({
            let p = progress(a, inputs, at);
            let q = progress(b, inputs, at);
            let all = progress(a + b, inputs, at);
            &&& all.values == p.values + q.values
            &&& all.refusals == p.refusals + q.refusals
            &&& all.missing == p.missing + q.missing
        }),
        ({
            let one = progress(seq![m], inputs, at);
            let out = parameter_outcome(m, inputs, at);
            &&& one.values.len() + one.refusals.len() + one.missing.len() == 1
            &&& out is Value ==> one.values.len() == 1 && one.values[0].name == m.name
                && one.values[0].param_type == m.param_type && one.values[0].value == out->Value_0
            &&& out is Refused ==> one.refusals == seq![out->Refused_0]
            &&& out is Missing ==> one.missing == seq![m.name]
        }),
    decreases b.len(),
{
    let nothing = Seq::<MergedView>::empty();
    assert(seq![m].drop_last() =~= nothing);
    let zero = progress(nothing, inputs, at);
    assert(zero.values.len() == 0 && zero.refusals.len() == 0 && zero.missing.len() == 0);
    let one = progress(seq![m], inputs, at);
    match parameter_outcome(m, inputs, at) {
        Outcome::Value(_) => {},
        Outcome::Refused(e) => {
            assert(one.refusals =~= seq![e]);
        },
        Outcome::Missing => {
            assert(one.missing =~= seq![m.name]);
        },
    }
    let p = progress(a, inputs, at);
    let q = progress(b, inputs, at);
    let all = progress(a + b, inputs, at);
    if b.len() == 0 {
        assert(a + b =~= a);
    } else {
        assert((a + b).drop_last() =~= a + b.drop_last());
        parameters_are_gone_through_in_order(a, b.drop_last(), m, inputs, at);
    }
    assert(all.values =~= p.values + q.values);
    assert(all.refusals =~= p.refusals + q.refusals);
    assert(all.missing =~= p.missing + q.missing);
}

/// The inputs for parameters that are not defined are found in order, each under its name; an
/// input is one of them exactly where no definition has its name.
pub proof fn undefined_inputs_are_found_in_order(
    a: Seq<InputView>,
    b: Seq<InputView>,
    input: InputView,
    s: Seq<MergedView>,
)
    ensures
        extra_names(a + b, s) == extra_names(a, s) + extra_names(b, s),
        (exists|i: int| 0 <= i < s.len() && (#[trigger] s[i]).name == input.name) ==> extra_names(
            seq![input],
            s,
        ).len() == 0,
        (forall|i: int| 0 <= i < s.len() ==> (#[trigger] s[i]).name != input.name) ==> extra_names(
            seq![input],
            s,
        ) == seq![input.name],
    decreases b.len(),
{
    assert(seq![input].drop_last() =~= Seq::<InputView>::empty());
    assert(extra_names(seq![input].drop_last(), s) =~= Seq::<Seq<char>>::empty());
    if names_of(s).contains(input.name) {
        let i = choose|i: int| 0 <= i < s.len() && names_of(s)[i] == input.name;
        assert(s[i].name == input.name);
    } else {
        assert forall|i: int| 0 <= i < s.len() implies (#[trigger] s[i]).name != input.name by {
            assert(names_of(s)[i] == s[i].name);
            assert(names_of(s).contains(names_of(s)[i]));
        }
        assert(extra_names(seq![input], s) =~= seq![input.name]);
    }
    if b.len() == 0 {
        assert(a + b =~= a);
    } else {
        assert((a + b).drop_last() =~= a + b.drop_last());
        undefined_inputs_are_found_in_order(a, b.drop_last(), input, s);
    }
    assert(extra_names(a + b, s) =~= extra_names(a, s) + extra_names(b, s));
}

/// What cannot be met is reported in the order of the definitions, for each at most once.
pub proof fn impossible_constraints_are_reported_in_order(
    a: Seq<MergedView>,
    b: Seq<MergedView>,
    m: MergedView,
)
    ensures
        unsatisfiable_messages(a + b) == unsatisfiable_messages(a) + unsatisfiable_messages(b),
        unsatisfiable(m) is None ==> unsatisfiable_messages(seq![m]).len() == 0,
        unsatisfiable(m) is Some ==> unsatisfiable_messages(seq![m]) == seq![unsatisfiable(m)->0],
    decreases b.len(),
{
    assert(seq![m].drop_last() =~= Seq::<MergedView>::empty());
    assert(unsatisfiable_messages(seq![m].drop_last()) =~= Seq::<Seq<char>>::empty());
    if unsatisfiable(m) is Some {
        assert(unsatisfiable_messages(seq![m]) =~= seq![unsatisfiable(m)->0]);
    }
    if b.len() == 0 {
        assert(a + b =~= a);
    } else {
        assert((a + b).drop_last() =~= a + b.drop_last());
        impossible_constraints_are_reported_in_order(a, b.drop_last(), m);
    }
    assert(unsatisfiable_messages(a + b) =~= unsatisfiable_messages(a) + unsatisfiable_messages(b));
}

/// Messages come in a fixed order: what cannot be met first, then what is refused, then one line
/// for all inputs that are not defined, where there are any, and one for all values that are
/// missing, where there are any. Each of these lines names everything that it is about.
pub proof fn messages_come_in_order(s: Seq<MergedView>, inputs: Seq<InputView>, at: Setting)
    ensures
        ({
            let all = messages(s, inputs, at);
            let u = unsatisfiable_messages(s);
            let p = progress(s, inputs, at);
            let extras = extra_names(inputs, s);
            let lines = if extras.len() > 0 && p.missing.len() > 0 {
                2int
            } else if extras.len() > 0 || p.missing.len() > 0 {
                1
            } else {
                0
            };
            let first = u.len() + p.refusals.len();
            &&& all.len() == first + lines
            &&& all.take(u.len() as int) == u
            &&& all.subrange(u.len() as int, first as int) == p.refusals
            &&& extras.len() > 0 ==> all[first as int]
                == "Job parameter values provided for parameters that are not defined in the template: "@
                + joined(sorted_texts(extras), ", "@)
            &&& p.missing.len() > 0 ==> all.last()
                == "Values missing for required job parameters: "@ + joined(
                sorted_texts(p.missing),
                ", "@,
            )
        }),
{
    let all = messages(s, inputs, at);
    let u = unsatisfiable_messages(s);
    let p = progress(s, inputs, at);
    assert(all.take(u.len() as int) =~= u);
    assert(all.subrange(u.len() as int, (u.len() + p.refusals.len()) as int) =~= p.refusals);
}

/// A job is accepted exactly where the template directory is absolute or walking up is permitted,
/// the definitions can be merged, every merged definition can be met, every parameter gets a
/// value, and every input is for a defined parameter.
pub proof fn job_is_accepted_exactly_without_faults(
    job: JobTemplate,
    inputs: Seq<InputView>,
    envs: Seq<EnvironmentTemplate>,
    options: OptionsView,
    readings: Readings,
)
    ensures
        ({
            let at = Setting { options, has_expr: uses_expr(job.extensions), readings };
            let r = preprocessed(job, inputs, envs, options, readings);
            let dir_will_do = options.allow_template_dir_walk_up || readings.path(
                options.job_template_dir,
            ).is_absolute;
            let m = merged(all_contributions(job, envs));
            &&& r is Ok <==> dir_will_do && m is Ok && (forall|i: int|
                0 <= i < m->Ok_0.len() ==> unsatisfiable(#[trigger] m->Ok_0[i]) is None
                    && parameter_outcome(m->Ok_0[i], inputs, at) is Value) && (forall|k: int|
                0 <= k < inputs.len() ==> names_of(m->Ok_0).contains((#[trigger] inputs[k]).name))
            &&& !dir_will_do ==> r is Err && r->Err_0 is DecodeValidation
            &&& dir_will_do && m is Err ==> r == Err::<Seq<ParameterView>, ErrorView>(
                ErrorView::Compatibility(m->Err_0),
            )
            &&& dir_will_do && m is Ok && r is Err ==> r->Err_0 == ErrorView::DecodeValidation(
                joined(messages(m->Ok_0, inputs, at), "\n"@),
            )
        }),
{
    let at = setting(job, options, readings);
    if let Ok(s) = merged(all_contributions(job, envs)) {
        let p = progress(s, inputs, at);
        let all = messages(s, inputs, at);
        messages_come_in_order(s, inputs, at);
        if all.len() == 0 {
            progress_facts(s, inputs, at);
            no_extras_means_all_defined(inputs, s);
            no_message_means_satisfiable(s);
            assert forall|i: int| 0 <= i < s.len() implies unsatisfiable(#[trigger] s[i]) is None
                && parameter_outcome(s[i], inputs, at) is Value by {
                assert(p.values[i].name == s[i].name);
            }
        }
        if (forall|i: int|
            0 <= i < s.len() ==> unsatisfiable(#[trigger] s[i]) is None && parameter_outcome(
                s[i],
                inputs,
                at,
            ) is Value) && (forall|k: int|
            0 <= k < inputs.len() ==> names_of(s).contains((#[trigger] inputs[k]).name)) {
            faultless_has_no_messages(s, inputs, s, at);
        }
    }
}

proof fn faultless_has_no_messages(
    s: Seq<MergedView>,
    inputs: Seq<InputView>,
    defs: Seq<MergedView>,
    at: Setting,
)
    requires
        forall|i: int|
            0 <= i < s.len() ==> unsatisfiable(#[trigger] s[i]) is None && parameter_outcome(
                s[i],
                inputs,
                at,
            ) is Value,
        forall|k: int|
            0 <= k < inputs.len() ==> names_of(defs).contains((#[trigger] inputs[k]).name),
    ensures
        unsatisfiable_messages(s).len() == 0,
        progress(s, inputs, at).refusals.len() == 0,
        progress(s, inputs, at).missing.len() == 0,
        extra_names(inputs, defs).len() == 0,
    decreases s.len(),
{
    all_defined_means_no_extras(inputs, defs);
    if s.len() > 0 {
        let front = s.drop_last();
        assert forall|i: int| 0 <= i < front.len() implies unsatisfiable(#[trigger] front[i])
            is None && parameter_outcome(front[i], inputs, at) is Value by {
            assert(unsatisfiable(s[i]) is None);
        }
        assert(unsatisfiable(s[s.len() - 1]) is None);
        faultless_has_no_messages(front, inputs, defs, at);
    }
}

proof fn all_defined_means_no_extras(inputs: Seq<InputView>, defs: Seq<MergedView>)
    requires
        forall|k: int|
            0 <= k < inputs.len() ==> names_of(defs).contains((#[trigger] inputs[k]).name),
    ensures
        extra_names(inputs, defs).len() == 0,
    decreases inputs.len(),
{
    if inputs.len() > 0 {
        let front = inputs.drop_last();
        assert forall|k: int| 0 <= k < front.len() implies names_of(defs).contains(
            (#[trigger] front[k]).name,
        ) by {
            assert(names_of(defs).contains(inputs[k].name));
        }
        assert(names_of(defs).contains(inputs[inputs.len() - 1].name));
        all_defined_means_no_extras(front, defs);
    }
}

/// The EXPR extension is in use exactly where one of the extensions of a template is named so.
pub proof fn expr_is_in_use_where_it_is_named(e: Vec<String>)
    ensures
        !uses_expr(None),
        uses_expr(Some(e)) <==> exists|i: int| 0 <= i < e@.len() && (#[trigger] e@[i])@ == "EXPR"@,
{
    let all = texts(e@);
    if uses_expr(Some(e)) {
        let i = choose|i: int| 0 <= i < all.len() && all[i] == "EXPR"@;
        assert(e@[i]@ == "EXPR"@);
    }
    if exists|i: int| 0 <= i < e@.len() && (#[trigger] e@[i])@ == "EXPR"@ {
        let i = choose|i: int| 0 <= i < e@.len() && (#[trigger] e@[i])@ == "EXPR"@;
        assert(all[i] == "EXPR"@);
        assert(all.contains(all[i]));
    }
}

/// A template directory that is not absolute is refused by name where walking up is not
/// permitted, whatever else the job holds.
pub proof fn relative_template_dir_is_refused_by_name(
    job: JobTemplate,
    inputs: Seq<InputView>,
    envs: Seq<EnvironmentTemplate>,
    options: OptionsView,
    readings: Readings,
)
    requires
        !options.allow_template_dir_walk_up,
        !readings.path(options.job_template_dir).is_absolute,
    ensures
        ({
            let r = preprocessed(job, inputs, envs, options, readings);
            &&& r is Err
            &&& r->Err_0 is DecodeValidation
            &&& ("The value supplied for the job template dir, "@
                + options.job_template_dir).is_prefix_of(r->Err_0->DecodeValidation_0)
        }),
{
    let m = preprocessed(job, inputs, envs, options, readings)->Err_0->DecodeValidation_0;
    let head = "The value supplied for the job template dir, "@ + options.job_template_dir;
    assert(m.subrange(0, head.len() as int) =~= head);
}

/// Paths are resolved by the options as they are.
pub proof fn options_are_taken_as_they_are<'a>(o: PathParameterOptions<'a>)
    ensures
        o@.job_template_dir == o.job_template_dir@,
        o@.current_working_dir == o.current_working_dir@,
        o@.path_format == o.path_format,
        o@.allow_template_dir_walk_up == o.allow_template_dir_walk_up,
        o@.allow_uri_path_values == o.allow_uri_path_values,
{
}

} // verus!
