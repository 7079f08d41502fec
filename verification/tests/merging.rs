use openjd::params::floats::{Float64, FloatNumber};
use openjd::params::merge::{merge_job_parameter_definitions, MergedParameterDefinition};
use openjd::params::template::{
    model_err_message, Constraints, DataFlow, Environment, EnvironmentTemplate,
    JobParameterDefinition, JobTemplate, LengthBounds, ModelError, ObjectType,
};
use openjd::params::tighten::tighten;
use openjd::params::values::{ExprValue, JobParameterType};

fn number(f: f64) -> FloatNumber {
    FloatNumber { bits: f.to_bits(), shown: f.to_string() }
}

fn float(f: f64) -> ExprValue {
    ExprValue::Float(Float64::new(number(f), f.to_string()).expect("finite"))
}

fn texts(v: &[&str]) -> Vec<String> {
    v.iter().map(|s| s.to_string()).collect()
}

fn definition(name: &str, param_type: JobParameterType) -> JobParameterDefinition {
    JobParameterDefinition {
        name: name.to_string(),
        param_type,
        default: None,
        object_type: None,
        data_flow: None,
        constraints: Constraints::none(),
    }
}

fn environment(name: &str, params: Vec<JobParameterDefinition>) -> EnvironmentTemplate {
    EnvironmentTemplate {
        environment: Environment { name: name.to_string() },
        parameter_definitions: Some(params),
    }
}

fn job(params: Vec<JobParameterDefinition>) -> JobTemplate {
    JobTemplate { extensions: None, parameter_definitions: Some(params) }
}

fn merged(name: &str, param_type: JobParameterType, c: Constraints) -> MergedParameterDefinition {
    MergedParameterDefinition {
        name: name.to_string(),
        param_type,
        default: None,
        object_type: None,
        data_flow: None,
        source: "JobTemplate".to_string(),
        constraints: c,
    }
}

fn complaint(m: &MergedParameterDefinition, v: &ExprValue) -> String {
    match m.check_constraints(v) {
        Err(ModelError::DecodeValidation(s)) => s,
        other => panic!("got {other:?}"),
    }
}

#[test]
fn names_keep_the_order_of_their_first_definition() {
    let envs = vec![environment(
        "E",
        vec![
            definition("b", JobParameterType::Int),
            definition("a", JobParameterType::String),
        ],
    )];
    let j = job(vec![
        definition("c", JobParameterType::Bool),
        definition("b", JobParameterType::Int),
    ]);
    let m = merge_job_parameter_definitions(&j, &envs).expect("merges");
    let names: Vec<&str> = m.iter().map(|p| p.name.as_str()).collect();
    assert_eq!(names, vec!["b", "a", "c"]);
    assert_eq!(m[0].source, "JobTemplate");
    assert_eq!(m[1].source, "EnvironmentTemplate 'E'");
}

#[test]
fn last_default_wins() {
    let mut first = definition("p", JobParameterType::String);
    first.default = Some("first".to_string());
    let mut second = definition("p", JobParameterType::String);
    second.default = Some("second".to_string());
    let third = definition("p", JobParameterType::String);
    let envs = vec![environment("A", vec![first]), environment("B", vec![second])];
    let m = merge_job_parameter_definitions(&job(vec![third]), &envs).expect("merges");
    assert_eq!(m.len(), 1);
    assert_eq!(m[0].default.as_deref(), Some("second"));
}

#[test]
fn different_types_are_an_error() {
    let envs = vec![environment("E", vec![definition("p", JobParameterType::Int)])];
    let j = job(vec![definition("p", JobParameterType::ListInt)]);
    match merge_job_parameter_definitions(&j, &envs) {
        Err(ModelError::Compatibility(m)) => assert_eq!(
            m,
            "Parameter 'p' has conflicting types: 'INT' in EnvironmentTemplate 'E' and \
             'LIST[INT]' in JobTemplate"
        ),
        other => panic!("got {other:?}"),
    }
}

#[test]
fn different_path_properties_are_an_error() {
    let mut a = definition("p", JobParameterType::Path);
    a.object_type = Some(ObjectType::File);
    let mut b = definition("p", JobParameterType::Path);
    b.object_type = Some(ObjectType::Directory);
    match merge_job_parameter_definitions(&job(vec![b]), &vec![environment("E", vec![a])]) {
        Err(ModelError::Compatibility(m)) => assert_eq!(
            m,
            "Parameter 'p' has conflicting objectType: 'FILE' in EnvironmentTemplate 'E' and \
             'DIRECTORY' in JobTemplate"
        ),
        other => panic!("got {other:?}"),
    }
    let mut a = definition("p", JobParameterType::Path);
    a.data_flow = Some(DataFlow::In);
    let mut b = definition("p", JobParameterType::Path);
    b.data_flow = Some(DataFlow::InOut);
    match merge_job_parameter_definitions(&job(vec![b]), &vec![environment("E", vec![a])]) {
        Err(ModelError::Compatibility(m)) => assert_eq!(
            m,
            "Parameter 'p' has conflicting dataFlow: 'IN' in EnvironmentTemplate 'E' and \
             'INOUT' in JobTemplate"
        ),
        other => panic!("got {other:?}"),
    }
}

#[test]
fn path_properties_are_taken_over() {
    let mut a = definition("p", JobParameterType::Path);
    a.object_type = Some(ObjectType::File);
    let mut b = definition("p", JobParameterType::Path);
    b.data_flow = Some(DataFlow::Out);
    let m = merge_job_parameter_definitions(&job(vec![b]), &vec![environment("E", vec![a])])
        .expect("merges");
    assert_eq!(m[0].object_type, Some(ObjectType::File));
    assert_eq!(m[0].data_flow, Some(DataFlow::Out));
}

#[test]
fn constraints_are_tightened() {
    let mut a = Constraints::none();
    a.ints.min = Some(1);
    a.ints.max = Some(10);
    a.ints.allowed = Some(vec![1, 2, 3]);
    a.floats.min = Some(number(0.5));
    a.floats.allowed = Some(vec![number(1.0), number(2.0)]);
    a.length = LengthBounds { min: Some(1), max: Some(9) };
    a.allowed_texts = Some(texts(&["x", "y"]));
    let mut b = Constraints::none();
    b.ints.min = Some(3);
    b.ints.max = Some(7);
    b.ints.allowed = Some(vec![3, 2, 5]);
    b.floats.min = Some(number(0.25));
    b.floats.max = Some(number(4.0));
    b.floats.allowed = Some(vec![number(2.0)]);
    b.length = LengthBounds { min: Some(2), max: None };
    b.allowed_texts = Some(texts(&["y", "z"]));
    b.item_item_ints.min = Some(-1);
    let t = tighten(&a, &b);
    assert_eq!((t.ints.min, t.ints.max), (Some(3), Some(7)));
    assert_eq!(t.ints.allowed, Some(vec![2, 3]));
    assert_eq!(t.floats.min.map(|n| n.shown), Some("0.5".to_string()));
    assert_eq!(t.floats.max.map(|n| n.shown), Some("4".to_string()));
    assert_eq!(t.floats.allowed.map(|v| v.len()), Some(1));
    assert_eq!((t.length.min, t.length.max), (Some(2), Some(9)));
    assert_eq!(t.allowed_texts, Some(texts(&["y"])));
    assert_eq!(t.item_item_ints.min, Some(-1));
}

#[test]
fn zeros_of_different_sign_have_nothing_in_common() {
    let mut a = Constraints::none();
    a.floats.allowed = Some(vec![number(0.0)]);
    let mut b = Constraints::none();
    b.floats.allowed = Some(vec![number(-0.0)]);
    let zero = float(0.0);
    let t = tighten(&a, &b);
    assert!(merged("p", JobParameterType::Float, a).check_constraints(&zero).is_ok());
    assert!(merged("p", JobParameterType::Float, b).check_constraints(&zero).is_ok());
    assert!(merged("p", JobParameterType::Float, t).check_constraints(&zero).is_err());
}

#[test]
fn merged_definition_accepts_what_all_accept() {
    let mut a = definition("p", JobParameterType::Int);
    a.constraints.ints.min = Some(2);
    let mut b = definition("p", JobParameterType::Int);
    b.constraints.ints.allowed = Some(vec![1, 2, 3]);
    let m = merge_job_parameter_definitions(&job(vec![b]), &vec![environment("E", vec![a])])
        .expect("merges");
    for (v, ok) in [(1, false), (2, true), (3, true), (4, false)] {
        assert_eq!(m[0].check_constraints(&ExprValue::Int(v)).is_ok(), ok, "{v}");
    }
}

#[test]
fn scalar_constraints_are_reported() {
    let mut c = Constraints::none();
    c.ints.min = Some(0);
    c.ints.max = Some(5);
    c.ints.allowed = Some(vec![1, 5]);
    let m = merged("n", JobParameterType::Int, c);
    assert_eq!(
        complaint(&m, &ExprValue::Int(-1)),
        "Parameter 'n': value -1 is less than minimum 0"
    );
    assert_eq!(
        complaint(&m, &ExprValue::Int(6)),
        "Parameter 'n': value 6 exceeds maximum 5"
    );
    assert_eq!(
        complaint(&m, &ExprValue::Int(2)),
        "Parameter 'n': value 2 is not in allowed values"
    );
    assert!(m.check_constraints(&ExprValue::Int(5)).is_ok());

    let mut c = Constraints::none();
    c.floats.min = Some(number(0.5));
    c.floats.max = Some(number(2.0));
    c.floats.allowed = Some(vec![number(1.0)]);
    let m = merged("f", JobParameterType::Float, c);
    assert_eq!(complaint(&m, &float(0.25)), "Parameter 'f': value 0.25 is less than minimum 0.5");
    assert_eq!(complaint(&m, &float(3.0)), "Parameter 'f': value 3 exceeds maximum 2");
    assert_eq!(complaint(&m, &float(1.5)), "Parameter 'f': value 1.5 is not in allowed values");
    assert!(m.check_constraints(&float(1.0)).is_ok());
}

#[test]
fn length_of_a_string_is_counted_in_bytes_and_of_an_item_in_characters() {
    let mut c = Constraints::none();
    c.length = LengthBounds { min: Some(2), max: Some(3) };
    c.allowed_texts = Some(texts(&["éa"]));
    let m = merged("s", JobParameterType::String, c);
    assert_eq!(
        complaint(&m, &ExprValue::String("a".to_string())),
        "Parameter 's': value length 1 is less than minimum 2"
    );
    assert_eq!(
        complaint(&m, &ExprValue::String("éé".to_string())),
        "Parameter 's': value length 4 exceeds maximum 3"
    );
    assert_eq!(
        complaint(&m, &ExprValue::Path { value: "ab".to_string() }),
        "Parameter 's': value 'ab' is not in allowed values"
    );
    assert!(m.check_constraints(&ExprValue::String("éa".to_string())).is_ok());

    let mut c = Constraints::none();
    c.item_length = LengthBounds { min: Some(2), max: Some(2) };
    c.item_allowed_texts = Some(texts(&["éé", "ab"]));
    let m = merged("l", JobParameterType::ListString, c);
    assert!(m.check_constraints(&ExprValue::ListString(texts(&["éé", "ab"]))).is_ok());
    assert_eq!(
        complaint(&m, &ExprValue::ListString(texts(&["ab", "é"]))),
        "Parameter 'l': item[1] length 1 is less than minimum 2"
    );
    assert_eq!(
        complaint(&m, &ExprValue::ListPath(texts(&["abc"]))),
        "Parameter 'l': item[0] length 3 exceeds maximum 2"
    );
    assert_eq!(
        complaint(&m, &ExprValue::ListString(texts(&["ab", "cd"]))),
        "Parameter 'l': item[1] value 'cd' is not in allowed values"
    );
}

#[test]
fn list_constraints_are_reported() {
    let mut c = Constraints::none();
    c.length = LengthBounds { min: Some(1), max: Some(3) };
    c.item_ints.min = Some(0);
    c.item_ints.max = Some(9);
    c.item_ints.allowed = Some(vec![0, 1, 2]);
    c.item_floats.max = Some(number(1.0));
    c.item_length = LengthBounds { min: Some(1), max: Some(2) };
    c.item_item_ints.min = Some(0);
    c.item_item_ints.max = Some(9);
    c.item_item_ints.allowed = Some(vec![1]);
    let m = merged("l", JobParameterType::ListInt, c);
    for v in [ExprValue::ListBool(vec![]), ExprValue::ListInt(vec![]), ExprValue::ListList(vec![])]
    {
        assert_eq!(complaint(&m, &v), "Parameter 'l': list length 0 is less than minimum 1");
    }
    assert_eq!(
        complaint(&m, &ExprValue::ListBool(vec![true; 4])),
        "Parameter 'l': list length 4 exceeds maximum 3"
    );
    assert_eq!(
        complaint(&m, &ExprValue::ListInt(vec![0, -1])),
        "Parameter 'l': item[1] value -1 is less than minimum 0"
    );
    assert_eq!(
        complaint(&m, &ExprValue::ListInt(vec![10])),
        "Parameter 'l': item[0] value 10 exceeds maximum 9"
    );
    assert_eq!(
        complaint(&m, &ExprValue::ListInt(vec![1, 2, 3])),
        "Parameter 'l': item[2] value 3 is not in allowed values"
    );
    match float(1.5) {
        ExprValue::Float(f) => assert_eq!(
            complaint(&m, &ExprValue::ListFloat(vec![f])),
            "Parameter 'l': item[0] value 1.5 exceeds maximum 1"
        ),
        other => panic!("got {other:?}"),
    }
    let nested = |v: Vec<Vec<i64>>| {
        ExprValue::ListList(v.into_iter().map(ExprValue::ListInt).collect())
    };
    assert_eq!(
        complaint(&m, &nested(vec![vec![1], vec![]])),
        "Parameter 'l': item[1] length 0 is less than minimum 1"
    );
    assert_eq!(
        complaint(&m, &nested(vec![vec![1, 1, 1]])),
        "Parameter 'l': item[0] length 3 exceeds maximum 2"
    );
    assert_eq!(
        complaint(&m, &nested(vec![vec![1], vec![1, -2]])),
        "Parameter 'l': item[1][1] value -2 is less than minimum 0"
    );
    assert_eq!(
        complaint(&m, &nested(vec![vec![12]])),
        "Parameter 'l': item[0][0] value 12 exceeds maximum 9"
    );
    assert_eq!(
        complaint(&m, &nested(vec![vec![1, 2]])),
        "Parameter 'l': item[0][1] value 2 is not in allowed values"
    );
    assert!(m.check_constraints(&nested(vec![vec![1, 1]])).is_ok());
    assert!(m.check_constraints(&ExprValue::Bool(true)).is_ok());
}

#[test]
fn impossible_constraints_are_reported() {
    let say = |m: MergedParameterDefinition| match m.validate_satisfiable() {
        Err(ModelError::Compatibility(s)) => s,
        other => panic!("got {other:?}"),
    };
    let mut c = Constraints::none();
    c.ints.min = Some(2);
    c.ints.max = Some(1);
    assert_eq!(
        say(merged("p", JobParameterType::Int, c)),
        "Parameter 'p': merged INT constraints have no valid range (min 2 > max 1)"
    );
    let mut c = Constraints::none();
    c.floats.min = Some(number(2.5));
    c.floats.max = Some(number(1.0));
    assert_eq!(
        say(merged("p", JobParameterType::Float, c)),
        "Parameter 'p': merged FLOAT constraints have no valid range (min 2.5 > max 1)"
    );
    let mut c = Constraints::none();
    c.length = LengthBounds { min: Some(3), max: Some(2) };
    assert_eq!(
        say(merged("p", JobParameterType::ListBool, c)),
        "Parameter 'p': merged LIST[BOOL] constraints have no valid length (minLength 3 > \
         maxLength 2)"
    );
    let mut c = Constraints::none();
    c.allowed_texts = Some(vec![]);
    assert_eq!(
        say(merged("p", JobParameterType::Path, c)),
        "Parameter 'p': merged PATH allowedValues have no common values"
    );
    let mut c = Constraints::none();
    c.allowed_texts = Some(texts(&["a"]));
    let mut m = merged("p", JobParameterType::String, c);
    m.default = Some("b".to_string());
    assert_eq!(say(m), "Parameter 'p': default 'b' not in merged allowedValues");
    let mut c = Constraints::none();
    c.ints.allowed = Some(vec![]);
    assert_eq!(
        say(merged("p", JobParameterType::Int, c)),
        "Parameter 'p': merged INT allowedValues have no common values"
    );
    let mut c = Constraints::none();
    c.floats.allowed = Some(vec![]);
    assert_eq!(
        say(merged("p", JobParameterType::Float, c)),
        "Parameter 'p': merged FLOAT allowedValues have no common values"
    );
    assert!(merged("p", JobParameterType::Int, Constraints::none())
        .validate_satisfiable()
        .is_ok());
}

/// The outcome of checking constraints on a parameter `p`.
fn satisfied(t: JobParameterType, set: impl Fn(&mut Constraints)) -> Result<(), ModelError> {
    let mut c = Constraints::none();
    set(&mut c);
    merged("p", t, c).validate_satisfiable()
}

fn no_value(t: JobParameterType) -> Result<(), ModelError> {
    Err(ModelError::Compatibility(format!(
        "Parameter 'p': merged {} constraints have no valid value",
        t.as_spec_str()
    )))
}

#[test]
fn allowed_numbers_must_lie_in_the_range() {
    let t = JobParameterType::Int;
    let r = satisfied(t, |c| {
        c.ints.max = Some(5);
        c.ints.allowed = Some(vec![10]);
    });
    assert_eq!(r, no_value(t));
    let r = satisfied(t, |c| {
        c.ints.min = Some(11);
        c.ints.allowed = Some(vec![10, i64::MIN]);
    });
    assert_eq!(r, no_value(t));
    let r = satisfied(t, |c| {
        c.ints.min = Some(5);
        c.ints.max = Some(5);
        c.ints.allowed = Some(vec![10, 5]);
    });
    assert_eq!(r, Ok(()));

    let t = JobParameterType::Float;
    let r = satisfied(t, |c| {
        c.floats.min = Some(number(0.5));
        c.floats.allowed = Some(vec![number(-1.0), number(0.25)]);
    });
    assert_eq!(r, no_value(t));
    let r = satisfied(t, |c| {
        c.floats.min = Some(number(0.0));
        c.floats.allowed = Some(vec![number(-1.0), number(-0.0)]);
    });
    assert_eq!(r, Ok(()));
    assert_eq!(satisfied(t, |c| c.floats.allowed = Some(vec![number(f64::NAN)])), no_value(t));
}

#[test]
fn float_range_must_hold_a_finite_number() {
    let t = JobParameterType::Float;
    assert_eq!(satisfied(t, |c| c.floats.min = Some(number(f64::INFINITY))), no_value(t));
    assert_eq!(satisfied(t, |c| c.floats.max = Some(number(f64::NEG_INFINITY))), no_value(t));
    let r = satisfied(t, |c| {
        c.floats.min = Some(number(f64::NEG_INFINITY));
        c.floats.max = Some(number(-3.0));
    });
    assert_eq!(r, Ok(()));
    assert_eq!(satisfied(t, |c| c.floats.min = Some(number(f64::MAX))), Ok(()));
}

#[test]
fn allowed_texts_must_have_an_admitted_length() {
    for t in [JobParameterType::String, JobParameterType::Path] {
        let r = satisfied(t, |c| {
            c.length.min = Some(3);
            c.allowed_texts = Some(texts(&["a", "bc"]));
        });
        assert_eq!(r, no_value(t));
        // The length is counted in bytes.
        let r = satisfied(t, |c| {
            c.length.min = Some(3);
            c.allowed_texts = Some(texts(&["a", "b\u{e9}"]));
        });
        assert_eq!(r, Ok(()));
        assert_eq!(satisfied(t, |c| c.length.max = Some(0)), Ok(()));
    }
}

#[test]
fn list_that_needs_items_must_have_one_to_be_made_of() {
    let t = JobParameterType::ListInt;
    let r = satisfied(t, |c| {
        c.item_ints.min = Some(2);
        c.item_ints.max = Some(1);
    });
    assert_eq!(r, Ok(()));
    let r = satisfied(t, |c| {
        c.length.min = Some(1);
        c.item_ints.min = Some(2);
        c.item_ints.max = Some(1);
    });
    assert_eq!(r, no_value(t));

    let t = JobParameterType::ListFloat;
    let r = satisfied(t, |c| {
        c.length.min = Some(1);
        c.item_floats.max = Some(number(1.0));
        c.item_floats.allowed = Some(vec![number(2.0)]);
    });
    assert_eq!(r, no_value(t));

    for t in [JobParameterType::ListString, JobParameterType::ListPath] {
        let r = satisfied(t, |c| {
            c.length.min = Some(1);
            c.item_length.min = Some(2);
            c.item_allowed_texts = Some(texts(&["\u{e9}"]));
        });
        assert_eq!(r, no_value(t));
        let r = satisfied(t, |c| {
            c.length.min = Some(1);
            c.item_length.min = Some(2);
            c.item_length.max = Some(1);
        });
        assert_eq!(r, no_value(t));
        let r = satisfied(t, |c| {
            c.length.min = Some(1);
            c.item_allowed_texts = Some(vec![]);
        });
        assert_eq!(r, no_value(t));
        assert_eq!(satisfied(t, |c| c.item_allowed_texts = Some(vec![])), Ok(()));
    }

    let t = JobParameterType::ListListInt;
    let r = satisfied(t, |c| {
        c.length.min = Some(1);
        c.item_item_ints.allowed = Some(vec![]);
    });
    assert_eq!(r, Ok(()));
    let r = satisfied(t, |c| {
        c.length.min = Some(1);
        c.item_length.min = Some(1);
        c.item_item_ints.allowed = Some(vec![]);
    });
    assert_eq!(r, no_value(t));
    assert_eq!(satisfied(JobParameterType::ListBool, |c| c.length.min = Some(7)), Ok(()));
}

#[test]
fn allowed_values_keep_the_order_of_the_first_list() {
    let mut m = merged("p", JobParameterType::String, Constraints::none());
    let mut d = definition("p", JobParameterType::String);
    d.constraints.allowed_texts = Some(texts(&["c", "a", "b", "a"]));
    d.constraints.ints.allowed = Some(vec![3, 1, 2]);
    m.merge_constraints(&d);
    // What is taken over holds each value once.
    assert_eq!(m.constraints.allowed_texts, Some(texts(&["c", "a", "b"])));

    d.constraints.allowed_texts = Some(texts(&["a", "x", "c"]));
    d.constraints.ints.allowed = None;
    d.constraints.item_item_ints.allowed = Some(vec![9, 8]);
    m.merge_constraints(&d);
    assert_eq!(m.constraints.allowed_texts, Some(texts(&["c", "a"])));
    assert_eq!(m.constraints.ints.allowed, Some(vec![3, 1, 2]));
    assert_eq!(m.constraints.item_item_ints.allowed, Some(vec![9, 8]));

    d.constraints.ints.allowed = Some(vec![2, 3]);
    d.constraints.item_item_ints.allowed = Some(vec![7]);
    d.constraints.floats.allowed = Some(vec![number(2.0), number(1.0), number(3.0)]);
    m.merge_constraints(&d);
    assert_eq!(m.constraints.ints.allowed, Some(vec![3, 2]));
    assert_eq!(m.constraints.item_item_ints.allowed, Some(vec![]));
    d.constraints.floats.allowed = Some(vec![number(1.0), number(2.0)]);
    m.merge_constraints(&d);
    let copy = m.copy();
    assert_eq!(copy.constraints.ints.allowed, m.constraints.ints.allowed);
    assert_eq!(copy.constraints.allowed_texts, m.constraints.allowed_texts);
    let kept: Vec<u64> = m.constraints.floats.allowed.unwrap().iter().map(|n| n.bits).collect();
    assert_eq!(kept, vec![2f64.to_bits(), 1f64.to_bits()]);
}

#[test]
fn merged_lists_hold_integers_and_strings_once() {
    let with = |ints: Vec<i64>, allowed: Vec<String>| {
        let mut d = definition("p", JobParameterType::ListInt);
        d.constraints.item_ints.allowed = Some(ints);
        d.constraints.item_allowed_texts = Some(allowed);
        d.constraints.floats.allowed = Some(vec![number(1.0), number(1.0)]);
        d
    };
    let envs = vec![environment("E", vec![with(vec![2, 1, 2, 3], texts(&["x", "x"]))])];
    let j = job(vec![with(vec![3, 3, 2], texts(&["x"]))]);
    let m = merge_job_parameter_definitions(&j, &envs).expect("merges");
    assert_eq!(m[0].constraints.item_ints.allowed, Some(vec![2, 3]));
    assert_eq!(m[0].constraints.item_allowed_texts, Some(texts(&["x"])));
    // Floats are taken over as they stand.
    assert_eq!(m[0].constraints.floats.allowed.as_ref().unwrap().len(), 2);
}

#[test]
fn source_is_the_last_template_that_defines_the_parameter() {
    let p = || definition("p", JobParameterType::Int);
    let envs = vec![
        environment("A", vec![p()]),
        environment("B", vec![p()]),
        environment("C", vec![definition("q", JobParameterType::Int)]),
    ];
    let m = merge_job_parameter_definitions(&job(vec![]), &envs).expect("merges");
    assert_eq!(m[0].source, "EnvironmentTemplate 'B'");
    assert_eq!(m[1].source, "EnvironmentTemplate 'C'");
}

#[test]
fn definitions_clash_across_others_that_say_nothing() {
    let with = |t: JobParameterType, o: Option<ObjectType>| {
        let mut d = definition("p", t);
        d.object_type = o;
        d
    };
    let path = JobParameterType::Path;
    let envs = vec![
        environment("A", vec![with(path, Some(ObjectType::File))]),
        environment("B", vec![with(path, None)]),
    ];
    let j = job(vec![with(path, Some(ObjectType::Directory))]);
    assert!(matches!(
        merge_job_parameter_definitions(&j, &envs),
        Err(ModelError::Compatibility(_))
    ));
    // Only PATH parameters have an object type.
    let text = JobParameterType::String;
    let envs = vec![environment("A", vec![with(text, Some(ObjectType::File))])];
    let j = job(vec![with(text, Some(ObjectType::Directory))]);
    assert!(merge_job_parameter_definitions(&j, &envs).is_ok());
}

#[test]
fn error_text_is_the_message_of_any_error() {
    assert_eq!(model_err_message(ModelError::DecodeValidation("a".to_string())), "a");
    assert_eq!(model_err_message(ModelError::Compatibility("b".to_string())), "b");
    assert_eq!(model_err_message(ModelError::Other("c".to_string())), "c");
}
