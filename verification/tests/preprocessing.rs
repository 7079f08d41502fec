use openjd::params::paths::PathFormat;
use openjd::params::preprocess::{
    preprocess_job_parameters, JobParameterInputValues, JobParameterValue, JobParameterValues,
    PathParameterOptions,
};
use openjd::params::readings::{PathReading, Readings};
use openjd::params::symbols::build_symbol_table;
use openjd::params::template::{
    Constraints, Environment, EnvironmentTemplate, JobParameterDefinition, JobTemplate, ModelError,
};
use openjd::params::values::{ExprValue, JobParameterType};

const DIR: &str = "/jobs/one";
const CWD: &str = "/home/user";

fn definition(
    name: &str,
    param_type: JobParameterType,
    default: Option<&str>,
) -> JobParameterDefinition {
    JobParameterDefinition {
        name: name.to_string(),
        param_type,
        default: default.map(|d| d.to_string()),
        object_type: None,
        data_flow: None,
        constraints: Constraints::none(),
    }
}

fn job(params: Vec<JobParameterDefinition>, expr: bool) -> JobTemplate {
    JobTemplate {
        extensions: if expr { Some(vec!["EXPR".to_string()]) } else { None },
        parameter_definitions: Some(params),
    }
}

fn inputs(values: Vec<(&str, ExprValue, &str)>) -> JobParameterInputValues {
    let mut r = JobParameterInputValues::new();
    for (name, value, text) in values {
        r.insert(name.to_string(), value, text.to_string());
    }
    r
}

fn string_input(name: &str, s: &str) -> JobParameterInputValues {
    inputs(vec![(name, ExprValue::String(s.to_string()), s)])
}

/// Readings of POSIX paths.
fn readings(paths: &[&str]) -> Readings {
    let mut r = Readings::new();
    for p in paths.iter().chain([DIR].iter()) {
        let uri = p.contains("://");
        r.paths.put(
            p.to_string(),
            PathReading {
                is_uri: uri,
                is_absolute: uri || p.starts_with('/'),
                in_working_dir: format!("{CWD}/{p}"),
                in_template_dir: format!("{DIR}/{p}"),
            },
        );
    }
    r
}

fn options() -> PathParameterOptions<'static> {
    PathParameterOptions::new(DIR, CWD, PathFormat::Posix)
}

fn refusal(r: Result<JobParameterValues, ModelError>) -> String {
    match r {
        Err(ModelError::DecodeValidation(m)) => m,
        other => panic!("got {other:?}"),
    }
}

fn only_string(r: Result<JobParameterValues, ModelError>) -> String {
    match r.expect("accepted").entries.pop() {
        Some(JobParameterValue { value: ExprValue::String(s), .. }) => s,
        other => panic!("got {other:?}"),
    }
}

#[test]
fn inputs_and_defaults_make_up_the_values() {
    let j = job(
        vec![
            definition("n", JobParameterType::Int, None),
            definition("s", JobParameterType::String, Some("x")),
            definition("l", JobParameterType::ListInt, Some("[1, \"2\"]")),
        ],
        false,
    );
    let given = inputs(vec![("n", ExprValue::String("7".to_string()), "7")]);
    let r = preprocess_job_parameters(&j, &given, &vec![], &options(), &readings(&[]))
        .expect("accepted");
    assert_eq!(r.entries.len(), 3);
    assert_eq!(r.entries[0].name, "n");
    assert!(matches!(r.entries[0].value, ExprValue::Int(7)));
    assert!(matches!(&r.entries[1].value, ExprValue::String(s) if s == "x"));
    assert!(matches!(&r.entries[2].value, ExprValue::ListInt(v) if v == &vec![1, 2]));
    assert_eq!(r.entries[2].param_type, JobParameterType::ListInt);
}

#[test]
fn all_errors_are_reported_in_order() {
    let mut low = definition("low", JobParameterType::Int, None);
    low.constraints.ints.min = Some(5);
    low.constraints.ints.max = Some(4);
    let mut high = definition("high", JobParameterType::Int, None);
    high.constraints.ints.max = Some(4);
    let j = job(
        vec![
            low,
            high,
            definition("word", JobParameterType::Int, None),
            definition("z_missing", JobParameterType::Int, None),
            definition("a_missing", JobParameterType::Int, None),
        ],
        false,
    );
    let given = inputs(vec![
        ("zz", ExprValue::Int(1), "1"),
        ("low", ExprValue::Int(1), "1"),
        ("high", ExprValue::Int(9), "9"),
        ("word", ExprValue::String("x".to_string()), "x"),
        ("extra", ExprValue::Int(1), "1"),
    ]);
    let r = preprocess_job_parameters(&j, &given, &vec![], &options(), &readings(&[]));
    assert_eq!(
        refusal(r),
        [
            "Parameter 'low': merged INT constraints have no valid range (min 5 > max 4)",
            "Parameter 'low': value 1 is less than minimum 5",
            "Parameter 'high': value 9 exceeds maximum 4",
            "Parameter 'word': Value 'x' is not a valid integer or integer string.",
            "Job parameter values provided for parameters that are not defined in the template: \
             extra, zz",
            "Values missing for required job parameters: a_missing, z_missing",
        ]
        .join("\n")
    );
}

#[test]
fn contradicting_templates_are_reported_alone() {
    let envs = vec![EnvironmentTemplate {
        environment: Environment { name: "E".to_string() },
        parameter_definitions: Some(vec![definition("p", JobParameterType::Int, None)]),
    }];
    let j = job(
        vec![
            definition("p", JobParameterType::String, None),
            definition("q", JobParameterType::Int, None),
        ],
        false,
    );
    let r = preprocess_job_parameters(
        &j,
        &JobParameterInputValues::new(),
        &envs,
        &options(),
        &readings(&[]),
    );
    assert!(matches!(r, Err(ModelError::Compatibility(_))));
}

#[test]
fn relative_template_dir_is_refused() {
    let o = PathParameterOptions::new("jobs", CWD, PathFormat::Posix);
    let r = preprocess_job_parameters(
        &job(vec![], false),
        &JobParameterInputValues::new(),
        &vec![],
        &o,
        &readings(&[]),
    );
    assert_eq!(
        refusal(r),
        "The value supplied for the job template dir, jobs, is not an absolute path. It must be \
         absolute to enforce that PATH parameter defaults are always inside the job template dir."
    );
}

#[test]
fn path_defaults_stay_in_the_template_dir() {
    let with = |d: &str, o: &PathParameterOptions| {
        preprocess_job_parameters(
            &job(vec![definition("p", JobParameterType::Path, Some(d))], false),
            &JobParameterInputValues::new(),
            &vec![],
            o,
            &readings(&[d]),
        )
    };
    assert_eq!(only_string(with("./a/../b", &options())), "/jobs/one/b");
    assert_eq!(only_string(with("", &options())), "");
    assert_eq!(
        refusal(with("../one-sibling", &options())),
        "The default value of PATH parameter p references a path outside of the template \
         directory. Walking up from the template directory is not permitted."
    );
    assert_eq!(
        refusal(with("/etc", &options())),
        "The default value of PATH parameter p is an absolute path. Default paths must be \
         relative, and are joined to the job template's directory."
    );
    let mut o = options();
    o.allow_template_dir_walk_up = true;
    assert_eq!(only_string(with("../other", &o)), "/jobs/other");
    assert_eq!(only_string(with("/etc/../x", &o)), "/etc/../x");
    o.job_template_dir = "relative";
    assert_eq!(only_string(with("../other", &o)), "../other");
}

#[test]
fn path_inputs_are_joined_to_the_working_dir() {
    let with = |s: &str, o: &PathParameterOptions, expr: bool| {
        preprocess_job_parameters(
            &job(vec![definition("p", JobParameterType::Path, None)], expr),
            &string_input("p", s),
            &vec![],
            o,
            &readings(&[s]),
        )
    };
    assert_eq!(only_string(with("a/b", &options(), false)), "/home/user/a/b");
    assert_eq!(only_string(with("/a/b", &options(), false)), "/a/b");
    assert_eq!(only_string(with("", &options(), false)), "");
    let mut o = options();
    o.current_working_dir = "";
    assert_eq!(only_string(with("a/b", &o, false)), "a/b");
    // Without EXPR a URI is a relative path like any other.
    assert_eq!(only_string(with("s3://x/y", &options(), false)), "/home/user/s3://x/y");
    assert_eq!(
        refusal(with("s3://x/y", &options(), true)),
        "Parameter 'p': URI path values are not permitted. Got 's3://x/y'"
    );
    let mut o = options();
    o.allow_uri_path_values = true;
    assert_eq!(only_string(with("s3://x/y", &o, true)), "s3://x/y");
    assert_eq!(only_string(with("s3://x/y", &o, false)), "/home/user/s3://x/y");
}

#[test]
fn uri_defaults_go_by_the_options() {
    let with = |o: &PathParameterOptions, expr: bool| {
        preprocess_job_parameters(
            &job(vec![definition("p", JobParameterType::Path, Some("s3://x/y"))], expr),
            &JobParameterInputValues::new(),
            &vec![],
            o,
            &readings(&["s3://x/y"]),
        )
    };
    assert_eq!(
        refusal(with(&options(), true)),
        "Parameter 'p': URI path values are not permitted in defaults. Got 's3://x/y'"
    );
    let mut o = options();
    o.allow_uri_path_values = true;
    assert_eq!(only_string(with(&o, true)), "s3://x/y");
    assert_eq!(only_string(with(&options(), false)), "/jobs/one/s3:/x/y");
    assert_eq!(only_string(with(&o, false)), "/jobs/one/s3:/x/y");
}

#[test]
fn bad_defaults_are_reported() {
    let r = preprocess_job_parameters(
        &job(vec![definition("p", JobParameterType::Bool, Some("maybe"))], false),
        &JobParameterInputValues::new(),
        &vec![],
        &options(),
        &readings(&[]),
    );
    assert_eq!(
        refusal(r),
        "Parameter 'p': Value 'maybe' is not a valid boolean. Accepted: true/false, 1/0, yes/no, \
         on/off."
    );
}

#[test]
fn later_input_for_a_name_replaces_the_earlier() {
    let given = inputs(vec![
        ("a", ExprValue::Int(1), "1"),
        ("b", ExprValue::Int(2), "2"),
        ("a", ExprValue::Int(3), "3"),
    ]);
    assert_eq!(given.entries.len(), 2);
    assert!(matches!(given.entries[0].value, ExprValue::Int(3)));
    assert_eq!(given.position("b"), Some(1));
    assert_eq!(given.position("c"), None);
}

#[test]
fn symbols_leave_out_the_values_of_paths() {
    let entry = |name: &str, param_type, value| JobParameterValue {
        name: name.to_string(),
        param_type,
        value,
    };
    let params = JobParameterValues {
        entries: vec![
            entry("n", JobParameterType::Int, ExprValue::Int(4)),
            entry("p", JobParameterType::Path, ExprValue::Path { value: "/p".to_string() }),
            entry("q", JobParameterType::Path, ExprValue::String("/q".to_string())),
            entry(
                "l",
                JobParameterType::ListPath,
                ExprValue::ListPath(vec!["/a".to_string(), "/b".to_string()]),
            ),
        ],
    };
    let t = build_symbol_table(&params);
    assert!(matches!(t.get("Param.n"), Some(ExprValue::Int(4))));
    assert!(matches!(t.get("RawParam.n"), Some(ExprValue::Int(4))));
    assert!(t.get("Param.p").is_none());
    assert!(t.get("Param.q").is_none());
    assert!(t.get("Param.l").is_none());
    assert!(matches!(t.get("RawParam.p"), Some(ExprValue::String(s)) if s == "/p"));
    assert!(matches!(t.get("RawParam.q"), Some(ExprValue::String(s)) if s == "/q"));
    assert!(
        matches!(t.get("RawParam.l"), Some(ExprValue::ListString(v)) if v == &vec!["/a", "/b"])
    );
    assert!(t.get("n").is_none());
}
