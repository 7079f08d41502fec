use openjd::params::coerce::{
    coerce_from_str, coerce_json_to_job_parameter_type, coerce_to_job_parameter_type,
    json_to_expr_value, make_list, representation_expr_type, ExprType,
};
use openjd::params::floats::{Float64, FloatNumber};
use openjd::params::json::{json_type_name, parse_json, JsonValue};
use openjd::params::readings::{RangeReading, Readings};
use openjd::params::values::{list_element_type, ExprValue, JobParameterType};

fn number(f: f64) -> FloatNumber {
    FloatNumber { bits: f.to_bits(), shown: f.to_string() }
}

fn float(f: f64) -> Float64 {
    Float64::new(number(f), format!("{f:?}")).expect("finite")
}

fn value_of(f: &Float64) -> f64 {
    f64::from_bits(f.number.bits)
}

/// Readings of the integers and literals that the tests use.
fn readings() -> Readings {
    let mut r = Readings::new();
    for i in [0, 1, 2, 42, i64::MAX] {
        r.integers.push((i, float(i as f64)));
    }
    for s in ["1", "2.5", "3.5", "1e3", "0.5", "inf", "NaN"] {
        r.literals.put(s.to_string(), number(s.parse().expect("literal")));
    }
    for f in [0.0, 1.0, 1.5, 3.5] {
        r.float_texts.push((f64::to_bits(f), format!("{f:?}")));
    }
    r.ranges.put("1-5".to_string(), RangeReading::Range);
    r.ranges.put("x".to_string(), RangeReading::Refused("unexpected 'x'".to_string()));
    r
}

fn coerce(json: &str, param_type: JobParameterType) -> Result<ExprValue, String> {
    let value = parse_json(json).expect("test json");
    coerce_json_to_job_parameter_type(&value, param_type, &readings())
}

#[test]
fn coerce_int_to_float_returns_ok() {
    let val = ExprValue::Int(42);
    let result = coerce_to_job_parameter_type(&val, JobParameterType::Float, &readings());
    assert!(result.is_ok(), "int-to-float coercion should succeed");
    match result.unwrap() {
        ExprValue::Float(f) => assert_eq!(value_of(&f), 42.0),
        other => panic!("expected Float, got {other:?}"),
    }
}

#[test]
fn coerce_large_int_to_float_returns_ok() {
    // Large i64 that loses precision as f64 but is still finite
    let val = ExprValue::Int(i64::MAX);
    let result = coerce_to_job_parameter_type(&val, JobParameterType::Float, &readings());
    assert!(result.is_ok(), "large int-to-float coercion should succeed");
}

#[test]
fn list_bool_accepts_every_form_scalar_bool_accepts() {
    // The scalar table is true/false, 1/0, yes/no, on/off, case insensitive. Each
    // of these is a LIST[BOOL] default the spec permits.
    for json in [
        "[true, false]",
        "[1, 0]",
        "[1.0, 0.0]",
        r#"["true", "false"]"#,
        r#"["yes", "no"]"#,
        r#"["on", "off"]"#,
        r#"["1", "0"]"#,
        r#"["TRUE", "False"]"#,
        r#"[true, 1, "yes", 0.0, "off"]"#,
    ] {
        let result = coerce(json, JobParameterType::ListBool);
        let value = result.unwrap_or_else(|e| panic!("{json} rejected: {e}"));
        match value {
            ExprValue::ListBool(_) => {}
            other => panic!("{json} produced {other:?}, expected ListBool"),
        }
    }
}

#[test]
fn list_bool_preserves_each_elements_truth_value() {
    // Coercing the type must not flatten the values: mixed forms keep their sense.
    let value = coerce(r#"[true, 1, "yes", 0.0, "off"]"#, JobParameterType::ListBool)
        .expect("mixed forms should coerce");
    match value {
        ExprValue::ListBool(items) => {
            assert_eq!(items, vec![true, true, true, false, false]);
        }
        other => panic!("expected ListBool, got {other:?}"),
    }
}

#[test]
fn list_bool_still_rejects_a_value_that_is_not_boolean_at_all() {
    let error = coerce(r#"["maybe"]"#, JobParameterType::ListBool)
        .expect_err("'maybe' is not a boolean");
    assert!(
        error.contains("not a valid boolean"),
        "expected the scalar bool diagnostic, got: {error}"
    );
}

#[test]
fn list_int_accepts_int_strings_as_scalar_int_does() {
    match coerce(r#"["1", "2"]"#, JobParameterType::ListInt).expect("int strings") {
        ExprValue::ListInt(items) => assert_eq!(items, vec![1, 2]),
        other => panic!("expected ListInt, got {other:?}"),
    }
}

#[test]
fn list_int_rejects_a_non_integer_element() {
    let error = coerce(r#"["x"]"#, JobParameterType::ListInt).expect_err("'x' is not an int");
    assert!(
        error.contains("not a valid integer"),
        "expected the scalar int diagnostic, got: {error}"
    );
}

#[test]
fn list_float_accepts_ints_and_float_strings() {
    match coerce(r#"[1, "2.5", 3.5]"#, JobParameterType::ListFloat).expect("floats") {
        ExprValue::ListFloat(items) => {
            let values: Vec<f64> = items.iter().map(value_of).collect();
            assert_eq!(values, vec![1.0, 2.5, 3.5]);
        }
        other => panic!("expected ListFloat, got {other:?}"),
    }
}

#[test]
fn list_float_rejects_a_non_numeric_element() {
    // Same shape as the LIST[INT] and LIST[BOOL] rejection tests: the element gets the
    // scalar type's diagnostic, so a list is no more permissive than its element type.
    let err = coerce(r#"[1.0, "abc"]"#, JobParameterType::ListFloat)
        .expect_err("\"abc\" is not a float and must be refused");
    assert!(
        err.contains("float"),
        "expected the scalar float diagnostic, got: {err}"
    );
}

#[test]
fn list_string_and_list_path_take_strings_unchanged() {
    for param_type in [JobParameterType::ListString, JobParameterType::ListPath] {
        match coerce(r#"["a", "b"]"#, param_type).expect("strings") {
            ExprValue::ListString(items) => assert_eq!(items, vec!["a", "b"]),
            other => panic!("expected ListString for {param_type:?}, got {other:?}"),
        }
    }
}

#[test]
fn list_list_int_recurses_to_its_leaves() {
    // LIST[LIST[INT]] has to coerce two levels down, which is why the element type
    // is threaded through the recursion rather than special-cased.
    match coerce(r#"[["1", 2], [3]]"#, JobParameterType::ListListInt).expect("nested") {
        ExprValue::ListList(items) => {
            assert_eq!(items.len(), 2);
            match &items[0] {
                ExprValue::ListInt(inner) => assert_eq!(*inner, vec![1, 2]),
                other => panic!("expected inner ListInt, got {other:?}"),
            }
        }
        other => panic!("expected ListList, got {other:?}"),
    }
}

#[test]
fn a_list_lands_in_the_same_variant_whether_or_not_it_is_empty() {
    for (param_type, populated) in [
        (JobParameterType::ListString, r#"["a"]"#),
        (JobParameterType::ListPath, r#"["/tmp/a"]"#),
        (JobParameterType::ListInt, "[1]"),
        (JobParameterType::ListFloat, "[1.5]"),
        (JobParameterType::ListBool, "[true]"),
        (JobParameterType::ListListInt, "[[1]]"),
    ] {
        let full = coerce(populated, param_type)
            .unwrap_or_else(|e| panic!("{populated} rejected for {param_type:?}: {e}"));
        let empty = coerce("[]", param_type)
            .unwrap_or_else(|e| panic!("[] rejected for {param_type:?}: {e}"));
        assert_eq!(
            std::mem::discriminant(&full),
            std::mem::discriminant(&empty),
            "{param_type:?} is a {full:?} when populated but a {empty:?} when empty"
        );
    }
}

#[test]
fn a_scalar_under_a_list_type_is_refused() {
    // A list type needs a list. Nothing downstream checks this, so a value that parses as a
    // JSON scalar has to be refused here or it survives as a value contradicting its own type.
    for (json, param_type, expected_got) in [
        ("5", JobParameterType::ListInt, "a number"),
        ("true", JobParameterType::ListBool, "a boolean"),
        (r#""abc""#, JobParameterType::ListString, "a string"),
        ("1.5", JobParameterType::ListFloat, "a number"),
        (r#""/tmp""#, JobParameterType::ListPath, "a string"),
        ("7", JobParameterType::ListListInt, "a number"),
    ] {
        let err = coerce(json, param_type).expect_err(&format!(
            "{json} must be refused for {param_type:?}, which needs a list"
        ));
        assert!(
            err.contains("is not a list") && err.contains(expected_got),
            "{json} for {param_type:?} gave an unhelpful diagnostic: {err}"
        );
    }
}

#[test]
fn empty_list_is_accepted_for_every_list_type() {
    // An empty list has no elements to infer from, so the declared element type is
    // the only thing that can type it. Assert the variant rather than just is_ok():
    // an untyped ListList parses too, and would hide a LIST[T] that is not a list of T.
    for param_type in [
        JobParameterType::ListString,
        JobParameterType::ListPath,
        JobParameterType::ListInt,
        JobParameterType::ListFloat,
        JobParameterType::ListBool,
        JobParameterType::ListListInt,
    ] {
        let value = coerce("[]", param_type)
            .unwrap_or_else(|e| panic!("empty list rejected for {param_type:?}: {e}"));
        let typed = match (&value, param_type) {
            (ExprValue::ListString(v), JobParameterType::ListString) => v.is_empty(),
            // LIST[PATH] is a ListString: PATH is represented as a string, so
            // this is the variant a non-empty list of PATH elements produces.
            (ExprValue::ListString(v), JobParameterType::ListPath) => v.is_empty(),
            (ExprValue::ListInt(v), JobParameterType::ListInt) => v.is_empty(),
            (ExprValue::ListFloat(v), JobParameterType::ListFloat) => v.is_empty(),
            (ExprValue::ListBool(v), JobParameterType::ListBool) => v.is_empty(),
            (ExprValue::ListList(v), JobParameterType::ListListInt) => v.is_empty(),
            _ => false,
        };
        assert!(
            typed,
            "empty list for {param_type:?} arrived as {value:?}, which does not carry \
             the declared element type"
        );
    }
}

#[test]
fn scalar_bool_accepts_the_same_numeric_forms_as_list_bool() {
    for (value, expected) in [
        (ExprValue::Int(1), true),
        (ExprValue::Int(0), false),
        (ExprValue::Float(float(1.0)), true),
        (ExprValue::Float(float(0.0)), false),
    ] {
        let got = coerce_to_job_parameter_type(&value, JobParameterType::Bool, &readings())
            .unwrap_or_else(|e| panic!("{value:?} rejected for scalar BOOL: {e}"));
        match got {
            ExprValue::Bool(b) => {
                assert_eq!(b, expected, "{value:?} coerced to the wrong boolean")
            }
            other => panic!("{value:?} coerced to {other:?}"),
        }
    }

    // Only 1 and 0 are admitted. Anything else falls through to the same refusal
    // as before, so this is not a blanket numeric-to-bool conversion.
    for value in [
        ExprValue::Int(2),
        ExprValue::Int(-1),
        ExprValue::Float(float(0.5)),
        ExprValue::Float(float(2.0)),
    ] {
        assert!(
            coerce_to_job_parameter_type(&value, JobParameterType::Bool, &readings()).is_err(),
            "{value:?} is not a boolean and must be refused for scalar BOOL"
        );
    }
}

#[test]
fn scalar_types_take_the_untyped_element_path() {
    // list_element_type returns None for them, so they skip the element recursion
    // entirely and go straight to the declared type's own coercion.
    assert!(list_element_type(JobParameterType::Bool).is_none());
    assert!(list_element_type(JobParameterType::Int).is_none());
    assert!(list_element_type(JobParameterType::Float).is_none());
    assert!(list_element_type(JobParameterType::String).is_none());
    assert!(list_element_type(JobParameterType::Path).is_none());
    assert!(list_element_type(JobParameterType::RangeExpr).is_none());
}

#[test]
fn every_list_type_has_an_element_type() {
    // Pin the whole set: a list type added without a mapping falls back to the
    // untyped path, where its elements silently keep their JSON types.
    for (param_type, expected) in [
        (JobParameterType::ListString, JobParameterType::String),
        (JobParameterType::ListPath, JobParameterType::Path),
        (JobParameterType::ListInt, JobParameterType::Int),
        (JobParameterType::ListFloat, JobParameterType::Float),
        (JobParameterType::ListBool, JobParameterType::Bool),
        (JobParameterType::ListListInt, JobParameterType::ListInt),
    ] {
        assert_eq!(
            list_element_type(param_type),
            Some(expected),
            "{param_type:?} must declare its element type"
        );
    }
}

#[test]
fn float_without_fraction_becomes_an_int() {
    for (f, expected) in [
        (3.0, 3),
        (-0.0, 0),
        (-9223372036854775808.0, i64::MIN),
        (9007199254740993.0, 9007199254740992),
        (1e15, 1_000_000_000_000_000),
    ] {
        match coerce_to_job_parameter_type(
            &ExprValue::Float(float(f)),
            JobParameterType::Int,
            &readings(),
        ) {
            Ok(ExprValue::Int(i)) => assert_eq!(i, expected, "{f}"),
            other => panic!("{f} gave {other:?}"),
        }
    }
}

#[test]
fn float_with_fraction_or_out_of_range_is_no_int() {
    for f in [2.5, 9223372036854775808.0, -9223372036854777856.0, 5e-324, 1e300] {
        let e = coerce_to_job_parameter_type(
            &ExprValue::Float(float(f)),
            JobParameterType::Int,
            &readings(),
        )
        .expect_err("not an integer");
        assert_eq!(e, format!("Value '{f:?}' is not a valid integer or integer string."));
    }
}

#[test]
fn each_scalar_refusal_says_why() {
    let r = readings();
    let from = |s: &str, t| coerce_from_str(s, t, &r).map(|_| ()).expect_err("refused");
    assert_eq!(
        from("1.5", JobParameterType::Int),
        "Value '1.5' is not a valid integer or integer string."
    );
    assert_eq!(from("abc", JobParameterType::Float), "Value 'abc' is not a valid float.");
    assert_eq!(from("inf", JobParameterType::Float), "Value 'inf' is not a valid float.");
    assert_eq!(from("NaN", JobParameterType::Float), "Value 'NaN' is not a valid float.");
    assert_eq!(
        from("2", JobParameterType::Bool),
        "Value '2' is not a valid boolean. Accepted: true/false, 1/0, yes/no, on/off."
    );
    assert_eq!(
        from("x", JobParameterType::RangeExpr),
        "Value 'x' is not a valid range expression: unexpected 'x'"
    );
    assert_eq!(
        from("[1", JobParameterType::ListInt),
        "Value '[1' is not valid JSON for a list parameter."
    );
    assert_eq!(
        from("{}", JobParameterType::ListInt),
        "Value is not a list for parameter type LIST[INT]. Got an object."
    );
    assert_eq!(
        from("[null]", JobParameterType::ListInt),
        "Unexpected null in parameter value. List elements must be strings, integers, floats, \
         or booleans."
    );
    assert_eq!(
        from("[{}]", JobParameterType::ListInt),
        "Unexpected JSON object in parameter value. List elements must be strings, integers, \
         floats, or booleans."
    );
}

#[test]
fn list_value_cannot_become_a_scalar() {
    let v = ExprValue::ListInt(vec![1]);
    let e = coerce_to_job_parameter_type(&v, JobParameterType::Int, &readings());
    assert_eq!(e.expect_err("refused"), "Cannot coerce list[int] to INT");
    // A typed list of another element type is refused too.
    let e = coerce_to_job_parameter_type(&v, JobParameterType::ListFloat, &readings());
    assert_eq!(e.expect_err("refused"), "Cannot coerce list[int] to LIST[FLOAT]");
}

#[test]
fn integer_without_float_reading_is_refused() {
    let e = coerce_to_job_parameter_type(
        &ExprValue::Int(-7),
        JobParameterType::Float,
        &Readings::new(),
    );
    assert_eq!(e.expect_err("refused"), "Cannot represent integer -7 as a finite float");
}

#[test]
fn texts_are_read_by_their_type() {
    let r = readings();
    assert!(matches!(
        coerce_from_str("-42", JobParameterType::Int, &r),
        Ok(ExprValue::Int(-42))
    ));
    match coerce_from_str("1e3", JobParameterType::Float, &r) {
        Ok(ExprValue::Float(f)) => {
            assert_eq!(value_of(&f), 1000.0);
            assert_eq!(f.text, "1e3");
        }
        other => panic!("got {other:?}"),
    }
    match coerce_from_str("1-5", JobParameterType::RangeExpr, &r) {
        Ok(ExprValue::RangeExpr(range)) => assert_eq!(range.text, "1-5"),
        other => panic!("got {other:?}"),
    }
    match coerce_from_str("/tmp", JobParameterType::Path, &r) {
        Ok(ExprValue::String(s)) => assert_eq!(s, "/tmp"),
        other => panic!("got {other:?}"),
    }
}

#[test]
fn matching_value_comes_back_as_it_is() {
    let v = ExprValue::Float(
        Float64::new(number(2.5), "2.50".to_string()).expect("finite"),
    );
    match coerce_to_job_parameter_type(&v, JobParameterType::Float, &readings()) {
        Ok(ExprValue::Float(f)) => assert_eq!(f.text, "2.50"),
        other => panic!("got {other:?}"),
    }
}

#[test]
fn numbers_become_strings_by_their_text() {
    match coerce("[1, 1.5, true]", JobParameterType::ListString) {
        Ok(ExprValue::ListString(v)) => assert_eq!(v, vec!["1", "1.5", "true"]),
        other => panic!("got {other:?}"),
    }
}

#[test]
fn json_is_read_by_its_own_form() {
    let r = readings();
    match parse_json("[1, 2.5, 18446744073709551615, \"s\", null, {\"a\": 1}, [false]]") {
        Some(JsonValue::Array(items)) => {
            match &items[0] {
                JsonValue::Number(n) => {
                    assert_eq!(n.int, Some(1));
                    assert_eq!(n.text, "1");
                    assert_eq!(n.float.as_ref().map(|f| f.bits), Some(1.0f64.to_bits()));
                }
                other => panic!("got {other:?}"),
            }
            match &items[1] {
                JsonValue::Number(n) => {
                    assert_eq!(n.int, None);
                    let f = n.float.as_ref().expect("float");
                    assert_eq!(f.bits, 2.5f64.to_bits());
                    assert_eq!(f.shown, "2.5");
                }
                other => panic!("got {other:?}"),
            }
            match &items[2] {
                JsonValue::Number(n) => {
                    assert_eq!(n.int, None);
                    assert_eq!(n.text, "18446744073709551615");
                    assert_eq!(
                        n.float.as_ref().map(|f| f.bits),
                        Some((u64::MAX as f64).to_bits())
                    );
                }
                other => panic!("got {other:?}"),
            }
            let names: Vec<&str> = items.iter().map(json_type_name).collect();
            assert_eq!(
                names,
                vec![
                    "a number", "a number", "a number", "a string", "null", "an object", "a list"
                ]
            );
            match json_to_expr_value(&items[2], &r) {
                Ok(ExprValue::Float(f)) => assert_eq!(f.text, "18446744073709552000"),
                other => panic!("got {other:?}"),
            }
        }
        other => panic!("got {other:?}"),
    }
    assert!(parse_json("[1,]").is_none());
}

#[test]
fn lists_take_the_form_of_their_elements() {
    let mixed = make_list(vec![ExprValue::Int(1), ExprValue::Bool(true)], ExprType::NullType);
    assert_eq!(mixed.expect_err("mixed"), "list elements are not all of one type");
    assert!(matches!(
        make_list(Vec::new(), ExprType::NullType),
        Ok(ExprValue::ListList(v)) if v.is_empty()
    ));
    assert!(matches!(
        make_list(vec![ExprValue::Path { value: "a".to_string() }], ExprType::NullType),
        Ok(ExprValue::ListPath(v)) if v == vec!["a"]
    ));
    assert_eq!(representation_expr_type(JobParameterType::Path), ExprType::String);
    assert_eq!(representation_expr_type(JobParameterType::Bool), ExprType::Bool);
}
