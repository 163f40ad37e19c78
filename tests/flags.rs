use gflags_rs::flag::Flag;
use gflags_rs::number::{is_double_literal, parse_i32, parse_i64, parse_u64, render_i64, render_u64};
use gflags_rs::parse::{parse, ErrorKind, ParseOutcome};
use gflags_rs::registry::{Registry, RegistryError};
use gflags_rs::value::{FlagValue, VariantMismatch};

fn args(items: &[&str]) -> Vec<String> {
    items.iter().map(|s| s.to_string()).collect()
}

fn registry_with(flags: Vec<Flag>) -> Registry {
    let mut r = Registry::new();
    for f in flags {
        assert!(r.register(f).is_ok());
    }
    r
}

fn verbose_registry() -> Registry {
    registry_with(vec![Flag::new("verbose", "Prints more.", FlagValue::Bool(false))])
}

fn count_registry() -> Registry {
    registry_with(vec![Flag::new("count", "How many.", FlagValue::Int32(0))])
}

fn parsed(outcome: &ParseOutcome) -> &Vec<Option<FlagValue>> {
    match outcome {
        ParseOutcome::Parsed(v) => v,
        other => panic!("expected values, got {:?}", other),
    }
}

fn failure(outcome: &ParseOutcome) -> (ErrorKind, String) {
    match outcome {
        ParseOutcome::Failed(e) => (e.kind, e.flag.clone()),
        other => panic!("expected a failure, got {:?}", other),
    }
}

#[test]
fn help_message_of_each_type() {
    let b = Flag::new("verbose", "Prints more.", FlagValue::Bool(false));
    assert_eq!(b.help_message(), "--verbose=false\n\tPrints more.");
    let i = Flag::new("wait", "Seconds to wait.", FlagValue::Int32(-4));
    assert_eq!(i.help_message(), "--wait=-4\n\tSeconds to wait.");
    let l = Flag::new("big", "A big one.", FlagValue::Int64(i64::MIN));
    assert_eq!(l.help_message(), "--big=-9223372036854775808\n\tA big one.");
    let u = Flag::new("size", "A size.", FlagValue::Uint64(1024));
    assert_eq!(u.help_message(), "--size=1024\n\tA size.");
    let d = Flag::new("ratio", "A ratio.", FlagValue::Double("0.5".to_string()));
    assert_eq!(d.help_message(), "--ratio=0.5\n\tA ratio.");
    let s = Flag::new("foo", "A flag", FlagValue::String("__default".to_string()));
    assert_eq!(s.help_message(), "--foo=\"__default\"\n\tA flag");
}

#[test]
fn boolean_flag_on_off_and_unset() {
    let mut r = verbose_registry();
    let out = parse(&mut r, "1.0", &args(&["prog", "--verbose"]));
    assert_eq!(parsed(&out), &vec![Some(FlagValue::Bool(true))]);
    assert_eq!(r.all()[0].parsed_value, Some(FlagValue::Bool(true)));

    let mut r = verbose_registry();
    let out = parse(&mut r, "1.0", &args(&["prog", "--noverbose"]));
    assert_eq!(parsed(&out), &vec![Some(FlagValue::Bool(false))]);

    let mut r = verbose_registry();
    let out = parse(&mut r, "1.0", &args(&["prog"]));
    assert_eq!(parsed(&out), &vec![None]);
    assert_eq!(out.exit_status(), None);
    assert_eq!(out.report(), None);
    assert_eq!(r.all()[0].parsed_value, None);
    assert_eq!(r.all()[0].value(), &FlagValue::Bool(false));
}

#[test]
fn unknown_flag_is_unrecognized() {
    let mut r = verbose_registry();
    let out = parse(&mut r, "1.0", &args(&["prog", "--unknown_flag"]));
    assert_eq!(failure(&out), (ErrorKind::UnrecognizedFlag, "unknown_flag".to_string()));
    assert_eq!(out.exit_status(), Some(1));
    assert_eq!(out.report(), Some("unregistered flag unknown_flag passed".to_string()));
    match out {
        ParseOutcome::Failed(e) => assert_eq!(e.message(), "unregistered flag unknown_flag passed"),
        _ => unreachable!(),
    }
}

#[test]
fn flag_given_twice_is_duplicate() {
    let mut r = registry_with(vec![Flag::new("count", "Counts.", FlagValue::Bool(false))]);
    let out = parse(&mut r, "1.0", &args(&["prog", "--count", "--count"]));
    assert_eq!(failure(&out), (ErrorKind::DuplicateFlag, "count".to_string()));

    let mut r = count_registry();
    let out = parse(&mut r, "1.0", &args(&["prog", "--count=1", "--count=2"]));
    assert_eq!(failure(&out), (ErrorKind::DuplicateFlag, "count".to_string()));
    assert_eq!(r.all()[0].parsed_value, None);
}

#[test]
fn value_flag_given_twice_is_duplicate() {
    let mut r = count_registry();
    let out = parse(&mut r, "1.0.0", &args(&["prog", "--count", "--count"]));
    assert_eq!(failure(&out), (ErrorKind::DuplicateFlag, "count".to_string()));
    assert_eq!(out.exit_status(), Some(1));
    assert_eq!(out.report(), Some("flag count was passed multiple times".to_string()));
    assert_eq!(r.all()[0].parsed_value, None);

    let mut r = registry_with(vec![Flag::new("name", "", FlagValue::String("".to_string()))]);
    let out = parse(&mut r, "1", &args(&["prog", "-name", "--name=x"]));
    assert_eq!(failure(&out), (ErrorKind::DuplicateFlag, "name".to_string()));
}

#[test]
fn declared_option_is_never_a_value() {
    let mut r = registry_with(vec![
        Flag::new("count", "", FlagValue::Int32(0)),
        Flag::new("verbose", "", FlagValue::Bool(false)),
    ]);
    let out = parse(&mut r, "1", &args(&["prog", "--count", "--verbose"]));
    assert_eq!(failure(&out), (ErrorKind::MissingArgument, "count".to_string()));
    let out = parse(&mut r, "1", &args(&["prog", "--count", "--noverbose"]));
    assert_eq!(failure(&out), (ErrorKind::MissingArgument, "count".to_string()));
    let out = parse(&mut r, "1", &args(&["prog", "--count", "-h"]));
    assert_eq!(failure(&out), (ErrorKind::MissingArgument, "count".to_string()));
    let out = parse(&mut r, "1", &args(&["prog", "--count", "-7", "--verbose"]));
    assert_eq!(parsed(&out), &vec![Some(FlagValue::Int32(-7)), Some(FlagValue::Bool(true))]);
    let mut s = registry_with(vec![Flag::new("name", "", FlagValue::String("".to_string()))]);
    let out = parse(&mut s, "1", &args(&["prog", "--name", "--other"]));
    assert_eq!(parsed(&out), &vec![Some(FlagValue::String("--other".to_string()))]);
}

#[test]
fn tokenizer_errors_come_before_help() {
    let mut r = count_registry();
    let out = parse(&mut r, "1.0", &args(&["prog", "--unknown_flag", "--count", "--count", "-h"]));
    assert_eq!(failure(&out), (ErrorKind::UnrecognizedFlag, "unknown_flag".to_string()));
    assert_eq!(out.exit_status(), Some(1));
}

#[test]
fn int32_flag_values() {
    let mut r = count_registry();
    let out = parse(&mut r, "1.0", &args(&["prog", "--count=5"]));
    assert_eq!(parsed(&out), &vec![Some(FlagValue::Int32(5))]);
    assert_eq!(r.all()[0].value().as_i32(), Ok(5));

    let mut r = count_registry();
    let out = parse(&mut r, "1.0", &args(&["prog", "--count", "-7"]));
    assert_eq!(parsed(&out), &vec![Some(FlagValue::Int32(-7))]);

    let mut r = count_registry();
    let out = parse(&mut r, "1.0", &args(&["prog", "--count=abc"]));
    assert_eq!(failure(&out), (ErrorKind::TypeConversionFailure, "count".to_string()));
    assert_eq!(r.all()[0].parsed_value, None);
}

#[test]
fn help_answers_whatever_else_is_given() {
    let expected = "--count=0\n\tHow many.\nprog version 1.0";
    for flag in ["--help", "-h"] {
        let mut r = count_registry();
        let out = parse(&mut r, "1.0", &args(&["prog", flag, "--count=abc"]));
        match out {
            ParseOutcome::Help(ref t) => assert_eq!(t, expected),
            ref other => panic!("expected help, got {:?}", other),
        }
        assert_eq!(out.exit_status(), Some(0));
        assert_eq!(out.report(), Some(expected.to_string()));
    }
    let mut r = verbose_registry();
    let out = parse(&mut r, "2", &args(&["prog", "--help"]));
    match out {
        ParseOutcome::Help(t) => {
            assert_eq!(t, "--verbose=false\n\tPrints more.\nprog version 2")
        }
        other => panic!("expected help, got {:?}", other),
    }
}

#[test]
fn version_is_answered() {
    for flag in ["--version", "-V"] {
        let mut r = count_registry();
        let out = parse(&mut r, "0.3.1", &args(&["tool", flag]));
        match out {
            ParseOutcome::Version(ref t) => assert_eq!(t, "tool version 0.3.1"),
            ref other => panic!("expected the version, got {:?}", other),
        }
        assert_eq!(out.exit_status(), Some(0));
    }
}

#[test]
fn parsing_twice_gives_the_same_values() {
    let mut r = registry_with(vec![
        Flag::new("count", "How many.", FlagValue::Int32(0)),
        Flag::new("verbose", "Prints more.", FlagValue::Bool(false)),
        Flag::new("name", "A name.", FlagValue::String("x".to_string())),
    ]);
    let a = args(&["prog", "--count=3", "--noverbose", "--name", "bob"]);
    let first = parse(&mut r, "1", &a);
    let second = parse(&mut r, "1", &a);
    assert_eq!(parsed(&first), parsed(&second));
    let mut fresh = registry_with(vec![
        Flag::new("count", "How many.", FlagValue::Int32(0)),
        Flag::new("verbose", "Prints more.", FlagValue::Bool(false)),
        Flag::new("name", "A name.", FlagValue::String("x".to_string())),
    ]);
    let third = parse(&mut fresh, "1", &a);
    assert_eq!(parsed(&first), parsed(&third));
    for i in 0..3 {
        assert_eq!(r.all()[i].parsed_value, fresh.all()[i].parsed_value);
    }
    assert_eq!(
        parsed(&first),
        &vec![
            Some(FlagValue::Int32(3)),
            Some(FlagValue::Bool(false)),
            Some(FlagValue::String("bob".to_string()))
        ]
    );
}

#[test]
fn missing_and_unexpected_values() {
    let mut r = count_registry();
    let out = parse(&mut r, "1", &args(&["prog", "--count"]));
    assert_eq!(failure(&out), (ErrorKind::MissingArgument, "count".to_string()));
    match out {
        ParseOutcome::Failed(e) => assert_eq!(e.message(), "flag count requires a value"),
        _ => unreachable!(),
    }
    let mut r = verbose_registry();
    let out = parse(&mut r, "1", &args(&["prog", "--verbose=yes"]));
    assert_eq!(failure(&out), (ErrorKind::UnexpectedArgument, "verbose".to_string()));
    match out {
        ParseOutcome::Failed(e) => assert_eq!(e.message(), "flag verbose does not expect a value"),
        _ => unreachable!(),
    }
}

#[test]
fn boolean_given_both_ways_is_duplicate() {
    let mut r = verbose_registry();
    let out = parse(&mut r, "1", &args(&["prog", "--verbose", "--noverbose"]));
    assert_eq!(failure(&out), (ErrorKind::DuplicateFlag, "verbose".to_string()));
    assert_eq!(out.report(), Some("flag verbose was passed multiple times".to_string()));
}

#[test]
fn other_types_resolve() {
    let mut r = registry_with(vec![
        Flag::new("big", "", FlagValue::Int64(0)),
        Flag::new("size", "", FlagValue::Uint64(0)),
        Flag::new("ratio", "", FlagValue::Double("0.0".to_string())),
    ]);
    let out = parse(
        &mut r,
        "1",
        &args(&["prog", "--big=-9000000000", "--size", "18446744073709551615", "--ratio=2.5e-3"]),
    );
    assert_eq!(
        parsed(&out),
        &vec![
            Some(FlagValue::Int64(-9000000000)),
            Some(FlagValue::Uint64(u64::MAX)),
            Some(FlagValue::Double("2.5e-3".to_string()))
        ]
    );
    let mut r = registry_with(vec![Flag::new("size", "", FlagValue::Uint64(0))]);
    let out = parse(&mut r, "1", &args(&["prog", "--size=-1"]));
    assert_eq!(failure(&out), (ErrorKind::TypeConversionFailure, "size".to_string()));
    let mut r = registry_with(vec![Flag::new("ratio", "", FlagValue::Double("0".to_string()))]);
    let out = parse(&mut r, "1", &args(&["prog", "--ratio=1.2.3"]));
    assert_eq!(failure(&out), (ErrorKind::TypeConversionFailure, "ratio".to_string()));
}

#[test]
fn registry_rejects_clashes_and_bad_names() {
    let mut r = verbose_registry();
    assert!(matches!(
        r.register(Flag::new("verbose", "", FlagValue::Int32(1))),
        Err(RegistryError::DuplicateName(_))
    ));
    assert!(matches!(
        r.register(Flag::new("noverbose", "", FlagValue::Int32(1))),
        Err(RegistryError::DuplicateName(_))
    ));
    assert!(matches!(
        r.register(Flag::new("v", "", FlagValue::Int32(1))),
        Err(RegistryError::InvalidName(_))
    ));
    assert!(matches!(
        r.register(Flag::new("help", "", FlagValue::Bool(true))),
        Err(RegistryError::InvalidName(_))
    ));
    assert!(matches!(
        r.register(Flag::new("-x", "", FlagValue::Bool(true))),
        Err(RegistryError::InvalidName(_))
    ));
    assert_eq!(r.all().len(), 1);
    assert!(r.register(Flag::new("db_url", "", FlagValue::String("".to_string()))).is_ok());
    assert_eq!(r.all().len(), 2);
    assert_eq!(r.find("db_url").map(|f| f.name.clone()), Some("db_url".to_string()));
    assert!(r.find("nothing").is_none());
}

#[test]
fn reading_the_wrong_type_is_a_mismatch() {
    let v = FlagValue::Bool(true);
    assert_eq!(v.as_bool(), Ok(true));
    assert_eq!(v.as_i32(), Err(VariantMismatch));
    assert_eq!(v.as_i64(), Err(VariantMismatch));
    assert_eq!(v.as_u64(), Err(VariantMismatch));
    assert_eq!(v.as_str(), Err(VariantMismatch));
    assert_eq!(v.as_double_text(), Err(VariantMismatch));
    assert_eq!(FlagValue::String("a".to_string()).as_str(), Ok("a"));
    assert_eq!(FlagValue::Int64(-2).as_i64(), Ok(-2));
    assert_eq!(FlagValue::Uint64(2).as_u64(), Ok(2));
    assert_eq!(FlagValue::Double("1.5".to_string()).as_double_text(), Ok("1.5"));
    assert_eq!(FlagValue::Int32(1).as_bool(), Err(VariantMismatch));
}

#[test]
fn integer_text() {
    assert_eq!(parse_i32("2147483647"), Some(i32::MAX));
    assert_eq!(parse_i32("-2147483648"), Some(i32::MIN));
    assert_eq!(parse_i32("2147483648"), None);
    assert_eq!(parse_i32("+12"), Some(12));
    assert_eq!(parse_i32(""), None);
    assert_eq!(parse_i32("-"), None);
    assert_eq!(parse_i32("1 "), None);
    assert_eq!(parse_i64("-9223372036854775808"), Some(i64::MIN));
    assert_eq!(parse_i64("9223372036854775808"), None);
    assert_eq!(parse_u64("18446744073709551616"), None);
    assert_eq!(parse_u64("-0"), None);
    assert_eq!(parse_u64("007"), Some(7));
    assert_eq!(render_u64(0), "0");
    assert_eq!(render_u64(u64::MAX), "18446744073709551615");
    assert_eq!(render_i64(-120), "-120");
    assert_eq!(render_i64(i64::MIN), "-9223372036854775808");
}

#[test]
fn double_literals() {
    for ok in ["1", "1.", ".5", "-2.5e10", "+3E-2", "inf", "-Infinity", "NaN", "0.0"] {
        assert!(is_double_literal(ok), "{}", ok);
    }
    for bad in ["", ".", "e5", "1e", "1.2.3", "abc", "infinit", "1e+", "--1", " 1"] {
        assert!(!is_double_literal(bad), "{}", bad);
    }
}

#[test]
fn rendered_values() {
    assert_eq!(FlagValue::Bool(true).render(), "true");
    assert_eq!(FlagValue::Int32(i32::MIN).render(), "-2147483648");
    assert_eq!(FlagValue::String("".to_string()).render(), "\"\"");
    assert_eq!(FlagValue::Double("1e3".to_string()).render(), "1e3");
}

#[test]
fn values_order_structurally() {
    assert!(FlagValue::Bool(false) < FlagValue::Bool(true));
    assert!(FlagValue::Int32(-1) < FlagValue::Int32(2));
    assert!(FlagValue::Int64(i64::MIN) < FlagValue::Int64(0));
    assert!(FlagValue::Uint64(u64::MAX) > FlagValue::Uint64(1));
    assert!(FlagValue::Bool(true) < FlagValue::Int32(i32::MIN));
    assert!(FlagValue::Uint64(0) < FlagValue::String("".to_string()));
    assert!(FlagValue::String("a".to_string()) < FlagValue::String("b".to_string()));
    assert!(FlagValue::String("ab".to_string()) > FlagValue::String("a".to_string()));
    assert_eq!(
        FlagValue::String("same".to_string()).partial_cmp(&FlagValue::String("same".to_string())),
        Some(std::cmp::Ordering::Equal)
    );
    assert_ne!(FlagValue::Int32(1), FlagValue::Int64(1));
}
