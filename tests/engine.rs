use fmath::decimal::parse_int;
use fmath::engine::{ConfigurationError, DispatchedFoldOperation, ParseError};

/// Feeds each line, trimmed, to a fresh engine; returns the result and the
/// lines that were rejected.
fn run(op: &str, input: &str) -> (String, Vec<String>) {
    let mut engine = DispatchedFoldOperation::from_name(op).unwrap();
    let mut rejected = Vec::new();
    for line in input.lines() {
        let token = line.trim();
        if let Some(n) = parse_int(token) {
            assert!(engine.accepts(n));
        }
        if engine.fold(token).is_err() {
            rejected.push(line.to_string());
        }
    }
    (engine.finish(), rejected)
}

#[test]
fn sum_of_one_two_three() {
    assert_eq!(run("sum", "1\n2\n3\n"), ("6".to_string(), vec![]));
}

#[test]
fn average_of_one_to_four_truncates() {
    assert_eq!(run("avg", "1\n2\n3\n4\n").0, "2");
}

#[test]
fn count_skips_a_bad_line() {
    let (out, rejected) = run("count", "1\nabc\n3\n");
    assert_eq!(out, "2");
    assert_eq!(rejected, vec!["abc".to_string()]);
}

#[test]
fn empty_input() {
    assert_eq!(run("sum", "").0, "0");
    assert_eq!(run("count", "").0, "0");
    assert_eq!(run("avg", "").0, "0");
}

#[test]
fn only_bad_lines_is_like_empty_input() {
    for op in ["sum", "avg", "count"] {
        assert_eq!(run(op, "x\n\n1.5\n+2\n"), (run(op, "").0, vec![
            "x".to_string(),
            "".to_string(),
            "1.5".to_string(),
            "+2".to_string(),
        ]));
    }
}

#[test]
fn bad_token_leaves_engine_unchanged() {
    let mut e = DispatchedFoldOperation::Sum(5);
    assert_eq!(e.fold("seven"), Err(ParseError));
    assert_eq!(e, DispatchedFoldOperation::Sum(5));
}

#[test]
fn fold_updates_each_strategy() {
    let mut s = DispatchedFoldOperation::Sum(5);
    assert_eq!(s.fold("-8"), Ok(()));
    assert_eq!(s, DispatchedFoldOperation::Sum(-3));
    let mut a = DispatchedFoldOperation::Avg(1, 5);
    assert_eq!(a.fold("7"), Ok(()));
    assert_eq!(a, DispatchedFoldOperation::Avg(2, 12));
    let mut c = DispatchedFoldOperation::Count(5);
    assert_eq!(c.fold("-8"), Ok(()));
    assert_eq!(c, DispatchedFoldOperation::Count(6));
}

#[test]
fn trimmed_numbers_with_sign() {
    assert_eq!(run("sum", "  10 \n-4\n\t-6\n").0, "0");
    assert_eq!(run("avg", "-1\n-2\n").0, "-1");
}

#[test]
fn order_does_not_change_the_result() {
    let a = "5\n-3\nq\n";
    let b = "12\n7\n";
    for op in ["sum", "avg", "count"] {
        assert_eq!(run(op, &format!("{a}{b}")).0, run(op, &format!("{b}{a}")).0);
    }
    assert_eq!(run("sum", "1\n2\n3\n").0, run("sum", "3\n1\n2\n").0);
}

#[test]
fn names_select_strategies() {
    assert_eq!(DispatchedFoldOperation::from_name("sum"), Ok(DispatchedFoldOperation::Sum(0)));
    assert_eq!(DispatchedFoldOperation::from_name("avg"), Ok(DispatchedFoldOperation::Avg(0, 0)));
    assert_eq!(DispatchedFoldOperation::from_name("count"), Ok(DispatchedFoldOperation::Count(0)));
}

#[test]
fn unknown_operation_is_refused() {
    assert_eq!(DispatchedFoldOperation::from_name("median"), Err(ConfigurationError));
    assert_eq!(DispatchedFoldOperation::from_name(""), Err(ConfigurationError));
    assert_eq!(DispatchedFoldOperation::from_name("Sum"), Err(ConfigurationError));
    assert_eq!(DispatchedFoldOperation::from_name("sums"), Err(ConfigurationError));
}

#[test]
fn accepts_guards_the_accumulator_range() {
    assert!(DispatchedFoldOperation::Sum(1).accepts(i64::MAX - 1));
    assert!(!DispatchedFoldOperation::Sum(1).accepts(i64::MAX));
    assert!(!DispatchedFoldOperation::Sum(-1).accepts(i64::MIN));
    assert!(!DispatchedFoldOperation::Avg(u32::MAX, 0).accepts(0));
    assert!(!DispatchedFoldOperation::Avg(2, i64::MAX).accepts(1));
    assert!(DispatchedFoldOperation::Avg(2, 0).accepts(i64::MIN));
    assert!(!DispatchedFoldOperation::Count(i64::MAX).accepts(0));
    assert!(DispatchedFoldOperation::Count(0).accepts(i64::MIN));
}

#[test]
fn finish_can_be_asked_twice() {
    let e = DispatchedFoldOperation::Avg(3, -7);
    assert_eq!(e.finish(), "-2");
    assert_eq!(e.finish(), "-2");
    assert_eq!(DispatchedFoldOperation::Sum(i64::MIN).finish(), "-9223372036854775808");
}
