use wildmatch_rules::wildcard::WildcardError;
use wildmatch_rules::workflow::{Error, Rule, WildcardRule, Workflow};

#[test]
fn workflow() {
    let rule = WildcardRule::new(
        &["path/to/{file}/{blah}.in".to_string()],
        &["path/to/{file}.out".to_string()],
    )
    .unwrap();
    let workflow = Workflow { rules: vec![Box::new(rule)] };
    let task = workflow.rules[0].materialize("path/to/filename.out");
    assert!(task.is_none());
}

#[test]
fn rule_renders_inputs_and_outputs() {
    let rule = WildcardRule::new(
        &["src/{file}.c".to_string(), "include/{file}.h".to_string()],
        &["build/{file}.o".to_string(), "build/{file,\\w+}.{file,\\w+}".to_string()],
    );
    assert!(matches!(rule, Err(Error::Wildcard(WildcardError::InvalidConstraint(_)))));
    let rule = WildcardRule::new(
        &["src/{file}.c".to_string(), "include/{file}.h".to_string()],
        &["build/{file}.o".to_string(), "deps/{file}.d".to_string()],
    )
    .unwrap();
    let task = rule.materialize("deps/main.d").unwrap();
    assert_eq!(task.inputs, vec!["src/main.c".to_string(), "include/main.h".to_string()]);
    assert_eq!(task.outputs, vec!["build/main.o".to_string(), "deps/main.d".to_string()]);
    assert_eq!(task.wildcards.get("file"), Some("main".to_string()));
    assert!(rule.materialize("other/main.d").is_none());
}

#[test]
fn first_matching_output_wins() {
    let rule = WildcardRule::new(
        &["{x}.in".to_string()],
        &["{x}.out".to_string(), "{x,(}.out".to_string()],
    );
    assert!(matches!(rule, Err(Error::Wildcard(WildcardError::RegexError(_)))));
    let rule = WildcardRule::new(
        &["{x}.in".to_string()],
        &["{x,\\d+}.out".to_string(), "{x}.out".to_string()],
    )
    .unwrap();
    let task = rule.materialize("12.out").unwrap();
    assert_eq!(task.inputs, vec!["12.in".to_string()]);
    let task = rule.materialize("ab.out").unwrap();
    assert_eq!(task.inputs, vec!["ab.in".to_string()]);
}

#[test]
fn error_from_wildcard_error() {
    let e = Error::from(WildcardError::MissingName("a".to_string()));
    assert!(matches!(e, Error::Wildcard(WildcardError::MissingName(n)) if n == "a"));
}

#[test]
fn rule_error_is_first_failing_output() {
    let rule = WildcardRule::new(
        &[],
        &["{x}".to_string(), "{a,\\d+}/{a,\\w+}".to_string(), "{b,(}".to_string()],
    );
    assert!(matches!(rule, Err(Error::Wildcard(WildcardError::InvalidConstraint(s))) if s == "a"));
    let rule = WildcardRule::new(
        &[],
        &["{b,(}".to_string(), "{a,\\d+}/{a,\\w+}".to_string()],
    );
    assert!(matches!(rule, Err(Error::Wildcard(WildcardError::RegexError(_)))));
    assert!(WildcardRule::new(&[], &[]).is_ok());
}
