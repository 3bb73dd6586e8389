use wildmatch_rules::wildcard::{Wildcard, WildcardError};

fn round_trip(pattern: &str, path: &str) {
    let wc = Wildcard::new(pattern).unwrap();
    let map = wc.extract(path).unwrap();
    assert_eq!(map.apply(pattern).unwrap(), path);
}

#[test]
fn same_name() {
    round_trip("path/to/{name}/{name}_{name}.txt", "path/to/output/output_output.txt");
}

#[test]
fn digits() {
    round_trip("path/to/{name,\\d+}.txt", "path/to/0123.txt");
}

#[test]
fn round_trip_through_pattern() {
    let wc = Wildcard::new("out/{kind}/{id,\\d+}.json").unwrap();
    let map = wc.extract("out/users/42.json").unwrap();
    assert_eq!(map.apply(wc.pattern()).unwrap(), "out/users/42.json");
    assert_eq!(wc.pattern(), "out/{kind}/{id,\\d+}.json");
}

#[test]
fn constraint_enforced() {
    let wc = Wildcard::new("path/to/{name,\\d+}.txt").unwrap();
    let map = wc.extract("path/to/0123.txt").unwrap();
    assert_eq!(map.get("name"), Some("0123".to_string()));
    assert!(wc.extract("path/to/abc.txt").is_none());
}

#[test]
fn repeated_name_must_agree() {
    let wc = Wildcard::new("{a}/{a}").unwrap();
    let map = wc.extract("x/x").unwrap();
    assert_eq!(map.get("a"), Some("x".to_string()));
    assert!(wc.extract("x/y").is_none());
}

#[test]
fn repeated_constraint_rejected() {
    match Wildcard::new("{a,\\d+}/{a,\\w+}") {
        Err(WildcardError::InvalidConstraint(n)) => assert_eq!(n, "a"),
        other => panic!("unexpected: {:?}", other.map(|w| w.pattern().to_string())),
    }
}

#[test]
fn repeated_name_reuses_constraint() {
    let wc = Wildcard::new("{a,\\d+}/{a}").unwrap();
    assert_eq!(wc.extract("12/12").unwrap().get("a"), Some("12".to_string()));
    assert!(wc.extract("ab/ab").is_none());
}

#[test]
fn first_redeclared_name_reported() {
    match Wildcard::new("{x}{b}{x,.}{b,.}") {
        Err(WildcardError::InvalidConstraint(n)) => assert_eq!(n, "x"),
        other => panic!("unexpected: {:?}", other.is_ok()),
    }
}

#[test]
fn missing_name_on_render() {
    let wc = Wildcard::new("{a}").unwrap();
    let map = wc.extract("1").unwrap();
    match map.apply("{a}-{b}") {
        Err(WildcardError::MissingName(n)) => assert_eq!(n, "b"),
        other => panic!("unexpected: {:?}", other),
    }
}

#[test]
fn literal_text_escaped() {
    let wc = Wildcard::new("a.b/{name}.txt").unwrap();
    assert!(wc.extract("axb/foo.txt").is_none());
    assert!(wc.extract("a.b/fooxtxt").is_none());
    assert_eq!(wc.extract("a.b/foo.txt").unwrap().get("name"), Some("foo".to_string()));
}

#[test]
fn metacharacters_match_themselves() {
    let wc = Wildcard::new("(x)+[y]^$|{v}").unwrap();
    assert_eq!(wc.extract("(x)+[y]^$|q").unwrap().get("v"), Some("q".to_string()));
    assert!(wc.extract("xx[y]^$|q").is_none());
}

#[test]
fn no_match_is_none() {
    let wc = Wildcard::new("path/to/{name}.txt").unwrap();
    assert!(wc.extract("something/else").is_none());
    assert!(wc.extract("").is_none());
}

#[test]
fn whole_input_must_match() {
    let wc = Wildcard::new("a{x}b").unwrap();
    assert!(wc.extract("zaqb").is_none());
    assert!(wc.extract("aqbz").is_none());
    assert_eq!(wc.extract("aqb").unwrap().get("x"), Some("q".to_string()));
}

#[test]
fn default_constraint_not_empty() {
    let wc = Wildcard::new("a{x}b").unwrap();
    assert!(wc.extract("ab").is_none());
}

#[test]
fn default_constraint_greedy() {
    let wc = Wildcard::new("{x}.{y}").unwrap();
    let map = wc.extract("a.b.c").unwrap();
    assert_eq!(map.get("x"), Some("a.b".to_string()));
    assert_eq!(map.get("y"), Some("c".to_string()));
}

#[test]
fn whitespace_inside_braces_ignored() {
    let wc = Wildcard::new("{ name , \\d+ }.txt").unwrap();
    let map = wc.extract("42.txt").unwrap();
    assert_eq!(map.get("name"), Some("42".to_string()));
    assert!(wc.extract("4 .txt").is_none());
    assert_eq!(map.apply("<{  name }>").unwrap(), "<42>");
}

#[test]
fn repetition_count_in_constraint() {
    let wc = Wildcard::new("v{n,\\d{2,3}}").unwrap();
    assert_eq!(wc.extract("v123").unwrap().get("n"), Some("123".to_string()));
    assert!(wc.extract("v1").is_none());
    assert!(wc.extract("v1234").is_none());
    let wc = Wildcard::new("{n,[a-z]{2}}").unwrap();
    assert!(wc.extract("ab").is_some());
    assert!(wc.extract("abc").is_none());
}

#[test]
fn constraint_with_groups() {
    let wc = Wildcard::new("{a,(x|y)+}-{a}").unwrap();
    assert_eq!(wc.extract("xy-xy").unwrap().get("a"), Some("xy".to_string()));
    assert!(wc.extract("xy-yx").is_none());
}

#[test]
fn template_without_placeholders() {
    let wc = Wildcard::new("plain.txt").unwrap();
    let map = wc.extract("plain.txt").unwrap();
    assert_eq!(map.get("anything"), None);
    assert!(wc.extract("plainxtxt").is_none());
    assert_eq!(map.apply("other").unwrap(), "other");
}

#[test]
fn empty_template() {
    let wc = Wildcard::new("").unwrap();
    assert!(wc.extract("").is_some());
    assert!(wc.extract("x").is_none());
}

#[test]
fn malformed_braces_are_literal() {
    let wc = Wildcard::new("{}{ }{a-b}{x}").unwrap();
    assert_eq!(wc.extract("{}{ }{a-b}7").unwrap().get("x"), Some("7".to_string()));
    let wc = Wildcard::new("{{x}}").unwrap();
    assert_eq!(wc.extract("{7}").unwrap().get("x"), Some("7".to_string()));
}

#[test]
fn render_keeps_literal_text() {
    let wc = Wildcard::new("{a}/{b}").unwrap();
    let map = wc.extract("1/2").unwrap();
    assert_eq!(map.apply("in/{b}.{a}.{b}?").unwrap(), "in/2.1.2?");
    assert_eq!(map.apply("no placeholders").unwrap(), "no placeholders");
    assert_eq!(map.apply("").unwrap(), "");
}

#[test]
fn invalid_constraint_is_regex_error() {
    assert!(matches!(Wildcard::new("{a,(}"), Err(WildcardError::RegexError(_))));
    assert!(matches!(Wildcard::new("{1a}"), Err(WildcardError::RegexError(_))));
}

#[test]
fn from_captures_checks_agreement() {
    let wc = Wildcard::new("{a}/{b}/{a}").unwrap();
    let v = |s: &str| Some(s.chars().collect::<Vec<char>>());
    let map = wc.from_captures(Some(vec![v("1"), v("2"), v("1")])).unwrap();
    assert_eq!(map.get("a"), Some("1".to_string()));
    assert_eq!(map.get("b"), Some("2".to_string()));
    assert!(wc.from_captures(Some(vec![v("1"), v("2"), v("3")])).is_none());
    assert!(wc.from_captures(Some(vec![v("1"), None, v("1")])).is_none());
    assert!(wc.from_captures(Some(vec![v("1"), v("2")])).is_none());
    assert!(wc.from_captures(None).is_none());
}

#[test]
fn unicode_names_and_whitespace() {
    let wc = Wildcard::new("{\u{e9}t\u{e9}}/{\u{3000}x\u{3000}}").unwrap();
    let map = wc.extract("summer/1").unwrap();
    assert_eq!(map.get("\u{e9}t\u{e9}"), Some("summer".to_string()));
    assert_eq!(map.get("x"), Some("1".to_string()));
}

#[test]
fn clones_behave_alike() {
    let wc = Wildcard::new("{a}-{b}").unwrap();
    let copy = wc.clone();
    assert_eq!(copy.pattern(), "{a}-{b}");
    let map = copy.extract("1-2").unwrap();
    let map2 = map.clone();
    assert_eq!(map2.apply("{b}{a}").unwrap(), "21");
}

#[test]
fn default_constraint_matches_newlines() {
    let wc = Wildcard::new("{a}").unwrap();
    let map = wc.extract("x\ny").unwrap();
    assert_eq!(map.get("a"), Some("x\ny".to_string()));
    let wc = Wildcard::new("<{a}>/{b,\\w+}").unwrap();
    assert_eq!(wc.extract("<\n\r\n>/z").unwrap().get("a"), Some("\n\r\n".to_string()));
    assert!(wc.extract("<>/z").is_none());
}
