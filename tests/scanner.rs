use wildmatch_rules::scanner::{placeholder_at_pos, placeholders};

fn chars(s: &str) -> Vec<char> {
    s.chars().collect()
}

fn text(v: &[char]) -> String {
    v.iter().collect()
}

#[test]
fn scans_names_constraints_and_offsets() {
    let t = chars("a/{x}/{ y , \\d{2,4} }.z");
    let ps = placeholders(&t);
    assert_eq!(ps.len(), 2);
    assert_eq!((ps[0].start, ps[0].end), (2, 5));
    assert_eq!(text(&ps[0].name), "x");
    assert!(ps[0].constraint.is_none());
    assert_eq!((ps[1].start, ps[1].end), (6, 21));
    assert_eq!(text(&ps[1].name), "y");
    assert_eq!(text(ps[1].constraint.as_ref().unwrap()), "\\d{2,4}");
}

#[test]
fn nested_braces_are_not_placeholders() {
    let t = chars("{a,x{b}");
    let ps = placeholders(&t);
    assert_eq!(ps.len(), 1);
    assert_eq!(text(&ps[0].name), "b");
    assert_eq!(ps[0].start, 4);
}

#[test]
fn empty_constraint_is_kept() {
    let t = chars("{a,}");
    let p = placeholder_at_pos(&t, 0).unwrap();
    assert_eq!(text(p.constraint.as_ref().unwrap()), "");
    assert!(placeholder_at_pos(&t, 1).is_none());
}

#[test]
fn no_placeholders() {
    assert!(placeholders(&chars("")).is_empty());
    assert!(placeholders(&chars("{} { x} {,a}")).len() == 1);
}
