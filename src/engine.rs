use vstd::prelude::*;

verus! {

#[verifier::external_type_specification]
#[verifier::external_body]
pub struct ExRegex(regex::Regex);

/// The characters that have a meaning of their own in a regular expression.
pub open spec fn is_meta(c: char) -> bool {
    c == '\\' || c == '.' || c == '+' || c == '*' || c == '?' || c == '(' || c == ')' || c == '|'
        || c == '[' || c == ']' || c == '{' || c == '}' || c == '^' || c == '$' || c == '#' || c
        == '&' || c == '-' || c == '~'
}

/// `s` with a backslash put before each meta character, so that it matches itself.
pub open spec fn escaped(s: Seq<char>) -> Seq<char>
    decreases s.len(),
{
    if s.len() == 0 {
        Seq::empty()
    } else {
        escaped(s.drop_last()) + if is_meta(s.last()) {
            seq!['\\', s.last()]
        } else {
            seq![s.last()]
        }
    }
}

/// The characters of each vector.
pub open spec fn views(s: Seq<Vec<char>>) -> Seq<Seq<char>> {
    s.map_values(|v: Vec<char>| v@)
}

pub open spec fn opt_view(o: Option<Vec<char>>) -> Option<Seq<char>> {
    match o {
        Some(v) => Some(v@),
        None => None,
    }
}

/// The characters of each vector that is present.
pub open spec fn opt_views(s: Seq<Option<Vec<char>>>) -> Seq<Option<Seq<char>>> {
    s.map_values(|o: Option<Vec<char>>| opt_view(o))
}

/// The pattern text that a compiled regular expression was built from, as
/// `regex::Regex::as_str` gives it back.
pub uninterp spec fn regex_source(re: regex::Regex) -> Seq<char>;

/// Whether the regular expression engine accepts `pattern`: it parses, and what it
/// compiles to stays within the engine's default size limits.
pub uninterp spec fn regex_accepts(pattern: Seq<char>) -> bool;

/// Whether `c` is alphabetic or numeric in the sense of Unicode.
pub uninterp spec fn alphanumeric(c: char) -> bool;

/// Whether `c` has the Unicode property White_Space.
pub uninterp spec fn white_space(c: char) -> bool;

/// What a search of `haystack` with the regular expression `pattern` captures: `None`
/// where it finds no match, else the text of each named group that took part in the
/// first match.
pub uninterp spec fn named_captures(pattern: Seq<char>, haystack: Seq<char>) -> Option<
    Map<Seq<char>, Seq<char>>,
>;

/// Relies on `regex::Regex::clone`: the copy keeps the pattern it was built from.
pub assume_specification[ <regex::Regex as Clone>::clone ](re: &regex::Regex) -> (r:
    regex::Regex)
    ensures
        regex_source(r) == regex_source(*re),
;

/// Relies on `char::is_alphanumeric`, which holds of the ASCII letters and digits.
#[verifier::external_body]
pub(crate) fn is_alphanumeric(c: char) -> (r: bool)
    ensures
        r == alphanumeric(c),
        ('a' <= c && c <= 'z') || ('A' <= c && c <= 'Z') || ('0' <= c && c <= '9') ==> r,
{
    c.is_alphanumeric()
}

/// Relies on `char::is_whitespace`, which holds of the ASCII space, tab, line feed and
/// carriage return.
#[verifier::external_body]
pub(crate) fn is_whitespace(c: char) -> (r: bool)
    ensures
        r == white_space(c),
        c == ' ' || c == '\t' || c == '\n' || c == '\r' ==> r,
{
    c.is_whitespace()
}

/// Relies on `str::chars`, collected: the characters of `s`, in order.
#[verifier::external_body]
pub(crate) fn chars_of(s: &str) -> (r: Vec<char>)
    ensures
        r@ == s@,
{
    s.chars().collect()
}

/// Relies on `String::from_iter` over chars: the string of the characters of `v`.
#[verifier::external_body]
pub(crate) fn string_of(v: &Vec<char>) -> (r: String)
    ensures
        r@ == v@,
{
    v.iter().collect()
}

/// Relies on `regex::escape`, which puts a backslash before each character for which
/// `regex_syntax::is_meta_character` holds.
#[verifier::external_body]
pub(crate) fn escape(text: &Vec<char>) -> (r: Vec<char>)
    ensures
        r@ == escaped(text@),
{
    regex::escape(&text.iter().collect::<String>()).chars().collect()
}

/// Relies on `regex::Regex::new`: a regular expression built from `pattern`, or the
/// message of the error that parsing or compiling it gave.
#[verifier::external_body]
pub(crate) fn compile_regex(pattern: &Vec<char>) -> (r: Result<regex::Regex, String>)
    ensures
        r is Ok <==> regex_accepts(pattern@),
        r matches Ok(re) ==> regex_source(re) == pattern@,
{
    regex::Regex::new(&pattern.iter().collect::<String>()).map_err(|e| e.to_string())
}

/// Relies on `regex::Regex::captures`, and on `Captures::name` to read the group of
/// each label in turn.
#[verifier::external_body]
pub(crate) fn capture_groups(re: &regex::Regex, haystack: &str, labels: &Vec<Vec<char>>) -> (r:
    Option<Vec<Option<Vec<char>>>>)
    ensures
        r is None <==> named_captures(regex_source(*re), haystack@) is None,
        r matches Some(v) ==> {
            let caps = named_captures(regex_source(*re), haystack@)->0;
            &&& v.len() == labels.len()
            &&& forall|i: int|
                0 <= i < v.len() ==> (#[trigger] opt_view(v[i]) == if caps.contains_key(
                    labels[i]@,
                ) {
                    Some(caps[labels[i]@])
                } else {
                    None
                })
        },
{
    let caps = re.captures(haystack)?;
    Some(
        labels.iter().map(
            |l| caps.name(&l.iter().collect::<String>()).map(|m| m.as_str().chars().collect()),
        ).collect(),
    )
}

} // verus!
