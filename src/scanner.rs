use vstd::prelude::*;

use crate::engine::{alphanumeric, is_alphanumeric, is_whitespace, white_space};

verus! {

/// The character classes that the placeholder grammar is built from: whitespace and word
/// characters (letters, digits and underscore) in the sense of Unicode, and the ASCII
/// digits of a repetition count.
#[derive(Clone, Copy, PartialEq, Eq, Structural)]
pub enum CharClass {
    Space,
    Word,
    Digit,
}

pub open spec fn in_class(c: char, k: CharClass) -> bool {
    match k {
        CharClass::Space => white_space(c),
        CharClass::Word => alphanumeric(c) || c == '_',
        CharClass::Digit => '0' <= c && c <= '9',
    }
}

/// The first position at or after `i` that does not hold a character of class `k`.
pub open spec fn skip(t: Seq<char>, i: int, k: CharClass) -> int
    decreases t.len() - i,
{
    if 0 <= i < t.len() && in_class(t[i], k) {
        skip(t, i + 1, k)
    } else {
        i
    }
}

/// The end of a repetition count `{m}` or `{m,n}` that starts at `i`, if one does.
pub open spec fn repeat_end(t: Seq<char>, i: int) -> Option<int> {
    if 0 <= i < t.len() && t[i] == '{' {
        let a = skip(t, i + 1, CharClass::Digit);
        if a > i + 1 && a < t.len() && t[a] == '}' {
            Some(a + 1)
        } else if a > i + 1 && a < t.len() && t[a] == ',' {
            let b = skip(t, a + 1, CharClass::Digit);
            if b > a + 1 && b < t.len() && t[b] == '}' {
                Some(b + 1)
            } else {
                None
            }
        } else {
            None
        }
    } else {
        None
    }
}

/// Where constraint text that starts at `i` ends: it runs over characters other than
/// braces and over whole repetition counts.
pub open spec fn constraint_end(t: Seq<char>, i: int) -> int
    decreases t.len() - i,
    via constraint_end_decreases
{
    if 0 <= i < t.len() && t[i] != '{' && t[i] != '}' {
        constraint_end(t, i + 1)
    } else if repeat_end(t, i) is Some {
        constraint_end(t, repeat_end(t, i)->0)
    } else {
        i
    }
}

#[via_fn]
proof fn constraint_end_decreases(t: Seq<char>, i: int) {
    if !(0 <= i < t.len() && t[i] != '{' && t[i] != '}') && repeat_end(t, i) is Some {
        lemma_repeat_end(t, i);
    }
}

/// Where text between `a` and `b` ends once trailing whitespace is cut off.
pub open spec fn trim_end(t: Seq<char>, a: int, b: int) -> int
    decreases b - a,
{
    if a < b && in_class(t[b - 1], CharClass::Space) {
        trim_end(t, a, b - 1)
    } else {
        b
    }
}

/// A placeholder found in a template: where it starts and ends, its name, and its
/// constraint if one is given.
pub ghost struct Occurrence {
    pub start: int,
    pub end: int,
    pub name: Seq<char>,
    pub constraint: Option<Seq<char>>,
}

/// The placeholder that starts at `i`, if one does: `{name}` or `{name,constraint}`,
/// with whitespace allowed inside the braces and around the comma.
pub open spec fn placeholder_at(t: Seq<char>, i: int) -> Option<Occurrence> {
    if 0 <= i < t.len() && t[i] == '{' {
        let n0 = skip(t, i + 1, CharClass::Space);
        let n1 = skip(t, n0, CharClass::Word);
        let m = skip(t, n1, CharClass::Space);
        if n1 == n0 {
            None
        } else if m < t.len() && t[m] == '}' {
            Some(Occurrence { start: i, end: m + 1, name: t.subrange(n0, n1), constraint: None })
        } else if m < t.len() && t[m] == ',' {
            let c0 = skip(t, m + 1, CharClass::Space);
            let c1 = constraint_end(t, c0);
            if c1 < t.len() && t[c1] == '}' {
                Some(
                    Occurrence {
                        start: i,
                        end: c1 + 1,
                        name: t.subrange(n0, n1),
                        constraint: Some(t.subrange(c0, trim_end(t, c0, c1))),
                    },
                )
            } else {
                None
            }
        } else {
            None
        }
    } else {
        None
    }
}

/// The placeholders of `t` from position `i` on, leftmost first and without overlap.
pub open spec fn scan(t: Seq<char>, i: int) -> Seq<Occurrence>
    decreases t.len() - i,
    via scan_decreases
{
    if 0 <= i < t.len() {
        match placeholder_at(t, i) {
            Some(p) => seq![p] + scan(t, p.end),
            None => scan(t, i + 1),
        }
    } else {
        Seq::empty()
    }
}

#[via_fn]
proof fn scan_decreases(t: Seq<char>, i: int) {
    lemma_placeholder_at(t, i);
}

/// The placeholders of a template, in order.
pub open spec fn placeholders_of(t: Seq<char>) -> Seq<Occurrence> {
    scan(t, 0)
}

pub proof fn lemma_skip(t: Seq<char>, i: int, k: CharClass)
    requires
        0 <= i <= t.len(),
    ensures
        i <= skip(t, i, k) <= t.len(),
        skip(t, i, k) < t.len() ==> !in_class(t[skip(t, i, k)], k),
    decreases t.len() - i,
{
    if i < t.len() && in_class(t[i], k) {
        lemma_skip(t, i + 1, k);
    }
}

pub proof fn lemma_repeat_end(t: Seq<char>, i: int)
    ensures
        repeat_end(t, i) matches Some(e) ==> i < e <= t.len(),
{
    if 0 <= i < t.len() && t[i] == '{' {
        lemma_skip(t, i + 1, CharClass::Digit);
        let a = skip(t, i + 1, CharClass::Digit);
        if a < t.len() {
            lemma_skip(t, a + 1, CharClass::Digit);
        }
    }
}

pub proof fn lemma_constraint_end(t: Seq<char>, i: int)
    requires
        0 <= i <= t.len(),
    ensures
        i <= constraint_end(t, i) <= t.len(),
    decreases t.len() - i,
{
    if 0 <= i < t.len() && t[i] != '{' && t[i] != '}' {
        lemma_constraint_end(t, i + 1);
    } else if repeat_end(t, i) is Some {
        lemma_repeat_end(t, i);
        lemma_constraint_end(t, repeat_end(t, i)->0);
    }
}

pub proof fn lemma_trim_end(t: Seq<char>, a: int, b: int)
    requires
        a <= b,
    ensures
        a <= trim_end(t, a, b) <= b,
    decreases b - a,
{
    if a < b && in_class(t[b - 1], CharClass::Space) {
        lemma_trim_end(t, a, b - 1);
    }
}

pub proof fn lemma_placeholder_at(t: Seq<char>, i: int)
    ensures
        placeholder_at(t, i) matches Some(p) ==> p.start == i && i < p.end <= t.len(),
{
    if 0 <= i < t.len() && t[i] == '{' {
        lemma_skip(t, i + 1, CharClass::Space);
        let n0 = skip(t, i + 1, CharClass::Space);
        lemma_skip(t, n0, CharClass::Word);
        let n1 = skip(t, n0, CharClass::Word);
        lemma_skip(t, n1, CharClass::Space);
        let m = skip(t, n1, CharClass::Space);
        if m < t.len() {
            lemma_skip(t, m + 1, CharClass::Space);
            let c0 = skip(t, m + 1, CharClass::Space);
            lemma_constraint_end(t, c0);
        }
    }
}

/// The placeholders found from position `i` on lie in order, within `[i, t.len()]`,
/// and do not overlap.
pub proof fn lemma_scan_ordered(t: Seq<char>, i: int)
    requires
        0 <= i,
    ensures
        forall|j: int|
            0 <= j < scan(t, i).len() ==> i <= #[trigger] scan(t, i)[j].start
                < scan(t, i)[j].end <= t.len(),
        forall|j: int|
            0 <= j < scan(t, i).len() - 1 ==> #[trigger] scan(t, i)[j].end <= scan(t, i)[j
                + 1].start,
    decreases t.len() - i,
{
    if 0 <= i < t.len() {
        lemma_placeholder_at(t, i);
        match placeholder_at(t, i) {
            Some(p) => {
                lemma_scan_ordered(t, p.end);
                let rest = scan(t, p.end);
                assert(scan(t, i) == seq![p] + rest);
                assert forall|j: int| 0 <= j < scan(t, i).len() - 1 implies #[trigger] scan(
                    t,
                    i,
                )[j].end <= scan(t, i)[j + 1].start by {
                    if j > 0 {
                        assert(scan(t, i)[j] == rest[j - 1]);
                    }
                }
            },
            None => {
                lemma_scan_ordered(t, i + 1);
            },
        }
    }
}

/// A placeholder of a template, as the scanner reports it.
pub struct Placeholder {
    pub start: usize,
    pub end: usize,
    pub name: Vec<char>,
    pub constraint: Option<Vec<char>>,
}

impl View for Placeholder {
    type V = Occurrence;

    open spec fn view(&self) -> Occurrence {
        Occurrence {
            start: self.start as int,
            end: self.end as int,
            name: self.name@,
            constraint: match self.constraint {
                Some(c) => Some(c@),
                None => None,
            },
        }
    }
}

fn char_in_class(c: char, k: CharClass) -> (r: bool)
    ensures
        r == in_class(c, k),
{
    match k {
        CharClass::Space => is_whitespace(c),
        CharClass::Word => is_alphanumeric(c) || c == '_',
        CharClass::Digit => '0' <= c && c <= '9',
    }
}

fn skip_class(t: &Vec<char>, i: usize, k: CharClass) -> (r: usize)
    requires
        i <= t.len(),
    ensures
        r as int == skip(t@, i as int, k),
{
    let mut j: usize = i;
    while j < t.len() && char_in_class(t[j], k)
        invariant
            i <= j <= t.len(),
            skip(t@, j as int, k) == skip(t@, i as int, k),
        decreases t.len() - j,
    {
        j = j + 1;
    }
    j
}

fn find_repeat_end(t: &Vec<char>, i: usize) -> (r: Option<usize>)
    requires
        i <= t.len(),
    ensures
        r matches Some(e) ==> repeat_end(t@, i as int) == Some(e as int),
        r is None ==> repeat_end(t@, i as int) is None,
{
    if i < t.len() && t[i] == '{' {
        let a = skip_class(t, i + 1, CharClass::Digit);
        proof {
            lemma_skip(t@, i + 1, CharClass::Digit);
        }
        if a > i + 1 && a < t.len() && t[a] == '}' {
            Some(a + 1)
        } else if a > i + 1 && a < t.len() && t[a] == ',' {
            let b = skip_class(t, a + 1, CharClass::Digit);
            proof {
                lemma_skip(t@, a + 1, CharClass::Digit);
            }
            if b > a + 1 && b < t.len() && t[b] == '}' {
                Some(b + 1)
            } else {
                None
            }
        } else {
            None
        }
    } else {
        None
    }
}

fn find_constraint_end(t: &Vec<char>, i: usize) -> (r: usize)
    requires
        i <= t.len(),
    ensures
        r as int == constraint_end(t@, i as int),
{
    let mut j: usize = i;
    loop
        invariant
            i <= j <= t.len(),
            constraint_end(t@, j as int) == constraint_end(t@, i as int),
        decreases t.len() - j,
    {
        if j < t.len() && t[j] != '{' && t[j] != '}' {
            j = j + 1;
        } else {
            proof {
                lemma_repeat_end(t@, j as int);
            }
            match find_repeat_end(t, j) {
                Some(e) => {
                    j = e;
                },
                None => {
                    return j;
                },
            }
        }
    }
}

fn trim_spaces_end(t: &Vec<char>, a: usize, b: usize) -> (r: usize)
    requires
        a <= b <= t.len(),
    ensures
        r as int == trim_end(t@, a as int, b as int),
{
    let mut e: usize = b;
    while a < e && char_in_class(t[e - 1], CharClass::Space)
        invariant
            a <= e <= b <= t.len(),
            trim_end(t@, a as int, e as int) == trim_end(t@, a as int, b as int),
        decreases e - a,
    {
        e = e - 1;
    }
    e
}

/// The characters of `t` from `a` up to `b`.
pub fn copy_range(t: &Vec<char>, a: usize, b: usize) -> (r: Vec<char>)
    requires
        a <= b <= t.len(),
    ensures
        r@ == t@.subrange(a as int, b as int),
{
    let mut r: Vec<char> = Vec::new();
    let mut j: usize = a;
    while j < b
        invariant
            a <= j <= b <= t.len(),
            r@ == t@.subrange(a as int, j as int),
        decreases b - j,
    {
        r.push(t[j]);
        j = j + 1;
        assert(r@ == t@.subrange(a as int, j as int));
    }
    r
}

/// The placeholder that starts at position `i` of `t`, if one does.
pub fn placeholder_at_pos(t: &Vec<char>, i: usize) -> (r: Option<Placeholder>)
    requires
        i <= t.len(),
    ensures
        r matches Some(p) ==> placeholder_at(t@, i as int) == Some(p@),
        r is None ==> placeholder_at(t@, i as int) is None,
{
    if !(i < t.len() && t[i] == '{') {
        return None;
    }
    proof {
        lemma_skip(t@, i + 1, CharClass::Space);
    }
    let n0 = skip_class(t, i + 1, CharClass::Space);
    proof {
        lemma_skip(t@, n0 as int, CharClass::Word);
    }
    let n1 = skip_class(t, n0, CharClass::Word);
    proof {
        lemma_skip(t@, n1 as int, CharClass::Space);
    }
    let m = skip_class(t, n1, CharClass::Space);
    if n1 == n0 {
        None
    } else if m < t.len() && t[m] == '}' {
        Some(Placeholder { start: i, end: m + 1, name: copy_range(t, n0, n1), constraint: None })
    } else if m < t.len() && t[m] == ',' {
        proof {
            lemma_skip(t@, m + 1, CharClass::Space);
        }
        let c0 = skip_class(t, m + 1, CharClass::Space);
        proof {
            lemma_constraint_end(t@, c0 as int);
        }
        let c1 = find_constraint_end(t, c0);
        if c1 < t.len() && t[c1] == '}' {
            let ce = trim_spaces_end(t, c0, c1);
            proof {
                lemma_trim_end(t@, c0 as int, c1 as int);
            }
            Some(
                Placeholder {
                    start: i,
                    end: c1 + 1,
                    name: copy_range(t, n0, n1),
                    constraint: Some(copy_range(t, c0, ce)),
                },
            )
        } else {
            None
        }
    } else {
        None
    }
}

/// All placeholders of a template, leftmost first and without overlap.
pub fn placeholders(t: &Vec<char>) -> (r: Vec<Placeholder>)
    ensures
        r@.map_values(|p: Placeholder| p@) == placeholders_of(t@),
{
    let mut r: Vec<Placeholder> = Vec::new();
    let mut i: usize = 0;
    while i < t.len()
        invariant
            i <= t.len(),
            r@.map_values(|p: Placeholder| p@) + scan(t@, i as int) == scan(t@, 0),
        decreases t.len() - i,
    {
        proof {
            lemma_placeholder_at(t@, i as int);
        }
        match placeholder_at_pos(t, i) {
            Some(p) => {
                let ghost pv = p@;
                let ghost before = r@.map_values(|p: Placeholder| p@);
                i = p.end;
                r.push(p);
                assert(r@.map_values(|p: Placeholder| p@) == before.push(pv));
                assert(before + scan(t@, pv.start) == before + (seq![pv] + scan(t@, i as int)));
                assert(before + (seq![pv] + scan(t@, i as int)) == before.push(pv) + scan(
                    t@,
                    i as int,
                ));
            },
            None => {
                i = i + 1;
            },
        }
    }
    assert(scan(t@, i as int) == Seq::<Occurrence>::empty());
    assert(r@.map_values(|p: Placeholder| p@) + Seq::<Occurrence>::empty() == r@.map_values(
        |p: Placeholder| p@,
    ));
    r
}

} // verus!
