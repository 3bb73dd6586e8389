use vstd::prelude::*;

use crate::engine::{
    capture_groups, chars_of, compile_regex, escape, escaped, named_captures, opt_view, opt_views,
    regex_accepts, regex_source, string_of, views,
};
use crate::scanner::{copy_range, lemma_scan_ordered, placeholders, placeholders_of, Occurrence, Placeholder};

verus! {

/// Why a template could not be compiled or rendered.
#[derive(Debug, Clone)]
pub enum WildcardError {
    /// A placeholder name was given a constraint after its first occurrence.
    InvalidConstraint(String),
    /// A rendered template names a placeholder that the mapping lacks.
    MissingName(String),
    /// The regular expression made from the template was refused; this is the engine's
    /// message.
    RegexError(String),
}

/// The constraint of a placeholder that gives none: one or more of any character,
/// newlines included (the `s` flag lets `.` match a newline too).
pub open spec fn default_constraint() -> Seq<char> {
    seq!['(', '?', 's', ':', '.', '+', ')']
}

pub open spec fn constraint_or_default(c: Option<Seq<char>>) -> Seq<char> {
    match c {
        Some(c) => c,
        None => default_constraint(),
    }
}

/// How many of the first `i` placeholders are named `n`.
pub open spec fn count_named(occs: Seq<Occurrence>, n: Seq<char>, i: int) -> nat
    decreases i,
{
    if i <= 0 {
        0
    } else {
        count_named(occs, n, i - 1) + if occs[i - 1].name == n {
            1nat
        } else {
            0nat
        }
    }
}

/// The index of the first of the first `i` placeholders that is named `n`; `i` if none is.
pub open spec fn first_named(occs: Seq<Occurrence>, n: Seq<char>, i: int) -> int
    decreases i,
{
    if i <= 0 {
        0
    } else if first_named(occs, n, i - 1) < i - 1 {
        first_named(occs, n, i - 1)
    } else if occs[i - 1].name == n {
        i - 1
    } else {
        i
    }
}

/// The constraint that governs placeholder `i`: the one its name was first given.
pub open spec fn governing(occs: Seq<Occurrence>, i: int) -> Seq<char> {
    constraint_or_default(occs[first_named(occs, occs[i].name, i + 1)].constraint)
}

/// The label of the group that placeholder `i` becomes: its name, followed by as many
/// dots as earlier placeholders share that name. Names are word characters, so no two
/// labels of one template are equal.
pub open spec fn group_label(occs: Seq<Occurrence>, i: int) -> Seq<char> {
    occs[i].name + Seq::new(count_named(occs, occs[i].name, i), |j: int| '.')
}

/// The named group that placeholder `i` becomes.
pub open spec fn group_text(occs: Seq<Occurrence>, i: int) -> Seq<char> {
    seq!['(', '?', 'P', '<'] + group_label(occs, i) + seq!['>'] + governing(occs, i) + seq![')']
}

/// Placeholder `i` gives a constraint for a name that an earlier placeholder has.
pub open spec fn redeclares(occs: Seq<Occurrence>, i: int) -> bool {
    occs[i].constraint is Some && count_named(occs, occs[i].name, i) > 0
}

/// The name of the first placeholder from `i` on that redeclares a constraint.
pub open spec fn first_redeclared(occs: Seq<Occurrence>, i: int) -> Option<Seq<char>>
    decreases occs.len() - i,
{
    if 0 <= i < occs.len() {
        if redeclares(occs, i) {
            Some(occs[i].name)
        } else {
            first_redeclared(occs, i + 1)
        }
    } else {
        None
    }
}

/// Whether template `t` compiles: no name is given a second constraint, and the
/// regular expression engine accepts what the template translates to.
pub open spec fn compiles(t: Seq<char>) -> bool {
    first_redeclared(placeholders_of(t), 0) is None && regex_accepts(regex_of(t))
}

/// Where the literal text before placeholder `i` (or after the last one) starts.
pub open spec fn literal_start(occs: Seq<Occurrence>, i: int) -> int {
    if i <= 0 {
        0
    } else {
        occs[i - 1].end
    }
}

/// The literal text before placeholder `i`, or after the last one.
pub open spec fn literal(t: Seq<char>, occs: Seq<Occurrence>, i: int) -> Seq<char> {
    if 0 <= i < occs.len() {
        t.subrange(literal_start(occs, i), occs[i].start)
    } else {
        t.subrange(literal_start(occs, i), t.len() as int)
    }
}

/// The regular expression for the template from placeholder `i` on.
pub open spec fn regex_tail(t: Seq<char>, occs: Seq<Occurrence>, i: int) -> Seq<char>
    decreases occs.len() - i,
{
    if 0 <= i < occs.len() {
        escaped(literal(t, occs, i)) + group_text(occs, i) + regex_tail(t, occs, i + 1)
    } else {
        escaped(literal(t, occs, i)) + seq!['$']
    }
}

/// The regular expression that a template compiles to: anchored at both ends, its
/// literal text escaped, and one named group per placeholder.
pub open spec fn regex_of(t: Seq<char>) -> Seq<char> {
    seq!['^'] + regex_tail(t, placeholders_of(t), 0)
}

pub open spec fn names_of(occs: Seq<Occurrence>) -> Seq<Seq<char>> {
    occs.map_values(|o: Occurrence| o.name)
}

pub open spec fn labels_of(occs: Seq<Occurrence>) -> Seq<Seq<char>> {
    Seq::new(occs.len(), |i: int| group_label(occs, i))
}

/// The mapping from each name of `names` to the value at its position in `vals`.
pub open spec fn mapping_of(names: Seq<Seq<char>>, vals: Seq<Seq<char>>) -> Map<
    Seq<char>,
    Seq<char>,
> {
    Map::new(
        |k: Seq<char>| names.contains(k),
        |k: Seq<char>| vals[choose|i: int| 0 <= i < names.len() && names[i] == k],
    )
}

/// Every position has a value, and equal names have equal values.
pub open spec fn agree(names: Seq<Seq<char>>, vals: Seq<Option<Seq<char>>>) -> bool {
    &&& names.len() == vals.len()
    &&& forall|i: int| 0 <= i < vals.len() ==> #[trigger] vals[i] is Some
    &&& forall|i: int, j: int|
        0 <= i < names.len() && 0 <= j < names.len() && #[trigger] names[i] == #[trigger] names[j]
            ==> vals[i] == vals[j]
}

pub open spec fn unwrapped(vals: Seq<Option<Seq<char>>>) -> Seq<Seq<char>> {
    vals.map_values(|v: Option<Seq<char>>| v->0)
}

/// The mapping that the values found for the groups of `names` give, if they agree.
pub open spec fn extraction(names: Seq<Seq<char>>, vals: Seq<Option<Seq<char>>>) -> Option<
    Map<Seq<char>, Seq<char>>,
> {
    if agree(names, vals) {
        Some(mapping_of(names, unwrapped(vals)))
    } else {
        None
    }
}

/// The value that each label's group captured, where it took part.
pub open spec fn captured_values(caps: Map<Seq<char>, Seq<char>>, labels: Seq<Seq<char>>) -> Seq<
    Option<Seq<char>>,
> {
    Seq::new(
        labels.len(),
        |i: int|
            if caps.contains_key(labels[i]) {
                Some(caps[labels[i]])
            } else {
                None
            },
    )
}

/// What matching `input` against template `t` gives: no mapping where the template's
/// regular expression does not match, else the mapping that the captured values give.
pub open spec fn extracted(t: Seq<char>, input: Seq<char>) -> Option<Map<Seq<char>, Seq<char>>> {
    match named_captures(regex_of(t), input) {
        None => None,
        Some(caps) => extraction(
            names_of(placeholders_of(t)),
            captured_values(caps, labels_of(placeholders_of(t))),
        ),
    }
}

/// The template from placeholder `i` on, rendered from `m`: `Err` holds the first name
/// that `m` lacks.
pub open spec fn render_tail(
    m: Map<Seq<char>, Seq<char>>,
    t: Seq<char>,
    occs: Seq<Occurrence>,
    i: int,
) -> Result<Seq<char>, Seq<char>>
    decreases occs.len() - i,
{
    if 0 <= i < occs.len() {
        if !m.contains_key(occs[i].name) {
            Err(occs[i].name)
        } else {
            match render_tail(m, t, occs, i + 1) {
                Ok(rest) => Ok(literal(t, occs, i) + m[occs[i].name] + rest),
                Err(e) => Err(e),
            }
        }
    } else {
        Ok(literal(t, occs, i))
    }
}

/// A template rendered from a mapping: each placeholder replaced by the value of its
/// name, literal text kept as it is.
pub open spec fn render(m: Map<Seq<char>, Seq<char>>, t: Seq<char>) -> Result<Seq<char>, Seq<char>> {
    render_tail(m, t, placeholders_of(t), 0)
}

/// The template from placeholder `i` on with placeholder `j` replaced by `vals[j]`.
pub open spec fn fill_tail(t: Seq<char>, occs: Seq<Occurrence>, vals: Seq<Seq<char>>, i: int) -> Seq<
    char,
>
    decreases occs.len() - i,
{
    if 0 <= i < occs.len() {
        literal(t, occs, i) + vals[i] + fill_tail(t, occs, vals, i + 1)
    } else {
        literal(t, occs, i)
    }
}

/// The template with each placeholder replaced by the value at its position.
pub open spec fn fill(t: Seq<char>, vals: Seq<Seq<char>>) -> Seq<char> {
    fill_tail(t, placeholders_of(t), vals, 0)
}

fn push_all(acc: &mut Vec<char>, s: &Vec<char>)
    ensures
        final(acc)@ == old(acc)@ + s@,
{
    let mut j: usize = 0;
    while j < s.len()
        invariant
            j <= s.len(),
            acc@ == old(acc)@ + s@.subrange(0, j as int),
        decreases s.len() - j,
    {
        acc.push(s[j]);
        j = j + 1;
        assert(acc@ == old(acc)@ + s@.subrange(0, j as int));
    }
    assert(s@.subrange(0, s.len() as int) == s@);
}

fn copy_all(s: &Vec<char>) -> (r: Vec<char>)
    ensures
        r@ == s@,
{
    let r = copy_range(s, 0, s.len());
    assert(s@.subrange(0, s.len() as int) == s@);
    r
}

fn same_chars(a: &Vec<char>, b: &Vec<char>) -> (r: bool)
    ensures
        r == (a@ == b@),
{
    if a.len() != b.len() {
        return false;
    }
    let mut j: usize = 0;
    while j < a.len()
        invariant
            j <= a.len() == b.len(),
            a@.subrange(0, j as int) == b@.subrange(0, j as int),
        decreases a.len() - j,
    {
        if a[j] != b[j] {
            assert(a@.subrange(0, j as int + 1)[j as int] != b@.subrange(0, j as int + 1)[j as int]);
            return false;
        }
        assert(a@.subrange(0, j as int + 1) == a@.subrange(0, j as int).push(a@[j as int]));
        assert(b@.subrange(0, j as int + 1) == b@.subrange(0, j as int).push(b@[j as int]));
        j = j + 1;
    }
    assert(a@ == a@.subrange(0, j as int));
    assert(b@ == b@.subrange(0, j as int));
    true
}


fn copy_all_vecs(v: &Vec<Vec<char>>) -> (r: Vec<Vec<char>>)
    ensures
        views(r@) == views(v@),
{
    let mut r: Vec<Vec<char>> = Vec::new();
    let mut j: usize = 0;
    while j < v.len()
        invariant
            j <= v.len(),
            views(r@) == views(v@).subrange(0, j as int),
        decreases v.len() - j,
    {
        let ghost r0 = r@;
        r.push(copy_all(&v[j]));
        assert(views(r@) =~= views(r0).push(v@[j as int]@));
        assert(views(v@).subrange(0, j + 1) =~= views(v@).subrange(0, j as int).push(v@[j as int]@));
        j = j + 1;
    }
    assert(views(v@).subrange(0, j as int) == views(v@));
    r
}

/// How many of the first `i` placeholders share the name of placeholder `i`, and the
/// index of the first placeholder of that name (`i` itself where it is the first).
fn earlier_of_name(occs: &Vec<Placeholder>, i: usize) -> (r: (usize, usize))
    requires
        i < occs.len(),
    ensures
        r.0 == count_named(occs@.map_values(|p: Placeholder| p@), occs[i as int].name@, i as int),
        r.1 as int == first_named(
            occs@.map_values(|p: Placeholder| p@),
            occs[i as int].name@,
            i + 1,
        ),
        r.1 <= i,
{
    let ghost occv = occs@.map_values(|p: Placeholder| p@);
    let ghost n = occs[i as int].name@;
    let mut count: usize = 0;
    let mut first: usize = i;
    let mut j: usize = 0;
    while j < i
        invariant
            j <= i < occs.len(),
            occv == occs@.map_values(|p: Placeholder| p@),
            n == occs[i as int].name@,
            count <= j,
            count == count_named(occv, n, j as int),
            first <= i,
            first < i ==> first < j && first_named(occv, n, j as int) == first,
            first == i ==> first_named(occv, n, j as int) == j,
        decreases i - j,
    {
        assert(occv[j as int] == occs@[j as int]@);
        let same = same_chars(&occs[j].name, &occs[i].name);
        if same {
            count = count + 1;
            if first == i {
                first = j;
            }
        }
        j = j + 1;
    }
    assert(occv[i as int] == occs@[i as int]@);
    (count, first)
}

/// The regular expression that template `t` compiles to, with the name and the label of
/// the group of each placeholder; or the first name whose constraint is given again.
#[verifier::rlimit(40)]
fn translate(t: &Vec<char>, occs: &Vec<Placeholder>) -> (r: Result<
    (Vec<char>, Vec<Vec<char>>, Vec<Vec<char>>),
    Vec<char>,
>)
    requires
        occs@.map_values(|p: Placeholder| p@) == placeholders_of(t@),
    ensures
        first_redeclared(placeholders_of(t@), 0) matches Some(n) ==> (r matches Err(e) && e@ == n),
        first_redeclared(placeholders_of(t@), 0) is None ==> (r matches Ok(v) && v.0@ == regex_of(
            t@,
        ) && views(v.1@) == names_of(placeholders_of(t@)) && views(v.2@) == labels_of(
            placeholders_of(t@),
        )),
{
    let ghost occv = placeholders_of(t@);
    proof {
        lemma_scan_ordered(t@, 0);
    }
    let mut re: Vec<char> = Vec::new();
    re.push('^');
    let mut names: Vec<Vec<char>> = Vec::new();
    let mut labels: Vec<Vec<char>> = Vec::new();
    let mut last: usize = 0;
    let mut i: usize = 0;
    assert(re@ + regex_tail(t@, occv, 0) == regex_of(t@));
    while i < occs.len()
        invariant
            i <= occs.len(),
            occv == occs@.map_values(|p: Placeholder| p@),
            occv == placeholders_of(t@),
            forall|j: int|
                0 <= j < occv.len() ==> 0 <= #[trigger] occv[j].start < occv[j].end <= t.len(),
            forall|j: int| 0 <= j < occv.len() - 1 ==> #[trigger] occv[j].end <= occv[j + 1].start,
            last as int == literal_start(occv, i as int),
            last <= t.len(),
            re@ + regex_tail(t@, occv, i as int) == regex_of(t@),
            first_redeclared(occv, 0) == first_redeclared(occv, i as int),
            views(names@) == names_of(occv).subrange(0, i as int),
            views(labels@) == labels_of(occv).subrange(0, i as int),
        decreases occs.len() - i,
    {
        let p = &occs[i];
        assert(occv[i as int] == p@);
        let ghost re0 = re@;
        let lit = copy_range(t, last, p.start);
        let esc = escape(&lit);
        push_all(&mut re, &esc);
        let (count, first) = earlier_of_name(occs, i);
        if p.constraint.is_some() && count > 0 {
            return Err(copy_all(&p.name));
        }
        let mut label = copy_all(&p.name);
        let mut k: usize = 0;
        while k < count
            invariant
                k <= count,
                label@ == p.name@ + Seq::new(k as nat, |j: int| '.'),
            decreases count - k,
        {
            label.push('.');
            k = k + 1;
            assert(label@ == p.name@ + Seq::new(k as nat, |j: int| '.'));
        }
        let ghost re1 = re@;
        re.push('(');
        re.push('?');
        re.push('P');
        re.push('<');
        push_all(&mut re, &label);
        re.push('>');
        assert(occv[first as int] == occs@[first as int]@);
        match &occs[first].constraint {
            Some(c) => {
                push_all(&mut re, c);
            },
            None => {
                re.push('(');
                re.push('?');
                re.push('s');
                re.push(':');
                re.push('.');
                re.push('+');
                re.push(')');
            },
        }
        re.push(')');
        assert(label@ == group_label(occv, i as int));
        assert(re@ == re1 + group_text(occv, i as int));
        assert(re1 == re0 + escaped(literal(t@, occv, i as int)));
        assert(regex_tail(t@, occv, i as int) == escaped(literal(t@, occv, i as int)) + group_text(
            occv,
            i as int,
        ) + regex_tail(t@, occv, i + 1));
        assert(re@ + regex_tail(t@, occv, i + 1) == re0 + regex_tail(t@, occv, i as int));
        let ghost names0 = views(names@);
        let ghost labels0 = views(labels@);
        names.push(copy_all(&p.name));
        labels.push(label);
        assert(views(names@) == names0.push(p.name@));
        assert(views(labels@) == labels0.push(group_label(occv, i as int)));
        assert(names_of(occv).subrange(0, i + 1) == names_of(occv).subrange(0, i as int).push(
            p.name@,
        ));
        assert(labels_of(occv).subrange(0, i + 1) == labels_of(occv).subrange(0, i as int).push(
            group_label(occv, i as int),
        ));
        last = p.end;
        i = i + 1;
    }
    let lit = copy_range(t, last, t.len());
    let esc = escape(&lit);
    push_all(&mut re, &esc);
    re.push('$');
    assert(names_of(occv).subrange(0, i as int) == names_of(occv));
    assert(labels_of(occv).subrange(0, i as int) == labels_of(occv));
    Ok((re, names, labels))
}


/// A compiled template: it matches whole strings and extracts the value of each
/// placeholder.
#[derive(Debug)]
pub struct Wildcard {
    pattern: String,
    re: regex::Regex,
    names: Vec<Vec<char>>,
    labels: Vec<Vec<char>>,
}

/// A mapping from placeholder names to the values that a match gave them.
#[derive(Debug)]
pub struct WildcardMap {
    names: Vec<Vec<char>>,
    values: Vec<Vec<char>>,
}

impl View for WildcardMap {
    type V = Map<Seq<char>, Seq<char>>;

    closed spec fn view(&self) -> Map<Seq<char>, Seq<char>> {
        mapping_of(views(self.names@), views(self.values@))
    }
}

impl WildcardMap {
    /// Each name has one value, wherever it stands.
    #[verifier::type_invariant]
    spec fn wf(&self) -> bool {
        &&& self.names.len() == self.values.len()
        &&& forall|i: int, j: int|
            0 <= i < self.names.len() && 0 <= j < self.names.len() && #[trigger] self.names[i]@
                == #[trigger] self.names[j]@ ==> self.values[i]@ == self.values[j]@
    }

    fn lookup(&self, n: &Vec<char>) -> (r: Option<usize>)
        ensures
            r matches Some(k) ==> k < self.values.len() && self@.contains_key(n@) && self@[n@]
                == self.values[k as int]@,
            r is None ==> !self@.contains_key(n@),
    {
        proof {
            use_type_invariant(self);
        }
        let mut k: usize = 0;
        while k < self.names.len()
            invariant
                k <= self.names.len(),
                self.wf(),
                forall|j: int| 0 <= j < k ==> self.names[j]@ != n@,
            decreases self.names.len() - k,
        {
            if same_chars(&self.names[k], n) {
                proof {
                    let ns = views(self.names@);
                    assert(ns[k as int] == n@);
                    assert(ns.contains(n@));
                    let c = choose|i: int| 0 <= i < ns.len() && ns[i] == n@;
                    assert(self.names[c]@ == self.names[k as int]@);
                }
                return Some(k);
            }
            k = k + 1;
        }
        proof {
            let ns = views(self.names@);
            if ns.contains(n@) {
                let c = choose|i: int| 0 <= i < ns.len() && ns[i] == n@;
                assert(self.names[c]@ == n@);
            }
        }
        None
    }

    /// The value of placeholder `name`, if the mapping has one.
    pub fn get(&self, name: &str) -> (r: Option<String>)
        ensures
            r matches Some(v) ==> self@.contains_key(name@) && v@ == self@[name@],
            r is None ==> !self@.contains_key(name@),
    {
        let n = chars_of(name);
        match self.lookup(&n) {
            Some(k) => Some(string_of(&self.values[k])),
            None => None,
        }
    }

    /// Renders `template`: each placeholder is replaced by the value of its name, literal
    /// text is kept as it is. Fails with the first placeholder name that has no value.
    pub fn apply(&self, template: &str) -> (r: Result<String, WildcardError>)
        ensures
            render(self@, template@) matches Ok(s) ==> (r matches Ok(o) && o@ == s),
            render(self@, template@) matches Err(n) ==> (r matches Err(
                WildcardError::MissingName(x),
            ) && x@ == n),
    {
        proof {
            use_type_invariant(self);
        }
        let t = chars_of(template);
        let occs = placeholders(&t);
        let ghost occv = placeholders_of(t@);
        let ghost m = self@;
        proof {
            lemma_scan_ordered(t@, 0);
        }
        let mut acc: Vec<char> = Vec::new();
        let mut last: usize = 0;
        let mut i: usize = 0;
        while i < occs.len()
            invariant
                i <= occs.len(),
                self.wf(),
                m == self@,
                t@ == template@,
                occv == occs@.map_values(|p: Placeholder| p@),
                occv == placeholders_of(t@),
                forall|j: int|
                    0 <= j < occv.len() ==> 0 <= #[trigger] occv[j].start < occv[j].end <= t.len(),
                forall|j: int|
                    0 <= j < occv.len() - 1 ==> #[trigger] occv[j].end <= occv[j + 1].start,
                last as int == literal_start(occv, i as int),
                last <= t.len(),
                render_tail(m, t@, occv, i as int) matches Ok(rest) ==> render(m, t@) == Ok::<
                    Seq<char>,
                    Seq<char>,
                >(acc@ + rest),
                render_tail(m, t@, occv, i as int) matches Err(e) ==> render(m, t@) == Err::<
                    Seq<char>,
                    Seq<char>,
                >(e),
            decreases occs.len() - i,
        {
            let p = &occs[i];
            assert(occv[i as int] == p@);
            proof {
                if i > 0 {
                    assert(occv[i - 1].end <= occv[i as int].start);
                }
            }
            match self.lookup(&p.name) {
                None => {
                    return Err(WildcardError::MissingName(string_of(&p.name)));
                },
                Some(k) => {
                    let ghost acc0 = acc@;
                    let lit = copy_range(&t, last, p.start);
                    push_all(&mut acc, &lit);
                    push_all(&mut acc, &self.values[k]);
                    assert(acc@ == acc0 + literal(t@, occv, i as int) + m[p.name@]);
                    proof {
                        if let Ok(rest) = render_tail(m, t@, occv, i + 1) {
                            assert(acc0 + (literal(t@, occv, i as int) + m[p.name@] + rest)
                                == acc@ + rest);
                        }
                    }
                },
            }
            last = p.end;
            i = i + 1;
        }
        let lit = copy_range(&t, last, t.len());
        push_all(&mut acc, &lit);
        Ok(string_of(&acc))
    }
}

impl Clone for Wildcard {
    fn clone(&self) -> Self {
        proof {
            use_type_invariant(self);
        }
        Wildcard {
            pattern: self.pattern.clone(),
            re: self.re.clone(),
            names: copy_all_vecs(&self.names),
            labels: copy_all_vecs(&self.labels),
        }
    }
}

impl Clone for WildcardMap {
    fn clone(&self) -> Self {
        proof {
            use_type_invariant(self);
        }
        let names = copy_all_vecs(&self.names);
        let values = copy_all_vecs(&self.values);
        proof {
            assert(names.len() == views(names@).len() == views(self.names@).len());
            assert(values.len() == views(values@).len() == views(self.values@).len());
            assert forall|i: int, j: int|
                0 <= i < names.len() && 0 <= j < names.len() && #[trigger] names[i]@
                    == #[trigger] names[j]@ implies values[i]@ == values[j]@ by {
                assert(views(names@)[i] == views(self.names@)[i]);
                assert(views(names@)[j] == views(self.names@)[j]);
                assert(views(values@)[i] == views(self.values@)[i]);
                assert(views(values@)[j] == views(self.values@)[j]);
                assert(self.names[i]@ == self.names[j]@);
            }
        }
        WildcardMap { names, values }
    }
}

impl Wildcard {
    /// The template text this pattern was compiled from.
    pub closed spec fn template(&self) -> Seq<char> {
        self.pattern@
    }

    /// The regular expression, the group names and the group labels are those of the
    /// template.
    #[verifier::type_invariant]
    spec fn wf(&self) -> bool {
        &&& regex_source(self.re) == regex_of(self.pattern@)
        &&& views(self.names@) == names_of(placeholders_of(self.pattern@))
        &&& views(self.labels@) == labels_of(placeholders_of(self.pattern@))
    }

    /// Compiles `pattern`. Fails with the first placeholder name whose constraint is given
    /// again after its first occurrence, or with the error of the regular expression engine.
    pub fn new(pattern: &str) -> (r: Result<Wildcard, WildcardError>)
        ensures
            first_redeclared(placeholders_of(pattern@), 0) matches Some(n) ==> (r matches Err(
                WildcardError::InvalidConstraint(e),
            ) && e@ == n),
            first_redeclared(placeholders_of(pattern@), 0) is None ==> (r is Ok <==> regex_accepts(
                regex_of(pattern@),
            )),
            first_redeclared(placeholders_of(pattern@), 0) is None && !regex_accepts(
                regex_of(pattern@),
            ) ==> r matches Err(WildcardError::RegexError(_)),
            r matches Ok(w) ==> w.template() == pattern@,
    {
        let t = chars_of(pattern);
        let occs = placeholders(&t);
        match translate(&t, &occs) {
            Err(n) => Err(WildcardError::InvalidConstraint(string_of(&n))),
            Ok((source, names, labels)) => match compile_regex(&source) {
                Ok(re) => Ok(Wildcard { pattern: string_of(&t), re, names, labels }),
                Err(e) => Err(WildcardError::RegexError(e)),
            },
        }
    }

    /// The template text this pattern was compiled from.
    pub fn pattern(&self) -> (r: &str)
        ensures
            r@ == self.template(),
    {
        self.pattern.as_str()
    }

    /// The mapping that the values captured for the placeholders give: `caps` holds, for
    /// each placeholder in order, what its group captured. There is one where every
    /// placeholder captured a value and placeholders of one name captured the same value.
    pub fn from_captures(&self, caps: Option<Vec<Option<Vec<char>>>>) -> (r: Option<WildcardMap>)
        ensures
            caps is None ==> r is None,
            caps matches Some(v) ==> (match r {
                Some(m) => extraction(
                    names_of(placeholders_of(self.template())),
                    opt_views(v@),
                ) == Some(m@),
                None => extraction(names_of(placeholders_of(self.template())), opt_views(v@))
                    is None,
            }),
    {
        proof {
            use_type_invariant(self);
        }
        let v = match &caps {
            None => {
                return None;
            },
            Some(v) => v,
        };
        let ghost names = views(self.names@);
        let ghost vals = opt_views(v@);
        assert(names == names_of(placeholders_of(self.template())));
        if v.len() != self.names.len() {
            return None;
        }
        let mut values: Vec<Vec<char>> = Vec::new();
        let mut i: usize = 0;
        while i < v.len()
            invariant
                i <= v.len(),
                v.len() == self.names.len(),
                caps == Some(*v),
                vals == opt_views(v@),
                forall|j: int| 0 <= j < i ==> #[trigger] vals[j] is Some,
                views(values@) == unwrapped(vals).subrange(0, i as int),
            decreases v.len() - i,
        {
            match &v[i] {
                Some(x) => {
                    let ghost values0 = views(values@);
                    values.push(copy_all(x));
                    assert(views(values@) =~= values0.push(x@));
                    assert(unwrapped(vals).subrange(0, i + 1) =~= unwrapped(vals).subrange(
                        0,
                        i as int,
                    ).push(x@));
                },
                None => {
                    assert(vals[i as int] is None);
                    assert(!agree(names, vals));
                    return None;
                },
            }
            i = i + 1;
        }
        assert(unwrapped(vals).subrange(0, i as int) == unwrapped(vals));
        let mut a: usize = 0;
        while a < values.len()
            invariant
                a <= values.len() == self.names.len(),
                caps == Some(*v),
                names == views(self.names@),
                names == names_of(placeholders_of(self.template())),
                vals == opt_views(v@),
                forall|j: int| 0 <= j < vals.len() ==> #[trigger] vals[j] is Some,
                vals.len() == names.len(),
                views(values@) == unwrapped(vals),
                forall|x: int, y: int|
                    0 <= y < x < a && #[trigger] names[x] == #[trigger] names[y] ==> values[x]@
                        == values[y]@,
            decreases values.len() - a,
        {
            let mut b: usize = 0;
            while b < a
                invariant
                    b <= a < values.len() == self.names.len(),
                caps == Some(*v),
                    names == views(self.names@),
                    names == names_of(placeholders_of(self.template())),
                    vals == opt_views(v@),
                    forall|j: int| 0 <= j < vals.len() ==> #[trigger] vals[j] is Some,
                    vals.len() == names.len(),
                    views(values@) == unwrapped(vals),
                    forall|x: int, y: int|
                        0 <= y < x < a && #[trigger] names[x] == #[trigger] names[y]
                            ==> values[x]@ == values[y]@,
                    forall|y: int|
                        0 <= y < b && names[a as int] == #[trigger] names[y] ==> values[a as int]@
                            == values[y]@,
                decreases a - b,
            {
                if same_chars(&self.names[a], &self.names[b]) && !same_chars(
                    &values[a],
                    &values[b],
                ) {
                    proof {
                        assert(names[a as int] == names[b as int]);
                        assert(unwrapped(vals)[a as int] != unwrapped(vals)[b as int]);
                        assert(!agree(names_of(placeholders_of(self.template())), vals));
                    }
                    return None;
                }
                b = b + 1;
            }
            a = a + 1;
        }
        let names_copy = copy_all_vecs(&self.names);
        proof {
            assert forall|x: int, y: int|
                0 <= x < names.len() && 0 <= y < names.len() && #[trigger] names[x]
                    == #[trigger] names[y] implies vals[x] == vals[y] by {
                if y < x {
                    assert(values[x]@ == values[y]@);
                } else if x < y {
                    assert(values[y]@ == values[x]@);
                }
                assert(views(values@)[x] == values[x]@);
                assert(views(values@)[y] == values[y]@);
                assert(vals[x] is Some && vals[y] is Some);
            }
            assert(agree(names, vals));
            assert forall|x: int, y: int|
                0 <= x < names_copy.len() && 0 <= y < names_copy.len() && #[trigger] names_copy[x]@
                    == #[trigger] names_copy[y]@ implies values[x]@ == values[y]@ by {
                assert(views(names_copy@)[x] == names_copy[x]@);
                assert(views(names_copy@)[y] == names_copy[y]@);
                assert(views(values@)[x] == values[x]@);
                assert(views(values@)[y] == values[y]@);
                assert(vals[x] == vals[y]);
            }
        }
        let m = WildcardMap { names: names_copy, values };
        assert(m@ == mapping_of(names, unwrapped(vals)));
        Some(m)
    }

    /// Matches `input` as a whole against the template. Gives the mapping from each
    /// placeholder name to the text it matched, or `None` where the input does not match
    /// or placeholders of one name matched different text.
    pub fn extract(&self, input: &str) -> (r: Option<WildcardMap>)
        ensures
            match r {
                Some(m) => extracted(self.template(), input@) == Some(m@),
                None => extracted(self.template(), input@) is None,
            },
    {
        proof {
            use_type_invariant(self);
        }
        let caps = capture_groups(&self.re, input, &self.labels);
        proof {
            if caps is Some {
                let v = caps->0;
                let c = named_captures(regex_of(self.template()), input@)->0;
                assert(opt_views(v@) =~= captured_values(c, labels_of(placeholders_of(self.template()))));
            }
        }
        self.from_captures(caps)
    }
}


/// Where the values found for a template's placeholders give a mapping, every
/// placeholder's value is the value that the mapping holds for its name.
pub proof fn law_extraction_consistent(
    names: Seq<Seq<char>>,
    vals: Seq<Option<Seq<char>>>,
    m: Map<Seq<char>, Seq<char>>,
)
    requires
        extraction(names, vals) == Some(m),
    ensures
        forall|i: int|
            0 <= i < names.len() ==> m.contains_key(#[trigger] names[i]) && vals[i] == Some(
                m[names[i]],
            ),
{
    assert forall|i: int| 0 <= i < names.len() implies m.contains_key(#[trigger] names[i])
        && vals[i] == Some(m[names[i]]) by {
        assert(names.contains(names[i]));
        let k = choose|k: int| 0 <= k < names.len() && names[k] == names[i];
        assert(vals[k] == vals[i]);
        assert(vals[k] is Some);
    }
}

proof fn lemma_render_tail_fill(
    m: Map<Seq<char>, Seq<char>>,
    t: Seq<char>,
    occs: Seq<Occurrence>,
    vals: Seq<Seq<char>>,
    i: int,
)
    requires
        0 <= i,
        vals.len() == occs.len(),
        forall|j: int|
            0 <= j < occs.len() ==> m.contains_key(#[trigger] occs[j].name) && m[occs[j].name]
                == vals[j],
    ensures
        render_tail(m, t, occs, i) == Ok::<Seq<char>, Seq<char>>(fill_tail(t, occs, vals, i)),
    decreases occs.len() - i,
{
    if i < occs.len() {
        lemma_render_tail_fill(m, t, occs, vals, i + 1);
    }
}

/// Round trip: where the values that a template's groups captured give a mapping,
/// rendering the template from that mapping puts each captured value back in the place
/// of its placeholder, between the template's own literal text. A whole match of the
/// template's regular expression is exactly such a text, its literal parts escaped so
/// that they match only themselves.
pub proof fn law_render_refills(
    t: Seq<char>,
    vals: Seq<Option<Seq<char>>>,
    m: Map<Seq<char>, Seq<char>>,
)
    requires
        extraction(names_of(placeholders_of(t)), vals) == Some(m),
    ensures
        render(m, t) == Ok::<Seq<char>, Seq<char>>(fill(t, unwrapped(vals))),
{
    let occs = placeholders_of(t);
    let names = names_of(occs);
    law_extraction_consistent(names, vals, m);
    assert forall|j: int| 0 <= j < occs.len() implies m.contains_key(#[trigger] occs[j].name)
        && m[occs[j].name] == unwrapped(vals)[j] by {
        assert(names[j] == occs[j].name);
    }
    lemma_render_tail_fill(m, t, occs, unwrapped(vals), 0);
}

/// Round trip through a match: where matching `input` against template `t` gives the
/// mapping `m`, rendering `t` from `m` gives `t` with each placeholder refilled by the
/// text that its group captured.
pub proof fn law_extract_then_render(t: Seq<char>, input: Seq<char>, m: Map<Seq<char>, Seq<char>>)
    requires
        extracted(t, input) == Some(m),
    ensures
        render(m, t) == Ok::<Seq<char>, Seq<char>>(
            fill(
                t,
                unwrapped(
                    captured_values(
                        named_captures(regex_of(t), input)->0,
                        labels_of(placeholders_of(t)),
                    ),
                ),
            ),
        ),
{
    law_render_refills(
        t,
        captured_values(named_captures(regex_of(t), input)->0, labels_of(placeholders_of(t))),
        m,
    );
}

} // verus!
