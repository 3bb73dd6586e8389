use vstd::prelude::*;

use crate::scanner::placeholders_of;
use crate::wildcard::{compiles, extracted, first_redeclared, render, Wildcard, WildcardError, WildcardMap};

verus! {

/// A set of rules, each of which may produce the task for a requested path.
pub struct Workflow {
    pub rules: Vec<Box<dyn Rule>>,
}

/// Why a rule could not be built.
#[derive(Debug, Clone)]
pub enum Error {
    Wildcard(WildcardError),
}

impl From<WildcardError> for Error {
    fn from(value: WildcardError) -> (r: Error)
        ensures
            r == Error::Wildcard(value),
    {
        Error::Wildcard(value)
    }
}

impl vstd::std_specs::convert::FromSpecImpl<WildcardError> for Error {
    open spec fn obeys_from_spec() -> bool {
        true
    }

    open spec fn from_spec(v: WildcardError) -> Error {
        Error::Wildcard(v)
    }
}

/// A concrete unit of work: the rendered input and output paths, and the mapping that
/// rendered them.
pub struct Task {
    pub inputs: Vec<String>,
    pub outputs: Vec<String>,
    pub wildcards: WildcardMap,
}

pub open spec fn string_views(s: Seq<String>) -> Seq<Seq<char>> {
    s.map_values(|x: String| x@)
}

pub open spec fn templates_of(ws: Seq<Wildcard>) -> Seq<Seq<char>> {
    ws.map_values(|w: Wildcard| w.template())
}

/// The index of the first template from `k` on that `path` matches, with its mapping.
pub open spec fn first_extracted(ts: Seq<Seq<char>>, path: Seq<char>, k: int) -> Option<
    (int, Map<Seq<char>, Seq<char>>),
>
    decreases ts.len() - k,
{
    if 0 <= k < ts.len() {
        match extracted(ts[k], path) {
            Some(m) => Some((k, m)),
            None => first_extracted(ts, path, k + 1),
        }
    } else {
        None
    }
}

/// The index of the first template from `k` on that does not compile.
pub open spec fn first_failing(ts: Seq<Seq<char>>, k: int) -> Option<int>
    decreases ts.len() - k,
{
    if 0 <= k < ts.len() {
        if compiles(ts[k]) {
            first_failing(ts, k + 1)
        } else {
            Some(k)
        }
    } else {
        None
    }
}

/// The error that compiling template `t`, which does not compile, gives.
pub open spec fn compile_error_of(t: Seq<char>, e: WildcardError) -> bool {
    match first_redeclared(placeholders_of(t), 0) {
        Some(n) => e matches WildcardError::InvalidConstraint(x) && x@ == n,
        None => e is RegexError,
    }
}

/// Every template of `ts` renders from `m`.
pub open spec fn all_render(m: Map<Seq<char>, Seq<char>>, ts: Seq<Seq<char>>) -> bool {
    forall|i: int| 0 <= i < ts.len() ==> #[trigger] render(m, ts[i]) is Ok
}

/// Each template of `ts` rendered from `m`.
pub open spec fn rendered(m: Map<Seq<char>, Seq<char>>, ts: Seq<Seq<char>>) -> Seq<Seq<char>> {
    ts.map_values(|t: Seq<char>| render(m, t)->Ok_0)
}

/// What a rule with the given input and output templates makes of a requested path: the
/// first output template that matches gives the mapping, and every input and output
/// template is rendered from it; there is no task where no output template matches, or
/// where a template names a placeholder that the mapping lacks.
pub open spec fn materialized(
    inputs: Seq<Seq<char>>,
    outputs: Seq<Seq<char>>,
    path: Seq<char>,
    r: Option<Task>,
) -> bool {
    match first_extracted(outputs, path, 0) {
        None => r is None,
        Some((k, m)) => if all_render(m, inputs) && all_render(m, outputs) {
            r matches Some(task) && task.wildcards@ == m && string_views(
                task.inputs@,
            ) == rendered(m, inputs) && string_views(task.outputs@) == rendered(m, outputs)
        } else {
            r is None
        },
    }
}

/// A rule that may produce the task for a requested path.
pub trait Rule {
    /// What `materialize` gives for `path`.
    spec fn materializes(&self, path: Seq<char>, r: Option<Task>) -> bool;

    fn materialize(&self, path: &str) -> (r: Option<Task>)
        ensures
            self.materializes(path@, r),
    ;
}

/// A rule given by input and output templates.
pub struct WildcardRule {
    inputs: Vec<String>,
    outputs: Vec<Wildcard>,
}

impl WildcardRule {
    pub closed spec fn input_templates(&self) -> Seq<Seq<char>> {
        string_views(self.inputs@)
    }

    pub closed spec fn output_templates(&self) -> Seq<Seq<char>> {
        templates_of(self.outputs@)
    }

    /// Compiles each output template. Fails with the error of the first one that does not
    /// compile.
    pub fn new(inputs: &[String], outputs: &[String]) -> (r: Result<WildcardRule, Error>)
        ensures
            first_failing(string_views(outputs@), 0) is None ==> (r matches Ok(rule)
                && rule.input_templates() == string_views(inputs@) && rule.output_templates()
                == string_views(outputs@)),
            first_failing(string_views(outputs@), 0) matches Some(j) ==> (r matches Err(
                Error::Wildcard(e),
            ) && compile_error_of(outputs@[j]@, e)),
    {
        let mut ins: Vec<String> = Vec::new();
        let mut i: usize = 0;
        while i < inputs.len()
            invariant
                i <= inputs@.len(),
                string_views(ins@) == string_views(inputs@).subrange(0, i as int),
            decreases inputs@.len() - i,
        {
            let ghost ins0 = string_views(ins@);
            ins.push(inputs[i].clone());
            assert(string_views(ins@) =~= ins0.push(inputs@[i as int]@));
            assert(string_views(inputs@).subrange(0, i + 1) =~= string_views(inputs@).subrange(
                0,
                i as int,
            ).push(inputs@[i as int]@));
            i = i + 1;
        }
        let mut outs: Vec<Wildcard> = Vec::new();
        let mut k: usize = 0;
        while k < outputs.len()
            invariant
                k <= outputs@.len(),
                templates_of(outs@) == string_views(outputs@).subrange(0, k as int),
                first_failing(string_views(outputs@), 0) == first_failing(
                    string_views(outputs@),
                    k as int,
                ),
            decreases outputs@.len() - k,
        {
            assert(string_views(outputs@)[k as int] == outputs@[k as int]@);
            match Wildcard::new(outputs[k].as_str()) {
                Ok(w) => {
                    let ghost outs0 = templates_of(outs@);
                    outs.push(w);
                    assert(templates_of(outs@) =~= outs0.push(outputs@[k as int]@));
                    assert(string_views(outputs@).subrange(0, k + 1) =~= string_views(
                        outputs@,
                    ).subrange(0, k as int).push(outputs@[k as int]@));
                },
                Err(e) => {
                    return Err(Error::from(e));
                },
            }
            k = k + 1;
        }
        assert(string_views(inputs@).subrange(0, i as int) == string_views(inputs@));
        assert(string_views(outputs@).subrange(0, k as int) == string_views(outputs@));
        Ok(WildcardRule { inputs: ins, outputs: outs })
    }
}

/// Each template of `ts` rendered from `map`, or `None` where one of them names a
/// placeholder that the mapping lacks.
fn render_each(map: &WildcardMap, ts: &Vec<String>) -> (r: Option<Vec<String>>)
    ensures
        r is Some <==> all_render(map@, string_views(ts@)),
        r matches Some(v) ==> string_views(v@) == rendered(map@, string_views(ts@)),
{
    let ghost tv = string_views(ts@);
    let mut out: Vec<String> = Vec::new();
    let mut i: usize = 0;
    while i < ts.len()
        invariant
            i <= ts.len(),
            tv == string_views(ts@),
            forall|j: int| 0 <= j < i ==> #[trigger] render(map@, tv[j]) is Ok,
            string_views(out@) == rendered(map@, tv).subrange(0, i as int),
        decreases ts.len() - i,
    {
        assert(tv[i as int] == ts@[i as int]@);
        match map.apply(ts[i].as_str()) {
            Ok(s) => {
                let ghost out0 = string_views(out@);
                out.push(s);
                assert(string_views(out@) =~= out0.push(render(map@, tv[i as int])->Ok_0));
                assert(rendered(map@, tv).subrange(0, i + 1) =~= rendered(map@, tv).subrange(
                    0,
                    i as int,
                ).push(render(map@, tv[i as int])->Ok_0));
            },
            Err(_) => {
                assert(render(map@, tv[i as int]) is Err);
                return None;
            },
        }
        i = i + 1;
    }
    assert(rendered(map@, tv).subrange(0, i as int) =~= rendered(map@, tv));
    Some(out)
}

impl Rule for WildcardRule {
    open spec fn materializes(&self, path: Seq<char>, r: Option<Task>) -> bool {
        materialized(self.input_templates(), self.output_templates(), path, r)
    }

    /// The task for `path`: the first output template that matches it gives the mapping,
    /// from which every input and output template is rendered.
    fn materialize(&self, path: &str) -> (r: Option<Task>) {
        let ghost outs = self.output_templates();
        let mut k: usize = 0;
        while k < self.outputs.len()
            invariant
                k <= self.outputs.len(),
                outs == self.output_templates(),
                outs == templates_of(self.outputs@),
                first_extracted(outs, path@, 0) == first_extracted(outs, path@, k as int),
            decreases self.outputs.len() - k,
        {
            assert(outs[k as int] == self.outputs[k as int].template());
            match self.outputs[k].extract(path) {
                Some(map) => {
                    let inputs = match render_each(&map, &self.inputs) {
                        Some(v) => v,
                        None => {
                            return None;
                        },
                    };
                    let mut patterns: Vec<String> = Vec::new();
                    let mut j: usize = 0;
                    while j < self.outputs.len()
                        invariant
                            j <= self.outputs.len(),
                            outs == templates_of(self.outputs@),
                            string_views(patterns@) == outs.subrange(0, j as int),
                        decreases self.outputs.len() - j,
                    {
                        let ghost p0 = string_views(patterns@);
                        patterns.push(self.outputs[j].pattern().to_owned());
                        assert(string_views(patterns@) =~= p0.push(outs[j as int]));
                        assert(outs.subrange(0, j + 1) =~= outs.subrange(0, j as int).push(
                            outs[j as int],
                        ));
                        j = j + 1;
                    }
                    assert(outs.subrange(0, j as int) =~= outs);
                    let outputs = match render_each(&map, &patterns) {
                        Some(v) => v,
                        None => {
                            return None;
                        },
                    };
                    return Some(Task { inputs, outputs, wildcards: map });
                },
                None => {},
            }
            k = k + 1;
        }
        None
    }
}

} // verus!
