//! The step graph of a plot: construction, validation, and the order in
//! which steps become ready.

use vstd::prelude::*;
use vstd::string::*;

use crate::error::RunError;
use crate::lowering::causeless;
use crate::model::{Plot, PlotInput, Step, step_names};
use crate::text::text_eq;

verus! {

/// Parents and children of each step, by name, in the order of the plot.
pub struct PlotGraph {
    pub nodes: Vec<String>,
    pub parents: Vec<(String, Vec<String>)>,
    pub children: Vec<(String, Vec<String>)>,
}

/// Whether input `j` of step `v` pipes from the step named `s`.
pub open spec fn source_at(plot: Plot, v: int, j: int, s: Seq<char>) -> bool {
    &&& 0 <= v < plot.steps@.len()
    &&& plot.steps@[v].1 matches Step::Protoformula(pf)
    &&& 0 <= j < pf.inputs@.len()
    &&& pf.inputs@[j].1 matches PlotInput::Pipe(p)
    &&& p.step_name@ == s
    &&& s.len() > 0
}

/// Whether the step named `d` pipes from the step named `s`.
pub open spec fn pipes_from(plot: Plot, d: Seq<char>, s: Seq<char>) -> bool {
    exists|v: int, j: int| #[trigger] source_at(plot, v, j, s) && step_names(plot)[v] == d
}

/// Whether `(k, v)` is an entry of a mapping from names to sets of names.
pub open spec fn rel(m: Seq<(String, Vec<String>)>, k: Seq<char>, x: Seq<char>) -> bool {
    exists|i: int, j: int|
        0 <= i < m.len() && 0 <= j < m[i].1@.len() && #[trigger] m[i].0@ == k
            && #[trigger] m[i].1@[j]@ == x
}

/// Keys are unique, and each value is a non-empty set without repeats.
pub open spec fn set_map_wf(m: Seq<(String, Vec<String>)>) -> bool {
    &&& forall|a: int, b: int| 0 <= a < b < m.len() ==> m[a].0@ != m[b].0@
    &&& forall|i: int| 0 <= i < m.len() ==> (#[trigger] m[i]).1@.len() > 0
    &&& forall|i: int, a: int, b: int|
        0 <= i < m.len() && 0 <= a < b < m[i].1@.len() ==> #[trigger] m[i].1@[a]@
            != #[trigger] m[i].1@[b]@
}

/// A mapping from names to sets of names, as values, in order.
pub open spec fn sm_view(m: Seq<(String, Vec<String>)>) -> Seq<(Seq<char>, Seq<Seq<char>>)> {
    m.map_values(|e: (String, Vec<String>)| (e.0@, names_view(e.1@)))
}

/// `x` added last to the ordered set `s`, unless it is there already.
pub open spec fn set_add(s: Seq<Seq<char>>, x: Seq<char>) -> Seq<Seq<char>> {
    if s.contains(x) {
        s
    } else {
        s.push(x)
    }
}

/// `x` added to the set under `k`; a new key goes last.
pub open spec fn sm_add(v: Seq<(Seq<char>, Seq<Seq<char>>)>, k: Seq<char>, x: Seq<char>) -> Seq<
    (Seq<char>, Seq<Seq<char>>),
> {
    if exists|i: int| 0 <= i < v.len() && v[i].0 == k {
        let i = choose|i: int| 0 <= i < v.len() && v[i].0 == k;
        v.update(i, (k, set_add(v[i].1, x)))
    } else {
        v.push((k, seq![x]))
    }
}

/// Adds `x` to the set under `k`, making the key if it is new.
fn add_to_set_map(m: &mut Vec<(String, Vec<String>)>, k: &str, x: &str)
    requires
        set_map_wf(old(m)@),
    ensures
        set_map_wf(final(m)@),
        forall|a: Seq<char>, b: Seq<char>|
            rel(final(m)@, a, b) <==> (rel(old(m)@, a, b) || (a == k@ && b == x@)),
        sm_view(final(m)@) == sm_add(sm_view(old(m)@), k@, x@),
{
    let ghost m0 = m@;
    let mut i: usize = 0;
    while i < m.len()
        invariant
            m@ == m0,
            i <= m@.len(),
            forall|a: int| 0 <= a < i ==> m0[a].0@ != k@,
        ensures
            i <= m@.len(),
            m@ == m0,
            forall|a: int| 0 <= a < i ==> m0[a].0@ != k@,
            i < m@.len() ==> m0[i as int].0@ == k@,
        decreases m.len() - i,
    {
        if text_eq(m[i].0.as_str(), k) {
            break;
        }
        i = i + 1;
    }
    if i == m.len() {
        let mut set: Vec<String> = Vec::new();
        set.push(String::from_str(x));
        let entry = (String::from_str(k), set);
        m.push(entry);
        proof {
            assert(names_view(entry.1@) =~= seq![x@]);
            assert(!exists|c: int| 0 <= c < sm_view(m0).len() && sm_view(m0)[c].0 == k@) by {
                assert forall|c: int| 0 <= c < sm_view(m0).len() implies sm_view(m0)[c].0 != k@ by {
                    assert(sm_view(m0)[c].0 == m0[c].0@);
                }
            }
            assert(sm_view(m@) =~= sm_view(m0).push((k@, seq![x@])));
        }
        assert forall|a: Seq<char>, b: Seq<char>|
            rel(m@, a, b) <== (rel(m0, a, b) || (a == k@ && b == x@)) by {
            if rel(m0, a, b) {
                let (wi, wj) = choose|wi: int, wj: int|
                    0 <= wi < m0.len() && 0 <= wj < m0[wi].1@.len() && #[trigger] m0[wi].0@ == a
                        && #[trigger] m0[wi].1@[wj]@ == b;
                assert(m@[wi] == m0[wi]);
                assert(m@[wi].0@ == a && m@[wi].1@[wj]@ == b);
            } else if a == k@ && b == x@ {
                let last = m0.len() as int;
                assert(m@[last].0@ == k@);
                assert(m@[last].1@[0]@ == x@);
                assert(m@[last].0@ == a && m@[last].1@[0]@ == b);
            }
        }
        assert forall|a: Seq<char>, b: Seq<char>|
            rel(m@, a, b) ==> (rel(m0, a, b) || (a == k@ && b == x@)) by {
            if rel(m@, a, b) {
                let (wi, wj) = choose|wi: int, wj: int|
                    0 <= wi < m@.len() && 0 <= wj < m@[wi].1@.len() && #[trigger] m@[wi].0@ == a
                        && #[trigger] m@[wi].1@[wj]@ == b;
                if wi < m0.len() {
                    assert(m0[wi] == m@[wi]);
                }
            }
        }
        return;
    }
    let ghost set0 = m0[i as int].1@;
    let mut j: usize = 0;
    let mut found = false;
    while j < m[i].1.len()
        invariant
            m@ == m0,
            i < m@.len(),
            set0 == m0[i as int].1@,
            j <= set0.len(),
            forall|c: int| 0 <= c < j ==> set0[c]@ != x@,
        ensures
            m@ == m0,
            j <= set0.len(),
            forall|c: int| 0 <= c < j ==> set0[c]@ != x@,
            j < set0.len() ==> set0[j as int]@ == x@,
        decreases m[i as int].1@.len() - j,
    {
        if text_eq(m[i].1[j].as_str(), x) {
            break;
        }
        j = j + 1;
    }
    proof {
        let v = sm_view(m0);
        assert(v[i as int].0 == k@);
        assert(v[i as int].1 == names_view(set0));
        let c = choose|c: int| 0 <= c < v.len() && v[c].0 == k@;
        if c != i {
            assert(v[c].0 == m0[c].0@);
        }
        assert(c == i);
        assert(names_view(set0).contains(x@) <==> j < set0.len()) by {
            if j < set0.len() {
                assert(names_view(set0)[j as int] == x@);
            }
            if names_view(set0).contains(x@) {
                let q = choose|q: int| 0 <= q < names_view(set0).len() && names_view(set0)[q] == x@;
                assert(set0[q]@ == x@);
            }
        }
    }
    if j < m[i].1.len() {
        assert(rel(m0, k@, x@)) by {
            assert(m0[i as int].0@ == k@ && m0[i as int].1@[j as int]@ == x@);
        }
        assert(sm_view(m0).update(i as int, (k@, sm_view(m0)[i as int].1)) =~= sm_view(m0));
        return;
    }
    let mut entry = m.remove(i);
    entry.1.push(String::from_str(x));
    m.insert(i, entry);
    assert forall|c: int| 0 <= c < m@.len() && c != i implies m@[c] == m0[c] by {}
    assert(m@[i as int].0 == m0[i as int].0);
    assert(m@[i as int].1@ == set0.push(m@[i as int].1@.last()));
    assert(names_view(m@[i as int].1@) =~= names_view(set0).push(x@));
    assert(sm_view(m@) =~= sm_view(m0).update(i as int, (k@, names_view(set0).push(x@))));
    assert forall|a: Seq<char>, b: Seq<char>|
        rel(m@, a, b) <==> (rel(m0, a, b) || (a == k@ && b == x@)) by {
        if rel(m0, a, b) {
            let (wi, wj) = choose|wi: int, wj: int|
                0 <= wi < m0.len() && 0 <= wj < m0[wi].1@.len() && #[trigger] m0[wi].0@ == a
                    && #[trigger] m0[wi].1@[wj]@ == b;
            if wi == i {
                assert(m@[wi].1@[wj] == m0[wi].1@[wj]);
            } else {
                assert(m@[wi] == m0[wi]);
            }
        }
        if a == k@ && b == x@ {
            assert(m@[i as int].1@[set0.len() as int]@ == x@);
        }
        if rel(m@, a, b) {
            let (wi, wj) = choose|wi: int, wj: int|
                0 <= wi < m@.len() && 0 <= wj < m@[wi].1@.len() && #[trigger] m@[wi].0@ == a
                    && #[trigger] m@[wi].1@[wj]@ == b;
            if wi == i {
                if wj < set0.len() {
                    assert(m0[wi].1@[wj] == m@[wi].1@[wj]);
                }
            } else {
                assert(m@[wi] == m0[wi]);
            }
        }
    }
}

/// Whether step `d` pipes from `s` through an input before input `j` of step `v`.
pub open spec fn pipes_before(plot: Plot, v: int, j: int, d: Seq<char>, s: Seq<char>) -> bool {
    exists|v2: int, j2: int|
        #[trigger] source_at(plot, v2, j2, s) && step_names(plot)[v2] == d && (v2 < v || (v2
            == v && j2 < j))
}

/// The pipes among the first `j` inputs of step `v`, in order, each as
/// `(step, piped-from step)`.
pub open spec fn input_edges(plot: Plot, v: int, j: int) -> Seq<(Seq<char>, Seq<char>)>
    decreases j,
{
    if j <= 0 {
        seq![]
    } else {
        let prev = input_edges(plot, v, j - 1);
        match plot.steps@[v].1 {
            Step::Protoformula(pf) => match pf.inputs@[j - 1].1 {
                PlotInput::Pipe(p) => if p.step_name@.len() > 0 {
                    prev.push((plot.steps@[v].0.0@, p.step_name@))
                } else {
                    prev
                },
                _ => prev,
            },
            Step::Plot(_) => prev,
        }
    }
}

/// The pipes of step `v`, in the order of its inputs.
pub open spec fn step_edges(plot: Plot, v: int) -> Seq<(Seq<char>, Seq<char>)> {
    match plot.steps@[v].1 {
        Step::Protoformula(pf) => input_edges(plot, v, pf.inputs@.len() as int),
        Step::Plot(_) => seq![],
    }
}

/// The pipes of the first `v` steps, in plot order.
pub open spec fn edges_before(plot: Plot, v: int) -> Seq<(Seq<char>, Seq<char>)>
    decreases v,
{
    if v <= 0 {
        seq![]
    } else {
        edges_before(plot, v - 1) + step_edges(plot, v - 1)
    }
}

/// The parent sets that pipes give, each pipe added in order.
pub open spec fn fold_parents(es: Seq<(Seq<char>, Seq<char>)>) -> Seq<(Seq<char>, Seq<Seq<char>>)>
    decreases es.len(),
{
    if es.len() == 0 {
        seq![]
    } else {
        sm_add(fold_parents(es.drop_last()), es.last().0, es.last().1)
    }
}

/// The child sets that pipes give, each pipe added in order.
pub open spec fn fold_children(es: Seq<(Seq<char>, Seq<char>)>) -> Seq<(Seq<char>, Seq<Seq<char>>)>
    decreases es.len(),
{
    if es.len() == 0 {
        seq![]
    } else {
        sm_add(fold_children(es.drop_last()), es.last().1, es.last().0)
    }
}

pub open spec fn names_view(v: Seq<String>) -> Seq<Seq<char>> {
    v.map_values(|s: String| s@)
}

impl PlotGraph {
    /// Whether the graph is the step graph of `plot`: its nodes are the
    /// steps in order, and `parents` and `children` hold exactly the pipes
    /// between steps, from either end.
    pub open spec fn built_from(&self, plot: Plot) -> bool {
        &&& names_view(self.nodes@) == step_names(plot)
        &&& set_map_wf(self.parents@)
        &&& set_map_wf(self.children@)
        &&& forall|d: Seq<char>, s: Seq<char>| rel(self.parents@, d, s) <==> pipes_from(plot, d, s)
        &&& forall|d: Seq<char>, s: Seq<char>| rel(self.children@, s, d) <==> pipes_from(plot, d, s)
        &&& sm_view(self.parents@) == fold_parents(edges_before(plot, plot.steps@.len() as int))
        &&& sm_view(self.children@) == fold_children(edges_before(plot, plot.steps@.len() as int))
    }

    /// Builds the step graph of a plot. A nested plot is a node without
    /// edges.
    pub fn new(plot: &Plot) -> (r: PlotGraph)
        ensures
            r.built_from(*plot),
    {
        let mut nodes: Vec<String> = Vec::new();
        let mut parents: Vec<(String, Vec<String>)> = Vec::new();
        let mut children: Vec<(String, Vec<String>)> = Vec::new();
        let mut v: usize = 0;
        while v < plot.steps.len()
            invariant
                v <= plot.steps@.len(),
                names_view(nodes@) == step_names(*plot).take(v as int),
                set_map_wf(parents@),
                set_map_wf(children@),
                forall|d: Seq<char>, s: Seq<char>|
                    rel(parents@, d, s) <==> pipes_before(*plot, v as int, 0, d, s),
                forall|d: Seq<char>, s: Seq<char>|
                    rel(children@, s, d) <==> pipes_before(*plot, v as int, 0, d, s),
                sm_view(parents@) == fold_parents(edges_before(*plot, v as int)),
                sm_view(children@) == fold_children(edges_before(*plot, v as int)),
            decreases plot.steps.len() - v,
        {
            let name = &plot.steps[v].0.0;
            let ghost before = nodes@;
            let copy = String::from_str(name.as_str());
            nodes.push(copy);
            assert(nodes@ == before.push(copy));
            assert(names_view(before).len() == v);
            assert(step_names(*plot)[v as int] == plot.steps@[v as int].0.0@);
            assert(names_view(nodes@)[v as int] == name@);
            assert(names_view(nodes@) =~= step_names(*plot).take(v as int + 1));
            match &plot.steps[v].1 {
                Step::Protoformula(pf) => {
                    let mut j: usize = 0;
                    assert(edges_before(*plot, v as int) + input_edges(*plot, v as int, 0) =~= edges_before(*plot, v as int));
                    while j < pf.inputs.len()
                        invariant
                            v < plot.steps@.len(),
                            plot.steps@[v as int].1 == Step::Protoformula(*pf),
                            name@ == step_names(*plot)[v as int],
                            j <= pf.inputs@.len(),
                            set_map_wf(parents@),
                            set_map_wf(children@),
                            forall|d: Seq<char>, s: Seq<char>|
                                rel(parents@, d, s) <==> pipes_before(*plot, v as int, j as int, d, s),
                            forall|d: Seq<char>, s: Seq<char>|
                                rel(children@, s, d) <==> pipes_before(*plot, v as int, j as int, d, s),
                            sm_view(parents@) == fold_parents(edges_before(*plot, v as int) + input_edges(*plot, v as int, j as int)),
                            sm_view(children@) == fold_children(edges_before(*plot, v as int) + input_edges(*plot, v as int, j as int)),
                        decreases pf.inputs.len() - j,
                    {
                        let ghost es0 = edges_before(*plot, v as int) + input_edges(*plot, v as int, j as int);
                        if let PlotInput::Pipe(pipe) = &pf.inputs[j].1 {
                            if pipe.step_name.unicode_len() > 0 {
                                add_to_set_map(&mut parents, name.as_str(), pipe.step_name.as_str());
                                add_to_set_map(&mut children, pipe.step_name.as_str(), name.as_str());
                                assert(source_at(*plot, v as int, j as int, pipe.step_name@));
                                let ghost e = (name@, pipe.step_name@);
                                assert(input_edges(*plot, v as int, j as int + 1) == input_edges(*plot, v as int, j as int).push(e));
                                assert(edges_before(*plot, v as int) + input_edges(*plot, v as int, j as int + 1) =~= es0.push(e));
                                assert(es0.push(e).drop_last() =~= es0);
                            } else {
                                assert(input_edges(*plot, v as int, j as int + 1) == input_edges(*plot, v as int, j as int));
                            }
                        } else {
                            assert(input_edges(*plot, v as int, j as int + 1) == input_edges(*plot, v as int, j as int));
                        }
                        assert forall|d: Seq<char>, s: Seq<char>|
                            pipes_before(*plot, v as int, j as int + 1, d, s) <==> (pipes_before(
                                *plot, v as int, j as int, d, s) || (source_at(*plot, v as int, j as int, s) && d == name@)) by {
                            if pipes_before(*plot, v as int, j as int + 1, d, s) {
                                let (v2, j2) = choose|v2: int, j2: int|
                                    #[trigger] source_at(*plot, v2, j2, s) && step_names(*plot)[v2] == d
                                        && (v2 < v || (v2 == v && j2 < j + 1));
                                if !(v2 < v || (v2 == v && j2 < j)) {
                                    assert(v2 == v && j2 == j);
                                }
                            }
                        }
                        j = j + 1;
                    }
                    assert(edges_before(*plot, v as int + 1) == edges_before(*plot, v as int) + input_edges(*plot, v as int, j as int));
                    assert forall|d: Seq<char>, s: Seq<char>|
                        pipes_before(*plot, v as int + 1, 0, d, s) <==> pipes_before(
                            *plot, v as int, j as int, d, s) by {
                        if pipes_before(*plot, v as int + 1, 0, d, s) {
                            let (v2, j2) = choose|v2: int, j2: int|
                                #[trigger] source_at(*plot, v2, j2, s) && step_names(*plot)[v2] == d
                                    && (v2 < v + 1 || (v2 == v + 1 && j2 < 0));
                            assert(v2 < v || (v2 == v && j2 < j));
                        }
                    }
                },
                Step::Plot(_) => {
                    assert(edges_before(*plot, v as int + 1) =~= edges_before(*plot, v as int));
                    assert forall|d: Seq<char>, s: Seq<char>|
                        pipes_before(*plot, v as int + 1, 0, d, s) <==> pipes_before(
                            *plot, v as int, 0, d, s) by {
                        if pipes_before(*plot, v as int + 1, 0, d, s) {
                            let (v2, j2) = choose|v2: int, j2: int|
                                #[trigger] source_at(*plot, v2, j2, s) && step_names(*plot)[v2] == d
                                    && (v2 < v + 1 || (v2 == v + 1 && j2 < 0));
                            assert(v2 < v);
                        }
                    }
                },
            }
            v = v + 1;
        }
        assert(step_names(*plot).take(v as int) =~= step_names(*plot));
        assert(sm_view(parents@) == fold_parents(edges_before(*plot, plot.steps@.len() as int)));
        assert forall|d: Seq<char>, s: Seq<char>|
            pipes_before(*plot, v as int, 0, d, s) <==> pipes_from(*plot, d, s) by {
            if pipes_from(*plot, d, s) {
                let (v2, j2) = choose|v2: int, j2: int|
                    #[trigger] source_at(*plot, v2, j2, s) && step_names(*plot)[v2] == d;
                assert(v2 < v);
            }
        }
        PlotGraph { nodes, parents, children }
    }
}

/// The texts of `s` with `sep` between each two.
pub open spec fn join(s: Seq<Seq<char>>, sep: Seq<char>) -> Seq<char>
    decreases s.len(),
{
    if s.len() == 0 {
        seq![]
    } else if s.len() == 1 {
        s[0]
    } else {
        join(s.drop_last(), sep) + sep + s.last()
    }
}

/// Joins texts with `sep` between each two.
pub fn join_texts(v: &Vec<String>, sep: &str) -> (r: String)
    ensures
        r@ == join(names_view(v@), sep@),
{
    let mut r = String::new();
    let mut i: usize = 0;
    while i < v.len()
        invariant
            i <= v@.len(),
            r@ == join(names_view(v@).take(i as int), sep@),
        decreases v.len() - i,
    {
        assert(names_view(v@).take(i as int + 1).drop_last() =~= names_view(v@).take(i as int));
        if i > 0 {
            r.append(sep);
        }
        r.append(v[i].as_str());
        i = i + 1;
    }
    assert(names_view(v@).take(i as int) =~= names_view(v@));
    r
}

pub open spec fn unknown_step_msg(name: Seq<char>, origins: Seq<Seq<char>>) -> Seq<char> {
    "invalid plot: step(s) '"@ + join(origins, "', '"@) + "' reference(s) unknown step '"@ + name
        + "'"@
}

pub open spec fn cycle_msg(steps: Seq<Seq<char>>) -> Seq<char> {
    "invalid plot: the step(s) '"@ + join(steps, "', '"@) + "' contain(s) cycle(s)"@
}

/// Finds the first index of `x` in `v`.
fn position_of(v: &Vec<String>, x: &str) -> (r: Option<usize>)
    ensures
        r matches Some(i) ==> i < v@.len() && v@[i as int]@ == x@,
        r is None ==> !names_view(v@).contains(x@),
{
    let mut i: usize = 0;
    while i < v.len()
        invariant
            i <= v@.len(),
            forall|j: int| 0 <= j < i ==> v@[j]@ != x@,
        decreases v.len() - i,
    {
        if text_eq(v[i].as_str(), x) {
            return Some(i);
        }
        i = i + 1;
    }
    assert forall|j: int| 0 <= j < names_view(v@).len() implies names_view(v@)[j] != x@ by {
        assert(names_view(v@)[j] == v@[j]@);
    }
    None
}

/// Each pipe from an unknown step names a step that exists exactly when
/// every child entry of the graph is keyed by a step of the plot.
pub proof fn lemma_dependency_closure(plot: Plot, g: PlotGraph)
    requires
        g.built_from(plot),
    ensures
        (forall|i: int|
            0 <= i < g.children@.len() ==> names_view(g.nodes@).contains(
                #[trigger] g.children@[i].0@,
            )) <==> (forall|d: Seq<char>, s: Seq<char>|
            #[trigger] pipes_from(plot, d, s) ==> step_names(plot).contains(s)),
{
    if forall|i: int|
        0 <= i < g.children@.len() ==> names_view(g.nodes@).contains(#[trigger] g.children@[i].0@) {
        assert forall|d: Seq<char>, s: Seq<char>|
            #[trigger] pipes_from(plot, d, s) implies step_names(plot).contains(s) by {
            assert(rel(g.children@, s, d));
            let (i, j) = choose|i: int, j: int|
                0 <= i < g.children@.len() && 0 <= j < g.children@[i].1@.len()
                    && #[trigger] g.children@[i].0@ == s && #[trigger] g.children@[i].1@[j]@ == d;
            assert(names_view(g.nodes@).contains(g.children@[i].0@));
        }
    }
    if forall|d: Seq<char>, s: Seq<char>|
        #[trigger] pipes_from(plot, d, s) ==> step_names(plot).contains(s) {
        assert forall|i: int| 0 <= i < g.children@.len() implies names_view(g.nodes@).contains(
            #[trigger] g.children@[i].0@,
        ) by {
            let k = g.children@[i].0@;
            let d = g.children@[i].1@[0]@;
            assert(rel(g.children@, k, d));
            assert(pipes_from(plot, d, k));
        }
    }
}

impl PlotGraph {
    /// The parent and child mappings are well formed.
    pub open spec fn wf(&self) -> bool {
        &&& set_map_wf(self.parents@)
        &&& set_map_wf(self.children@)
    }

    /// Every step that is piped from is a node.
    pub open spec fn dependencies_exist(&self) -> bool {
        forall|i: int|
            0 <= i < self.children@.len() ==> names_view(self.nodes@).contains(
                #[trigger] self.children@[i].0@,
            )
    }

    /// Child entry `i` is the first whose key is not a node.
    pub open spec fn first_unknown(&self, i: int) -> bool {
        &&& 0 <= i < self.children@.len()
        &&& !names_view(self.nodes@).contains(self.children@[i].0@)
        &&& forall|j: int|
            0 <= j < i ==> names_view(self.nodes@).contains(#[trigger] self.children@[j].0@)
    }

    /// Checks that every step that is piped from exists. On failure, names
    /// the first unknown step, in the order of the graph, and the steps
    /// that pipe from it.
    pub fn validate_dependencies_exist(&self) -> (r: Result<(), RunError>)
        ensures
            r is Ok <==> self.dependencies_exist(),
            r matches Err(e) ==> exists|i: int| #[trigger] self.first_unknown(i) && e@ == causeless(
                unknown_step_msg(self.children@[i].0@, names_view(self.children@[i].1@)),
            ),
    {
        let mut i: usize = 0;
        while i < self.children.len()
            invariant
                i <= self.children@.len(),
                forall|j: int|
                    0 <= j < i ==> names_view(self.nodes@).contains(#[trigger] self.children@[j].0@),
            decreases self.children.len() - i,
        {
            let name = &self.children[i].0;
            match position_of(&self.nodes, name.as_str()) {
                None => {
                    let origin = join_texts(&self.children[i].1, "', '");
                    let msg = String::from_str("invalid plot: step(s) '").concat(
                        origin.as_str(),
                    ).concat("' reference(s) unknown step '").concat(name.as_str()).concat("'");
                    assert(self.first_unknown(i as int));
                    return Err(RunError::SystemSetupCauseless { msg });
                },
                Some(p) => {
                    assert(names_view(self.nodes@)[p as int] == self.nodes@[p as int]@);
                },
            }
            i = i + 1;
        }
        Ok(())
    }
}

/// In the graph of a plot, node `p` is a parent of node `v` exactly when
/// step `v` pipes from step `p`, and `v` is blocked exactly when it pipes
/// from a step that the plot does not have.
pub proof fn lemma_parents_are_pipes(plot: Plot, g: PlotGraph)
    requires
        g.built_from(plot),
    ensures
        forall|v: int, p: int|
            0 <= v < g.nodes@.len() && 0 <= p < g.nodes@.len() ==> (#[trigger] g.is_parent(v, p)
                <==> pipes_from(plot, step_names(plot)[v], step_names(plot)[p])),
        forall|v: int|
            0 <= v < g.nodes@.len() ==> (#[trigger] g.is_blocked(v) <==> exists|s: Seq<char>|
                #[trigger] pipes_from(plot, step_names(plot)[v], s) && !step_names(plot).contains(
                    s,
                )),
{
    assert forall|v: int| 0 <= v < g.nodes@.len() implies g.nodes@[v]@ == step_names(plot)[v] by {
        assert(names_view(g.nodes@)[v] == g.nodes@[v]@);
    }
    assert forall|v: int| 0 <= v < g.nodes@.len() implies (#[trigger] g.is_blocked(v) <==> exists|
        s: Seq<char>,
    | #[trigger] pipes_from(plot, step_names(plot)[v], s) && !step_names(plot).contains(s)) by {
        assert(names_view(g.nodes@)[v] == g.nodes@[v]@);
        if g.is_blocked(v) {
            let s = choose|s: Seq<char>|
                #[trigger] rel(g.parents@, g.nodes@[v]@, s) && !names_view(g.nodes@).contains(s);
            assert(pipes_from(plot, step_names(plot)[v], s));
        }
        if exists|s: Seq<char>|
            #[trigger] pipes_from(plot, step_names(plot)[v], s) && !step_names(plot).contains(s) {
            let s = choose|s: Seq<char>|
                #[trigger] pipes_from(plot, step_names(plot)[v], s) && !step_names(plot).contains(s);
            assert(rel(g.parents@, g.nodes@[v]@, s));
        }
    }
}

/// A sequence of distinct indices below `n` has at most `n` of them.
proof fn lemma_distinct_below(s: Seq<int>, n: int)
    requires
        0 <= n,
        s.no_duplicates(),
        forall|k: int| 0 <= k < s.len() ==> 0 <= #[trigger] s[k] < n,
    ensures
        s.len() <= n,
{
    s.unique_seq_to_set();
    vstd::set_lib::lemma_int_range(0, n);
    assert(s.to_set().subset_of(vstd::set_lib::set_int_range(0, n)));
    vstd::set_lib::lemma_len_subset(s.to_set(), vstd::set_lib::set_int_range(0, n));
}

/// `x` is among the first `k` entries of `ord`.
pub open spec fn listed_before(ord: Seq<int>, k: int, x: int) -> bool {
    exists|j: int| 0 <= j < k && j < ord.len() && ord[j] == x
}

pub open spec fn ints(v: Seq<usize>) -> Seq<int> {
    v.map_values(|x: usize| x as int)
}

impl PlotGraph {
    /// Node `p` is a parent of node `v`.
    pub open spec fn is_parent(&self, v: int, p: int) -> bool {
        rel(self.parents@, self.nodes@[v]@, self.nodes@[p]@)
    }

    /// Node `v` has a parent that is not a node.
    pub open spec fn is_blocked(&self, v: int) -> bool {
        exists|s: Seq<char>|
            #[trigger] rel(self.parents@, self.nodes@[v]@, s) && !names_view(self.nodes@).contains(s)
    }

    /// Each entry of `ord` is a node that is not blocked and comes after an
    /// entry for each of its parents.
    pub open spec fn respects_parents(&self, ord: Seq<int>) -> bool {
        let n = self.nodes@.len() as int;
        forall|k: int|
            0 <= k < ord.len() ==> 0 <= #[trigger] ord[k] < n && !self.is_blocked(ord[k])
                && forall|p: int|
                0 <= p < n && #[trigger] self.is_parent(ord[k], p) ==> listed_before(ord, k, p)
    }

    /// `ord` lists every node, each after all of its parents.
    pub open spec fn is_topological(&self, ord: Seq<int>) -> bool {
        let n = self.nodes@.len() as int;
        &&& forall|x: int| 0 <= x < n ==> #[trigger] listed_before(ord, ord.len() as int, x)
        &&& self.respects_parents(ord)
    }

    /// Node `x` can be reached by visiting nodes after their parents.
    pub open spec fn reachable(&self, x: int) -> bool {
        exists|ord: Seq<int>|
            #[trigger] self.respects_parents(ord) && listed_before(ord, ord.len() as int, x)
    }

    /// The names of the nodes among the first `k` that cannot be reached.
    pub open spec fn unreached_names(&self, k: int) -> Seq<Seq<char>>
        decreases k,
    {
        if k <= 0 {
            seq![]
        } else if self.reachable(k - 1) {
            self.unreached_names(k - 1)
        } else {
            self.unreached_names(k - 1).push(self.nodes@[k - 1]@)
        }
    }

    /// The graph has no cycle and no edge from an unknown step.
    pub open spec fn acyclic(&self) -> bool {
        exists|ord: Seq<int>| self.is_topological(ord)
    }

    /// `x` is in the set under `key`, among the entries before position
    /// `(e, j)` of the parent mapping.
    pub open spec fn parent_entry_before(&self, key: Seq<char>, e: int, j: int, x: Seq<char>) -> bool {
        exists|i: int, jj: int|
            0 <= i < self.parents@.len() && 0 <= jj < self.parents@[i].1@.len() && (i < e || (i
                == e && jj < j)) && #[trigger] self.parents@[i].0@ == key
                && #[trigger] self.parents@[i].1@[jj]@ == x
    }

    /// Some entry before position `(e, j)` under `key` is not a node.
    pub open spec fn unknown_entry_before(&self, key: Seq<char>, e: int, j: int) -> bool {
        exists|x: Seq<char>|
            #[trigger] self.parent_entry_before(key, e, j, x) && !names_view(self.nodes@).contains(x)
    }

    fn parent_indices(&self) -> (r: (Vec<Vec<usize>>, Vec<bool>))
        requires
            self.wf(),
        ensures
            r.0@.len() == self.nodes@.len(),
            r.1@.len() == self.nodes@.len(),
            forall|v: int, k: int|
                0 <= v < r.0@.len() && 0 <= k < r.0@[v]@.len() ==> #[trigger] r.0@[v]@[k]
                    < self.nodes@.len(),
            forall|v: int, p: int|
                0 <= v < self.nodes@.len() && 0 <= p < self.nodes@.len() ==> (r.0@[v]@.contains(
                    p as usize,
                ) <==> #[trigger] self.is_parent(v, p)),
            forall|v: int| 0 <= v < self.nodes@.len() ==> (r.1@[v] <==> #[trigger] self.is_blocked(v)),
    {
        let n = self.nodes.len();
        let mut par: Vec<Vec<usize>> = Vec::new();
        let mut blocked: Vec<bool> = Vec::new();
        let mut v: usize = 0;
        while v < n
            invariant
                n == self.nodes@.len(),
                self.wf(),
                v <= n,
                par@.len() == v,
                blocked@.len() == v,
                forall|w: int, k: int|
                    0 <= w < v && 0 <= k < par@[w]@.len() ==> #[trigger] par@[w]@[k] < n,
                forall|w: int, p: int|
                    0 <= w < v && 0 <= p < n ==> (par@[w]@.contains(p as usize) <==> #[trigger] self.is_parent(
                        w,
                        p,
                    )),
                forall|w: int| 0 <= w < v ==> (blocked@[w] <==> #[trigger] self.is_blocked(w)),
            decreases n - v,
        {
            let key = self.nodes[v].as_str();
            let mut ps: Vec<usize> = Vec::new();
            let mut b = false;
            let mut e: usize = 0;
            while e < self.parents.len()
                invariant
                    v < n,
                    n == self.nodes@.len(),
                    key@ == self.nodes@[v as int]@,
                    e <= self.parents@.len(),
                    forall|k: int| 0 <= k < ps@.len() ==> #[trigger] ps@[k] < n,
                    forall|p: int|
                        0 <= p < n ==> (ps@.contains(p as usize) <==> #[trigger] self.parent_entry_before(
                            key@,
                            e as int,
                            0,
                            self.nodes@[p]@,
                        )),
                    b <==> self.unknown_entry_before(key@, e as int, 0),
                decreases self.parents.len() - e,
            {
                let set = &self.parents[e].1;
                let same = text_eq(self.parents[e].0.as_str(), key);
                let mut j: usize = 0;
                while j < set.len()
                    invariant
                        v < n,
                        n == self.nodes@.len(),
                        e < self.parents@.len(),
                        *set == self.parents@[e as int].1,
                        same == (self.parents@[e as int].0@ == key@),
                        key@ == self.nodes@[v as int]@,
                        j <= set@.len(),
                        forall|k: int| 0 <= k < ps@.len() ==> #[trigger] ps@[k] < n,
                        forall|p: int|
                            0 <= p < n ==> (ps@.contains(p as usize) <==> #[trigger] self.parent_entry_before(
                                key@,
                                e as int,
                                j as int,
                                self.nodes@[p]@,
                            )),
                        b <==> self.unknown_entry_before(key@, e as int, j as int),
                    decreases set.len() - j,
                {
                    let src = set[j].as_str();
                    let ghost ps0 = ps@;
                    let mut found = false;
                    let mut p: usize = 0;
                    while p < n
                        invariant
                            n == self.nodes@.len(),
                            p <= n,
                            ps0.len() <= ps@.len(),
                            forall|k: int| 0 <= k < ps0.len() ==> ps@[k] == ps0[k],
                            forall|k: int| 0 <= k < ps@.len() ==> #[trigger] ps@[k] < n,
                            forall|q: int|
                                0 <= q < n ==> (#[trigger] ps@.contains(q as usize) <==> (ps0.contains(
                                    q as usize,
                                ) || (same && q < p && self.nodes@[q]@ == src@))),
                            found <==> exists|q: int| 0 <= q < p && #[trigger] self.nodes@[q]@ == src@,
                        decreases n - p,
                    {
                        let hit = text_eq(self.nodes[p].as_str(), src);
                        let ghost ps1 = ps@;
                        if same && hit {
                            ps.push(p);
                        }
                        assert(ps@ == ps1 || ps@ == ps1.push(p));
                        if hit {
                            found = true;
                        }
                        proof {
                            assert forall|q: int| 0 <= q < n implies (#[trigger] ps@.contains(q as usize) <==> (
                                ps0.contains(q as usize) || (same && q < p + 1 && self.nodes@[q]@
                                    == src@))) by {
                                if ps@.contains(q as usize) {
                                    let k = choose|k: int| 0 <= k < ps@.len() && ps@[k] == q as usize;
                                    if k < ps1.len() {
                                        assert(ps1[k] == ps@[k]);
                                        assert(ps1.contains(q as usize));
                                    }
                                }
                                if ps1.contains(q as usize) {
                                    let k = choose|k: int| 0 <= k < ps1.len() && ps1[k] == q as usize;
                                    assert(ps@[k] == ps1[k]);
                                }
                                if ps0.contains(q as usize) {
                                    let k = choose|k: int| 0 <= k < ps0.len() && ps0[k] == q as usize;
                                    assert(ps@[k] == ps0[k]);
                                }
                                if same && q == p && self.nodes@[q]@ == src@ {
                                    assert(ps@[ps@.len() - 1] == q as usize);
                                }
                            }
                        }
                        p = p + 1;
                    }
                    proof {
                        let x = src@;
                        assert(self.parents@[e as int].1@[j as int]@ == x);
                        assert forall|y: Seq<char>|
                            #[trigger] self.parent_entry_before(key@, e as int, j as int + 1, y) <==> (
                            self.parent_entry_before(key@, e as int, j as int, y) || (same && y == x)) by {
                            if same && y == x {
                                assert(self.parents@[e as int].0@ == key@);
                            }
                        }
                        if names_view(self.nodes@).contains(x) {
                            let q = choose|q: int| 0 <= q < names_view(self.nodes@).len() && names_view(self.nodes@)[q] == x;
                            assert(self.nodes@[q]@ == x);
                        }
                        if found {
                            let q = choose|q: int| 0 <= q < p && #[trigger] self.nodes@[q]@ == src@;
                            assert(names_view(self.nodes@)[q] == x);
                        }
                        assert forall|q: int| 0 <= q < n implies (ps@.contains(q as usize) <==> #[trigger] self.parent_entry_before(
                                key@, e as int, j as int + 1, self.nodes@[q]@)) by {}
                    }
                    if same && !found {
                        b = true;
                    }
                    proof {
                        if self.unknown_entry_before(key@, e as int, j as int + 1) {
                            let y = choose|y: Seq<char>|
                                #[trigger] self.parent_entry_before(key@, e as int, j as int + 1, y) && !names_view(self.nodes@).contains(y);
                            if !self.parent_entry_before(key@, e as int, j as int, y) {
                                assert(same && y == src@);
                            }
                        }
                        if same && !found {
                            assert(self.parent_entry_before(key@, e as int, j as int + 1, src@));
                        }
                        if self.unknown_entry_before(key@, e as int, j as int) {
                            let y = choose|y: Seq<char>|
                                #[trigger] self.parent_entry_before(key@, e as int, j as int, y) && !names_view(self.nodes@).contains(y);
                            assert(self.parent_entry_before(key@, e as int, j as int + 1, y));
                        }
                    }
                    j = j + 1;
                }
                proof {
                    assert forall|y: Seq<char>|
                        #[trigger] self.parent_entry_before(key@, e as int + 1, 0, y) <==> self.parent_entry_before(key@, e as int, j as int, y) by {}
                    if self.unknown_entry_before(key@, e as int + 1, 0) {
                        let y = choose|y: Seq<char>|
                            #[trigger] self.parent_entry_before(key@, e as int + 1, 0, y) && !names_view(self.nodes@).contains(y);
                        assert(self.parent_entry_before(key@, e as int, j as int, y));
                    }
                    if self.unknown_entry_before(key@, e as int, j as int) {
                        let y = choose|y: Seq<char>|
                            #[trigger] self.parent_entry_before(key@, e as int, j as int, y) && !names_view(self.nodes@).contains(y);
                        assert(self.parent_entry_before(key@, e as int + 1, 0, y));
                    }
                }
                e = e + 1;
            }
            proof {
                let m = self.parents@.len() as int;
                assert forall|y: Seq<char>|
                    #[trigger] self.parent_entry_before(key@, m, 0, y) <==> rel(self.parents@, key@, y) by {
                    if rel(self.parents@, key@, y) {
                        let (i, jj) = choose|i: int, jj: int|
                            0 <= i < self.parents@.len() && 0 <= jj < self.parents@[i].1@.len()
                                && #[trigger] self.parents@[i].0@ == key@ && #[trigger] self.parents@[i].1@[jj]@ == y;
                        assert(i < m);
                    }
                }
                assert forall|p: int| 0 <= p < n implies (ps@.contains(p as usize) <==> #[trigger] self.is_parent(v as int, p)) by {
                    assert(self.parent_entry_before(key@, m, 0, self.nodes@[p]@) <==> rel(self.parents@, key@, self.nodes@[p]@));
                }
                if self.is_blocked(v as int) {
                    let y = choose|y: Seq<char>|
                        #[trigger] rel(self.parents@, self.nodes@[v as int]@, y) && !names_view(self.nodes@).contains(y);
                    assert(self.parent_entry_before(key@, m, 0, y));
                }
                if b {
                    let y = choose|y: Seq<char>|
                        #[trigger] self.parent_entry_before(key@, m, 0, y) && !names_view(self.nodes@).contains(y);
                    assert(rel(self.parents@, key@, y));
                }
            }
            par.push(ps);
            blocked.push(b);
            proof {
                assert forall|w: int, p: int|
                    0 <= w < v + 1 && 0 <= p < n implies (par@[w]@.contains(p as usize) <==> #[trigger] self.is_parent(w, p)) by {
                    if w == v {
                        assert(par@[w] == ps);
                    }
                }
            }
            v = v + 1;
        }
        (par, blocked)
    }
}

/// Node `v` is not blocked and all its parents are done.
pub open spec fn ready(par: Seq<Vec<usize>>, blocked: Seq<bool>, done: Seq<bool>, v: int) -> bool {
    !blocked[v] && forall|k: int| 0 <= k < par[v]@.len() ==> done[#[trigger] par[v]@[k] as int]
}

fn is_ready(par: &Vec<Vec<usize>>, blocked: &Vec<bool>, done: &Vec<bool>, v: usize) -> (r: bool)
    requires
        v < par@.len(),
        v < blocked@.len(),
        forall|k: int| 0 <= k < par@[v as int]@.len() ==> #[trigger] par@[v as int]@[k] < done@.len(),
    ensures
        r == ready(par@, blocked@, done@, v as int),
{
    if blocked[v] {
        return false;
    }
    let mut k: usize = 0;
    while k < par[v].len()
        invariant
            v < par@.len(),
            k <= par@[v as int]@.len(),
            forall|k: int| 0 <= k < par@[v as int]@.len() ==> #[trigger] par@[v as int]@[k] < done@.len(),
            forall|j: int| 0 <= j < k ==> done@[#[trigger] par@[v as int]@[j] as int],
        decreases par@[v as int]@.len() - k,
    {
        if !done[par[v][k]] {
            return false;
        }
        k = k + 1;
    }
    true
}

impl PlotGraph {
    /// Once the traversal has stopped with nothing left ready, every entry
    /// of an order that respects parents is done.
    proof fn lemma_topological_all_done(
        &self,
        ord: Seq<int>,
        par: Seq<Vec<usize>>,
        blocked: Seq<bool>,
        done: Seq<bool>,
        queued: Seq<bool>,
        k: int,
    )
        requires
            self.respects_parents(ord),
            0 <= k < ord.len(),
            par.len() == self.nodes@.len(),
            blocked.len() == self.nodes@.len(),
            done.len() == self.nodes@.len(),
            queued.len() == self.nodes@.len(),
            forall|v: int, p: int|
                0 <= v < self.nodes@.len() && 0 <= p < self.nodes@.len() ==> (par[v]@.contains(
                    p as usize,
                ) <==> #[trigger] self.is_parent(v, p)),
            forall|v: int, j: int|
                0 <= v < par.len() && 0 <= j < par[v]@.len() ==> #[trigger] par[v]@[j]
                    < self.nodes@.len(),
            forall|v: int| 0 <= v < self.nodes@.len() ==> (blocked[v] <==> #[trigger] self.is_blocked(v)),
            forall|x: int| 0 <= x < self.nodes@.len() && !#[trigger] queued[x] ==> !ready(par, blocked, done, x),
            forall|x: int| 0 <= x < self.nodes@.len() && #[trigger] queued[x] ==> done[x],
        ensures
            done[ord[k]],
        decreases k,
    {
        let v = ord[k];
        assert(0 <= v < self.nodes@.len());
        assert forall|j: int| 0 <= j < par[v]@.len() implies done[#[trigger] par[v]@[j] as int] by {
            let p = par[v]@[j] as int;
            assert(par[v]@.contains(p as usize));
            assert(self.is_parent(v, p));
            assert(listed_before(ord, k, p));
            let i = choose|i: int| 0 <= i < k && i < ord.len() && ord[i] == p;
            self.lemma_topological_all_done(ord, par, blocked, done, queued, i);
        }
        assert(ready(par, blocked, done, v));
        if !queued[v] {
            assert(!ready(par, blocked, done, v));
        }
        assert(queued[v]);
    }

    /// Node `v` is not blocked and every parent of it is done.
    pub open spec fn is_ready(&self, done: Seq<bool>, v: int) -> bool {
        !self.is_blocked(v) && forall|p: int|
            0 <= p < self.nodes@.len() && #[trigger] self.is_parent(v, p) ==> done[p]
    }

    /// `u` is the first node that is ready and not done.
    pub open spec fn is_next(&self, done: Seq<bool>, u: int) -> bool {
        &&& 0 <= u < self.nodes@.len()
        &&& !done[u]
        &&& self.is_ready(done, u)
        &&& forall|w: int| 0 <= w < u ==> done[w] || !#[trigger] self.is_ready(done, w)
    }

    /// The nodes visited from `done` on, each time the first one that is
    /// ready, for at most `fuel` visits.
    pub open spec fn visit_from(&self, done: Seq<bool>, fuel: nat) -> Seq<int>
        decreases fuel,
    {
        if fuel == 0 {
            seq![]
        } else if exists|u: int| self.is_next(done, u) {
            let u = choose|u: int| self.is_next(done, u);
            seq![u] + self.visit_from(done.update(u, true), (fuel - 1) as nat)
        } else {
            seq![]
        }
    }

    /// The order in which the steps are visited: each time the first step,
    /// in the order of the plot, whose parents have all been visited.
    pub open spec fn visit_order(&self) -> Seq<int> {
        self.visit_from(Seq::new(self.nodes@.len(), |i: int| false), self.nodes@.len())
    }

    /// Visits the steps in dependency order, each time the first step whose
    /// parents have all been visited. Returns the visiting order, and which
    /// nodes were visited.
    pub fn ready_order(&self) -> (r: (Vec<usize>, Vec<bool>))
        requires
            self.wf(),
        ensures
            ints(r.0@) == self.visit_order(),
            r.1@.len() == self.nodes@.len(),
            ints(r.0@).no_duplicates(),
            forall|k: int|
                0 <= k < r.0@.len() ==> #[trigger] r.0@[k] < self.nodes@.len() && !self.is_blocked(
                    r.0@[k] as int,
                ) && forall|p: int|
                    0 <= p < self.nodes@.len() && #[trigger] self.is_parent(r.0@[k] as int, p)
                        ==> listed_before(ints(r.0@), k, p),
            forall|x: int|
                0 <= x < self.nodes@.len() ==> (r.1@[x] <==> #[trigger] listed_before(
                    ints(r.0@),
                    r.0@.len() as int,
                    x,
                )),
            (forall|x: int| 0 <= x < self.nodes@.len() ==> #[trigger] r.1@[x]) <==> self.acyclic(),
            forall|x: int| 0 <= x < self.nodes@.len() ==> (r.1@[x] <==> #[trigger] self.reachable(x)),
    {
        let n = self.nodes.len();
        let (par, blocked) = self.parent_indices();
        let mut done: Vec<bool> = Vec::new();
        let mut order: Vec<usize> = Vec::new();
        let mut i: usize = 0;
        while i < n
            invariant
                i <= n,
                done@.len() == i,
                forall|x: int| 0 <= x < i ==> !done@[x],
            decreases n - i,
        {
            done.push(false);
            i = i + 1;
        }
        assert(done@ =~= Seq::new(self.nodes@.len(), |i: int| false));
        assert forall|x: int| 0 <= x < n implies !(#[trigger] listed_before(ints(order@), order@.len() as int, x)) by {}
        loop
            invariant
                n == self.nodes@.len(),
                self.wf(),
                par@.len() == n,
                blocked@.len() == n,
                done@.len() == n,
                order@.len() <= n,
                forall|v: int, p: int|
                    0 <= v < n && 0 <= p < n ==> (par@[v]@.contains(p as usize) <==> #[trigger] self.is_parent(v, p)),
                forall|v: int, j: int|
                    0 <= v < par@.len() && 0 <= j < par@[v]@.len() ==> #[trigger] par@[v]@[j] < n,
                forall|v: int| 0 <= v < n ==> (blocked@[v] <==> #[trigger] self.is_blocked(v)),
                forall|k: int|
                    0 <= k < order@.len() ==> #[trigger] order@[k] < n && !self.is_blocked(
                        order@[k] as int,
                    ) && forall|p: int|
                        0 <= p < n && #[trigger] self.is_parent(order@[k] as int, p) ==> listed_before(
                            ints(order@),
                            k,
                            p,
                        ),
                ints(order@).no_duplicates(),
                forall|x: int|
                    0 <= x < n ==> (done@[x] <==> #[trigger] listed_before(
                        ints(order@),
                        order@.len() as int,
                        x,
                    )),
                ints(order@) + self.visit_from(done@, (n - order@.len()) as nat) == self.visit_order(),
            ensures
                done@.len() == n,
                forall|x: int| 0 <= x < n && !done@[x] ==> !#[trigger] self.is_ready(done@, x),
                ints(order@) == self.visit_order(),
            decreases n - order@.len(),
        {
            let mut c: usize = 0;
            let mut found = false;
            while c < n
                invariant_except_break
                    !found,
                invariant
                    n == self.nodes@.len(),
                    par@.len() == n,
                    blocked@.len() == n,
                    done@.len() == n,
                    c <= n,
                    forall|v: int, p: int|
                        0 <= v < n && 0 <= p < n ==> (par@[v]@.contains(p as usize) <==> #[trigger] self.is_parent(v, p)),
                    forall|v: int, j: int|
                        0 <= v < par@.len() && 0 <= j < par@[v]@.len() ==> #[trigger] par@[v]@[j] < n,
                    forall|v: int| 0 <= v < n ==> (blocked@[v] <==> #[trigger] self.is_blocked(v)),
                    forall|w: int| 0 <= w < c ==> done@[w] || !#[trigger] self.is_ready(done@, w),
                ensures
                    c <= n,
                    forall|w: int| 0 <= w < c ==> done@[w] || !#[trigger] self.is_ready(done@, w),
                    found ==> c < n && !done@[c as int] && self.is_ready(done@, c as int),
                    !found ==> c == n,
                decreases n - c,
            {
                if !done[c] {
                    let r = is_ready(&par, &blocked, &done, c);
                    proof {
                        self.lemma_ready_matches(par@, blocked@, done@, c as int);
                    }
                    if r {
                        found = true;
                        break;
                    }
                }
                c = c + 1;
            }
            let ghost f = (n - order@.len()) as nat;
            if !found {
                proof {
                    if f > 0 {
                        assert(!exists|u: int| self.is_next(done@, u));
                    }
                    assert(self.visit_from(done@, f) =~= seq![]);
                    assert(ints(order@) + seq![] =~= ints(order@));
                }
                break;
            }
            let u = c;
            let ghost order0 = order@;
            let ghost done0 = done@;
            proof {
                assert(self.is_next(done0, u as int));
                assert forall|u2: int| self.is_next(done0, u2) implies u2 == u by {
                    if u2 < u {
                        assert(done0[u2] || !self.is_ready(done0, u2));
                    } else if u2 > u {
                        assert(done0[u as int] || !self.is_ready(done0, u as int));
                    }
                }
                assert(!listed_before(ints(order0), order0.len() as int, u as int));
                assert(ints(order0.push(u)) == ints(order0).push(u as int));
                assert forall|a: int, b: int| 0 <= a < b < ints(order0.push(u)).len() implies ints(order0.push(u))[a] != ints(order0.push(u))[b] by {
                    if b == order0.len() && ints(order0.push(u))[a] == u as int {
                        assert(listed_before(ints(order0), order0.len() as int, u as int));
                    }
                }
                assert forall|k: int| 0 <= k < ints(order0.push(u)).len() implies 0 <= #[trigger] ints(order0.push(u))[k] < n by {}
                lemma_distinct_below(ints(order0.push(u)), n as int);
                assert(f > 0);
                let u0 = choose|u2: int| self.is_next(done0, u2);
                assert(u0 == u);
                assert(self.visit_from(done0, f) == seq![u as int] + self.visit_from(done0.update(u as int, true), (f - 1) as nat));
                assert forall|p: int| 0 <= p < n && self.is_parent(u as int, p) implies listed_before(
                    ints(order0), order0.len() as int, p) by {
                    assert(done0[p]);
                }
            }
            order.push(u);
            done.set(u, true);
            proof {
                assert(done@ == done0.update(u as int, true));
                assert(ints(order@) == ints(order0).push(u as int));
                assert(ints(order@) + self.visit_from(done@, (n - order@.len()) as nat) =~= ints(order0)
                    + self.visit_from(done0, f));
                assert forall|k: int, p: int|
                    0 <= k < order@.len() && 0 <= p < n && #[trigger] self.is_parent(order@[k] as int, p)
                    implies listed_before(ints(order@), k, p) by {
                    if k < order0.len() {
                        assert(order@[k] == order0[k]);
                        let j = choose|j: int| 0 <= j < k && j < ints(order0).len() && ints(order0)[j] == p;
                        assert(ints(order@)[j] == p);
                    } else {
                        let j = choose|j: int| 0 <= j < order0.len() && j < ints(order0).len() && ints(order0)[j] == p;
                        assert(ints(order@)[j] == p);
                    }
                }
                assert forall|x: int| 0 <= x < n implies (done@[x] <==> #[trigger] listed_before(
                        ints(order@), order@.len() as int, x)) by {
                    if x == u {
                        assert(ints(order@)[order0.len() as int] == x);
                    } else if done@[x] {
                        assert(done0[x]);
                        assert(listed_before(ints(order0), order0.len() as int, x));
                        let j = choose|j: int| 0 <= j < order0.len() && j < ints(order0).len() && ints(order0)[j] == x;
                        assert(ints(order@)[j] == x);
                    } else if listed_before(ints(order@), order@.len() as int, x) {
                        let j = choose|j: int| 0 <= j < order@.len() && j < ints(order@).len() && ints(order@)[j] == x;
                        assert(ints(order@)[order0.len() as int] == u as int);
                        assert(j < order0.len());
                        assert(ints(order0)[j] == x);
                        assert(listed_before(ints(order0), order0.len() as int, x));
                    }
                }
            }
        }
        proof {
            let ord0 = ints(order@);
            assert forall|k: int| 0 <= k < ord0.len() implies 0 <= #[trigger] ord0[k] < n && !self.is_blocked(ord0[k])
                && forall|p: int| 0 <= p < n && #[trigger] self.is_parent(ord0[k], p) ==> listed_before(ord0, k, p) by {
                assert(ord0[k] == order@[k] as int);
            }
            assert(self.respects_parents(ord0));
            assert forall|x: int| 0 <= x < n && !#[trigger] done@[x] implies !ready(par@, blocked@, done@, x) by {
                self.lemma_ready_matches(par@, blocked@, done@, x);
            }
            if forall|x: int| 0 <= x < n ==> #[trigger] done@[x] {
                assert forall|x: int| 0 <= x < n implies #[trigger] listed_before(ord0, ord0.len() as int, x) by {
                    assert(done@[x]);
                }
                assert(self.is_topological(ord0));
            }
            assert forall|x: int| 0 <= x < n implies (done@[x] <==> #[trigger] self.reachable(x)) by {
                if done@[x] {
                    assert(listed_before(ord0, ord0.len() as int, x));
                }
                if self.reachable(x) {
                    let ord = choose|ord: Seq<int>|
                        #[trigger] self.respects_parents(ord) && listed_before(ord, ord.len() as int, x);
                    let k = choose|k: int| 0 <= k < ord.len() && k < ord.len() && ord[k] == x;
                    self.lemma_topological_all_done(ord, par@, blocked@, done@, done@, k);
                }
            }
            if self.acyclic() {
                let ord = choose|ord: Seq<int>| self.is_topological(ord);
                assert forall|x: int| 0 <= x < n implies #[trigger] done@[x] by {
                    assert(listed_before(ord, ord.len() as int, x));
                    let k = choose|k: int| 0 <= k < ord.len() && k < ord.len() && ord[k] == x;
                    self.lemma_topological_all_done(ord, par@, blocked@, done@, done@, k);
                }
            }
        }
        let ghost dv = done@;
        let result = (order, done);
        assert(result.1@ == dv);
        assert((forall|x: int| 0 <= x < self.nodes@.len() ==> #[trigger] result.1@[x]) <==> self.acyclic());
        result
    }

    /// Readiness computed from parent indices is readiness in the graph.
    proof fn lemma_ready_matches(&self, par: Seq<Vec<usize>>, blocked: Seq<bool>, done: Seq<bool>, v: int)
        requires
            0 <= v < self.nodes@.len(),
            self.nodes@.len() <= usize::MAX,
            par.len() == self.nodes@.len(),
            blocked.len() == self.nodes@.len(),
            done.len() == self.nodes@.len(),
            forall|w: int, p: int|
                0 <= w < self.nodes@.len() && 0 <= p < self.nodes@.len() ==> (par[w]@.contains(
                    p as usize,
                ) <==> #[trigger] self.is_parent(w, p)),
            forall|w: int, j: int|
                0 <= w < par.len() && 0 <= j < par[w]@.len() ==> #[trigger] par[w]@[j]
                    < self.nodes@.len(),
            forall|w: int| 0 <= w < self.nodes@.len() ==> (blocked[w] <==> #[trigger] self.is_blocked(w)),
        ensures
            ready(par, blocked, done, v) <==> self.is_ready(done, v),
    {
        if ready(par, blocked, done, v) {
            assert forall|p: int| 0 <= p < self.nodes@.len() && #[trigger] self.is_parent(v, p) implies done[p] by {
                assert(par[v]@.contains(p as usize));
                let j = choose|j: int| 0 <= j < par[v]@.len() && par[v]@[j] == p as usize;
                assert(done[par[v]@[j] as int]);
            }
        }
        if self.is_ready(done, v) {
            assert forall|j: int| 0 <= j < par[v]@.len() implies done[#[trigger] par[v]@[j] as int] by {
                let p = par[v]@[j] as int;
                assert(par[v]@.contains(p as usize));
                assert(self.is_parent(v, p));
            }
        }
    }
}

impl PlotGraph {
    /// Checks that the steps can be ordered so that each comes after the
    /// steps it pipes from. On failure, names the steps that could not be
    /// reached, in the order of the plot.
    pub fn validate_no_cycles(&self) -> (r: Result<(), RunError>)
        requires
            self.wf(),
        ensures
            r is Ok <==> self.acyclic(),
            r matches Err(e) ==> e@ == causeless(
                cycle_msg(self.unreached_names(self.nodes@.len() as int)),
            ),
    {
        let (_order, done) = self.ready_order();
        let mut stuck: Vec<String> = Vec::new();
        let mut x: usize = 0;
        while x < self.nodes.len()
            invariant
                x <= self.nodes@.len(),
                done@.len() == self.nodes@.len(),
                forall|y: int| 0 <= y < self.nodes@.len() ==> (done@[y] <==> #[trigger] self.reachable(y)),
                (stuck@.len() == 0) <==> (forall|y: int| 0 <= y < x ==> #[trigger] done@[y]),
                names_view(stuck@) == self.unreached_names(x as int),
            decreases self.nodes.len() - x,
        {
            if !done[x] {
                let ghost st0 = stuck@;
                stuck.push(String::from_str(self.nodes[x].as_str()));
                proof {
                    assert(stuck@ == st0.push(stuck@.last()));
                    assert(names_view(stuck@) =~= names_view(st0).push(self.nodes@[x as int]@));
                }
            }
            x = x + 1;
        }
        if stuck.len() == 0 {
            return Ok(());
        }
        let steps = join_texts(&stuck, "', '");
        let msg = String::from_str("invalid plot: the step(s) '").concat(steps.as_str()).concat(
            "' contain(s) cycle(s)",
        );
        Err(RunError::SystemSetupCauseless { msg })
    }

    /// Checks that every piped-from step exists, then that there is no cycle.
    pub fn validate(&self) -> (r: Result<(), RunError>)
        requires
            self.wf(),
        ensures
            r is Ok <==> self.dependencies_exist() && self.acyclic(),
            !self.dependencies_exist() ==> (r matches Err(e) && exists|i: int|
                #[trigger] self.first_unknown(i) && e@ == causeless(
                    unknown_step_msg(self.children@[i].0@, names_view(self.children@[i].1@)),
                )),
            self.dependencies_exist() && !self.acyclic() ==> (r matches Err(e) && e@ == causeless(
                cycle_msg(self.unreached_names(self.nodes@.len() as int)),
            )),
    {
        match self.validate_dependencies_exist() {
            Err(e) => Err(e),
            Ok(()) => self.validate_no_cycles(),
        }
    }
}

/// Two graphs with the same parents and blocked nodes visit the same steps
/// in the same order.
proof fn lemma_visit_from_same(g1: PlotGraph, g2: PlotGraph, done: Seq<bool>, fuel: nat)
    requires
        g1.nodes@.len() == g2.nodes@.len(),
        forall|v: int, p: int|
            0 <= v < g1.nodes@.len() && 0 <= p < g1.nodes@.len() ==> (#[trigger] g1.is_parent(v, p)
                <==> g2.is_parent(v, p)),
        forall|v: int| 0 <= v < g1.nodes@.len() ==> (#[trigger] g1.is_blocked(v) <==> g2.is_blocked(v)),
    ensures
        g1.visit_from(done, fuel) == g2.visit_from(done, fuel),
    decreases fuel,
{
    if fuel > 0 {
        assert forall|d: Seq<bool>, w: int| 0 <= w < g1.nodes@.len() implies (#[trigger] g1.is_ready(d, w)
            <==> g2.is_ready(d, w)) by {
            if g1.is_ready(d, w) {
                assert forall|p: int| 0 <= p < g2.nodes@.len() && #[trigger] g2.is_parent(w, p) implies d[p] by {
                    assert(g1.is_parent(w, p));
                }
            }
            if g2.is_ready(d, w) {
                assert forall|p: int| 0 <= p < g1.nodes@.len() && #[trigger] g1.is_parent(w, p) implies d[p] by {
                    assert(g2.is_parent(w, p));
                }
            }
        }
        assert forall|u: int| g1.is_next(done, u) <==> g2.is_next(done, u) by {
            if g1.is_next(done, u) {
                assert forall|w: int| 0 <= w < u implies done[w] || !#[trigger] g2.is_ready(done, w) by {
                    assert(done[w] || !g1.is_ready(done, w));
                }
            }
            if g2.is_next(done, u) {
                assert forall|w: int| 0 <= w < u implies done[w] || !#[trigger] g1.is_ready(done, w) by {
                    assert(done[w] || !g2.is_ready(done, w));
                }
            }
        }
        if exists|u: int| g1.is_next(done, u) {
            let u1 = choose|u: int| g1.is_next(done, u);
            let u2 = choose|u: int| g2.is_next(done, u);
            assert(g2.is_next(done, u1));
            if u1 < u2 {
                assert(done[u1] || !g2.is_ready(done, u1));
            } else if u2 < u1 {
                assert(done[u2] || !g2.is_ready(done, u2));
            }
            lemma_visit_from_same(g1, g2, done.update(u1, true), (fuel - 1) as nat);
        }
    }
}

/// Steps run in an order that depends on the plot alone: any two graphs
/// built from the same plot visit its steps in the same order.
pub proof fn lemma_order_determined(plot: Plot, g1: PlotGraph, g2: PlotGraph)
    requires
        g1.built_from(plot),
        g2.built_from(plot),
    ensures
        g1.visit_order() == g2.visit_order(),
{
    lemma_parents_are_pipes(plot, g1);
    lemma_parents_are_pipes(plot, g2);
    assert(g1.nodes@.len() == step_names(plot).len());
    assert(g2.nodes@.len() == step_names(plot).len());
    assert forall|v: int| 0 <= v < g1.nodes@.len() implies (#[trigger] g1.is_blocked(v) <==> g2.is_blocked(v)) by {
        assert(g1.is_blocked(v) <==> exists|s: Seq<char>|
            #[trigger] pipes_from(plot, step_names(plot)[v], s) && !step_names(plot).contains(s));
        assert(g2.is_blocked(v) <==> exists|s: Seq<char>|
            #[trigger] pipes_from(plot, step_names(plot)[v], s) && !step_names(plot).contains(s));
    }
    assert forall|v: int, p: int| 0 <= v < g1.nodes@.len() && 0 <= p < g1.nodes@.len() implies (#[trigger] g1.is_parent(v, p)
        <==> g2.is_parent(v, p)) by {
        assert(g1.is_parent(v, p) <==> pipes_from(plot, step_names(plot)[v], step_names(plot)[p]));
        assert(g2.is_parent(v, p) <==> pipes_from(plot, step_names(plot)[v], step_names(plot)[p]));
    }
    let n = g1.nodes@.len();
    assert(Seq::new(g1.nodes@.len(), |i: int| false) == Seq::new(g2.nodes@.len(), |i: int| false));
    lemma_visit_from_same(g1, g2, Seq::new(n, |i: int| false), n);
}

/// The position after `i` in `c`, going round to the start.
pub open spec fn cycle_next(c: Seq<int>, i: int) -> int {
    if i + 1 < c.len() {
        i + 1
    } else {
        0
    }
}

/// The nodes of `c` form a cycle: each pipes from the next, the last from
/// the first.
pub open spec fn is_cycle(g: PlotGraph, c: Seq<int>) -> bool {
    &&& c.len() > 0
    &&& forall|i: int| 0 <= i < c.len() ==> 0 <= #[trigger] c[i] < g.nodes@.len()
    &&& forall|i: int| 0 <= i < c.len() ==> #[trigger] g.is_parent(c[i], c[cycle_next(c, i)])
}

proof fn lemma_no_cycle_entry(g: PlotGraph, c: Seq<int>, ord: Seq<int>, k: int)
    requires
        is_cycle(g, c),
        g.respects_parents(ord),
        0 <= k < ord.len(),
    ensures
        !c.contains(ord[k]),
    decreases k,
{
    if c.contains(ord[k]) {
        let i = choose|i: int| 0 <= i < c.len() && c[i] == ord[k];
        let p = c[cycle_next(c, i)];
        assert(g.is_parent(c[i], p));
        assert(0 <= p < g.nodes@.len());
        assert(listed_before(ord, k, p));
        let j = choose|j: int| 0 <= j < k && j < ord.len() && ord[j] == p;
        lemma_no_cycle_entry(g, c, ord, j);
        assert(c.contains(ord[j]));
    }
}

/// No step on a cycle of pipes can be reached, so a graph with such a cycle
/// is not acyclic and fails `validate_no_cycles`, naming those steps.
pub proof fn lemma_cycle_unreached(g: PlotGraph, c: Seq<int>)
    requires
        is_cycle(g, c),
    ensures
        forall|i: int| 0 <= i < c.len() ==> !g.reachable(#[trigger] c[i]),
        !g.acyclic(),
{
    assert forall|i: int| 0 <= i < c.len() implies !g.reachable(#[trigger] c[i]) by {
        if g.reachable(c[i]) {
            let ord = choose|ord: Seq<int>|
                #[trigger] g.respects_parents(ord) && listed_before(ord, ord.len() as int, c[i]);
            let k = choose|k: int| 0 <= k < ord.len() && k < ord.len() && ord[k] == c[i];
            lemma_no_cycle_entry(g, c, ord, k);
        }
    }
    if g.acyclic() {
        let ord = choose|ord: Seq<int>| g.is_topological(ord);
        assert(listed_before(ord, ord.len() as int, c[0]));
        let k = choose|k: int| 0 <= k < ord.len() && k < ord.len() && ord[k] == c[0];
        lemma_no_cycle_entry(g, c, ord, k);
        assert(c.contains(c[0]));
    }
}

/// Two orders that respect parents still do so one after the other.
proof fn lemma_concat_respects(g: PlotGraph, o1: Seq<int>, o2: Seq<int>)
    requires
        g.respects_parents(o1),
        g.respects_parents(o2),
    ensures
        g.respects_parents(o1 + o2),
{
    let o = o1 + o2;
    let n = g.nodes@.len() as int;
    assert forall|k: int| 0 <= k < o.len() implies 0 <= #[trigger] o[k] < n && !g.is_blocked(o[k])
        && forall|p: int| 0 <= p < n && #[trigger] g.is_parent(o[k], p) ==> listed_before(o, k, p) by {
        if k < o1.len() {
            assert(o[k] == o1[k]);
            assert forall|p: int| 0 <= p < n && #[trigger] g.is_parent(o[k], p) implies listed_before(o, k, p) by {
                assert(listed_before(o1, k, p));
                let j = choose|j: int| 0 <= j < k && j < o1.len() && o1[j] == p;
                assert(o[j] == p);
            }
        } else {
            let k2 = k - o1.len();
            assert(o[k] == o2[k2]);
            assert forall|p: int| 0 <= p < n && #[trigger] g.is_parent(o[k], p) implies listed_before(o, k, p) by {
                assert(listed_before(o2, k2, p));
                let j = choose|j: int| 0 <= j < k2 && j < o2.len() && o2[j] == p;
                assert(o[j + o1.len()] == p);
            }
        }
    }
}

/// An order that respects parents and lists `p`, for a reachable `p`.
pub open spec fn witness(g: PlotGraph, p: int) -> Seq<int> {
    choose|ord: Seq<int>| #[trigger] g.respects_parents(ord) && listed_before(ord, ord.len() as int, p)
}

/// Witnesses for the nodes below `m` that are parents of `x` (or all of
/// them, when `all`), one after the other.
pub open spec fn witnesses(g: PlotGraph, x: int, all: bool, m: int) -> Seq<int>
    decreases m,
{
    if m <= 0 {
        seq![]
    } else if all || g.is_parent(x, m - 1) {
        witnesses(g, x, all, m - 1) + witness(g, m - 1)
    } else {
        witnesses(g, x, all, m - 1)
    }
}

proof fn lemma_witnesses(g: PlotGraph, x: int, all: bool, m: int)
    requires
        0 <= m <= g.nodes@.len(),
        forall|p: int| 0 <= p < m && (all || g.is_parent(x, p)) ==> #[trigger] g.reachable(p),
    ensures
        g.respects_parents(witnesses(g, x, all, m)),
        forall|p: int|
            0 <= p < m && (all || g.is_parent(x, p)) ==> #[trigger] listed_before(
                witnesses(g, x, all, m),
                witnesses(g, x, all, m).len() as int,
                p,
            ),
    decreases m,
{
    if m > 0 {
        lemma_witnesses(g, x, all, m - 1);
        let prev = witnesses(g, x, all, m - 1);
        if all || g.is_parent(x, m - 1) {
            assert(g.reachable(m - 1));
            let w = witness(g, m - 1);
            lemma_concat_respects(g, prev, w);
            let o = prev + w;
            assert forall|p: int| 0 <= p < m && (all || g.is_parent(x, p)) implies #[trigger] listed_before(
                o, o.len() as int, p) by {
                if p < m - 1 {
                    assert(listed_before(prev, prev.len() as int, p));
                    let j = choose|j: int| 0 <= j < prev.len() && j < prev.len() && prev[j] == p;
                    assert(o[j] == p);
                } else {
                    assert(listed_before(w, w.len() as int, p));
                    let j = choose|j: int| 0 <= j < w.len() && j < w.len() && w[j] == p;
                    assert(o[j + prev.len()] == p);
                }
            }
        }
    }
}

/// A node that is not blocked and whose parents can all be reached can
/// be reached too.
proof fn lemma_reachable_from_parents(g: PlotGraph, x: int)
    requires
        0 <= x < g.nodes@.len(),
        !g.is_blocked(x),
        forall|p: int| 0 <= p < g.nodes@.len() && g.is_parent(x, p) ==> #[trigger] g.reachable(p),
    ensures
        g.reachable(x),
{
    let n = g.nodes@.len() as int;
    lemma_witnesses(g, x, false, n);
    let w = witnesses(g, x, false, n);
    let o = w.push(x);
    assert forall|k: int| 0 <= k < o.len() implies 0 <= #[trigger] o[k] < n && !g.is_blocked(o[k])
        && forall|p: int| 0 <= p < n && #[trigger] g.is_parent(o[k], p) ==> listed_before(o, k, p) by {
        if k < w.len() {
            assert(o[k] == w[k]);
            assert forall|p: int| 0 <= p < n && #[trigger] g.is_parent(o[k], p) implies listed_before(o, k, p) by {
                assert(listed_before(w, k, p));
                let j = choose|j: int| 0 <= j < k && j < w.len() && w[j] == p;
                assert(o[j] == p);
            }
        } else {
            assert forall|p: int| 0 <= p < n && #[trigger] g.is_parent(o[k], p) implies listed_before(o, k, p) by {
                assert(listed_before(w, w.len() as int, p));
                let j = choose|j: int| 0 <= j < w.len() && j < w.len() && w[j] == p;
                assert(o[j] == p);
            }
        }
    }
    assert(g.respects_parents(o));
    assert(o[w.len() as int] == x);
    assert(listed_before(o, o.len() as int, x));
}

/// Going back from an unreachable node through unreachable parents.
pub open spec fn back_walk(g: PlotGraph, x: int, i: nat) -> int
    decreases i,
{
    if i == 0 {
        x
    } else {
        let y = back_walk(g, x, (i - 1) as nat);
        choose|p: int| 0 <= p < g.nodes@.len() && g.is_parent(y, p) && !g.reachable(p)
    }
}

proof fn lemma_back_walk(g: PlotGraph, x: int, i: nat)
    requires
        0 <= x < g.nodes@.len(),
        !g.reachable(x),
        forall|v: int| 0 <= v < g.nodes@.len() ==> !#[trigger] g.is_blocked(v),
    ensures
        0 <= back_walk(g, x, i) < g.nodes@.len(),
        !g.reachable(back_walk(g, x, i)),
        i > 0 ==> g.is_parent(back_walk(g, x, (i - 1) as nat), back_walk(g, x, i)),
    decreases i,
{
    if i > 0 {
        lemma_back_walk(g, x, (i - 1) as nat);
        let y = back_walk(g, x, (i - 1) as nat);
        assert(!g.is_blocked(y));
        if !exists|p: int| 0 <= p < g.nodes@.len() && g.is_parent(y, p) && !g.reachable(p) {
            lemma_reachable_from_parents(g, y);
        }
    }
}

/// A graph where every piped-from step exists and no pipes form a cycle
/// is acyclic, so it passes `validate_no_cycles`.
pub proof fn lemma_acyclic_without_cycles(g: PlotGraph)
    requires
        forall|v: int| 0 <= v < g.nodes@.len() ==> !#[trigger] g.is_blocked(v),
        forall|c: Seq<int>| !#[trigger] is_cycle(g, c),
    ensures
        g.acyclic(),
{
    let n = g.nodes@.len() as int;
    if exists|x: int| 0 <= x < n && !g.reachable(x) {
        let x = choose|x: int| 0 <= x < n && !g.reachable(x);
        let s = Seq::new((n + 1) as nat, |i: int| back_walk(g, x, i as nat));
        assert forall|k: int| 0 <= k < s.len() implies 0 <= #[trigger] s[k] < n by {
            lemma_back_walk(g, x, k as nat);
        }
        if s.no_duplicates() {
            lemma_distinct_below(s, n);
        }
        let (a, b) = choose|a: int, b: int| 0 <= a < s.len() && 0 <= b < s.len() && a != b && s[a] == s[b];
        let (lo, hi) = if a < b { (a, b) } else { (b, a) };
        let c = s.subrange(lo, hi);
        assert forall|i: int| 0 <= i < c.len() implies #[trigger] g.is_parent(c[i], c[cycle_next(c, i)]) by {
            lemma_back_walk(g, x, (lo + i + 1) as nat);
            assert(c[i] == back_walk(g, x, (lo + i) as nat));
            if i + 1 < c.len() {
                assert(c[i + 1] == back_walk(g, x, (lo + i + 1) as nat));
            } else {
                assert(s[hi] == back_walk(g, x, hi as nat));
                assert(c[0] == s[lo]);
            }
        }
        assert forall|i: int| 0 <= i < c.len() implies 0 <= #[trigger] c[i] < g.nodes@.len() by {
            assert(c[i] == s[lo + i]);
        }
        assert(is_cycle(g, c));
    }
    lemma_witnesses(g, 0, true, n);
    let w = witnesses(g, 0, true, n);
    assert forall|x: int| 0 <= x < n implies #[trigger] listed_before(w, w.len() as int, x) by {
        assert(g.reachable(x));
    }
    assert(g.is_topological(w));
}

} // verus!
