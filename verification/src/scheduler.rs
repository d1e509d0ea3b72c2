//! DAG-based step scheduler for multi-step orchestrations.
//!
//! [`DagScheduler`] validates that the dependency graph is acyclic and then
//! drives step execution: it tracks remaining in-degrees, yields the steps
//! whose dependencies are met, and propagates failure downstream.
//!
//! The dependency graph is given as a list of `(step, dependencies)` entries,
//! one entry per step at most.
use vstd::prelude::*;

use crate::errors::ManagerError;
use crate::names::{contains_name, index_of_name};

verus! {

/// A step identifier as seen by the specifications.
pub type Name = Seq<char>;

/// The dependency graph as seen by the specifications.
pub type DepGraph = Seq<(Name, Seq<Name>)>;

// ---------------------------------------------------------------------------
// Specification of the dependency graph
// ---------------------------------------------------------------------------

/// The dependencies of `v`: the dependency lists of the entries keyed by
/// `v`, in entry order (empty when `v` has no entry).
pub open spec fn preds_of(deps: DepGraph, v: Name) -> Seq<Name>
    decreases deps.len(),
{
    if deps.len() == 0 {
        Seq::empty()
    } else if deps.last().0 == v {
        preds_of(deps.drop_last(), v) + deps.last().1
    } else {
        preds_of(deps.drop_last(), v)
    }
}

/// The first dependency in `list` that is not among `steps`.
pub open spec fn first_unknown(steps: Seq<Name>, list: Seq<Name>) -> Option<Name>
    decreases list.len(),
{
    if list.len() == 0 {
        None
    } else {
        match first_unknown(steps, list.drop_last()) {
            Some(d) => Some(d),
            None => if !steps.contains(list.last()) {
                Some(list.last())
            } else {
                None
            },
        }
    }
}

pub open spec fn unknown_dep_message(step: Name, dep: Name) -> Seq<char> {
    "Step '"@ + step + "' depends on unknown step '"@ + dep + "'"@
}

pub open spec fn self_dep_message(step: Name) -> Seq<char> {
    "Step '"@ + step + "' depends on itself"@
}

pub open spec fn cycle_message() -> Seq<char> {
    "Dependency graph contains a cycle"@
}

/// The validation error of one entry, if any: an unknown dependency is
/// reported before a self-dependency.
pub open spec fn entry_error(steps: Seq<Name>, step: Name, list: Seq<Name>) -> Option<Seq<char>> {
    match first_unknown(steps, list) {
        Some(dep) => Some(unknown_dep_message(step, dep)),
        None => if list.contains(step) {
            Some(self_dep_message(step))
        } else {
            None
        },
    }
}

/// The first entry error, scanning the entries in order.
pub open spec fn reference_error(steps: Seq<Name>, deps: DepGraph) -> Option<Seq<char>>
    decreases deps.len(),
{
    if deps.len() == 0 {
        None
    } else {
        match reference_error(steps, deps.drop_last()) {
            Some(m) => Some(m),
            None => entry_error(steps, deps.last().0, deps.last().1),
        }
    }
}

/// The nodes of the graph: every step, and every entry key that has at
/// least one dependency.
pub open spec fn graph_nodes(steps: Seq<Name>, deps: DepGraph) -> Set<Name> {
    steps.to_set().union(
        Set::new(|v: Name| exists|i: int| 0 <= i < deps.len() && deps[i].0 == v && deps[i].1.len() > 0),
    )
}

/// One round of peeling: the nodes all of whose dependencies are in `done`.
pub open spec fn peel_next(nodes: Set<Name>, deps: DepGraph, done: Set<Name>) -> Set<Name> {
    nodes.filter(|v: Name| forall|j: int| 0 <= j < preds_of(deps, v).len() ==> done.contains(#[trigger] preds_of(deps, v)[j]))
}

/// The nodes that `k` rounds of peeling reach.
pub open spec fn peel_rounds(nodes: Set<Name>, deps: DepGraph, k: nat) -> Set<Name>
    decreases k,
{
    if k == 0 {
        Set::empty()
    } else {
        peel_next(nodes, deps, peel_rounds(nodes, deps, (k - 1) as nat))
    }
}

/// The nodes that can be ordered before all of their dependents: those not
/// downstream of a cycle.
pub open spec fn peelable(steps: Seq<Name>, deps: DepGraph) -> Set<Name> {
    let nodes = graph_nodes(steps, deps);
    peel_rounds(nodes, deps, nodes.len())
}

/// What validation returns for the given graph.
pub open spec fn validation_result(steps: Seq<Name>, deps: DepGraph) -> Result<(), Seq<char>> {
    match reference_error(steps, deps) {
        Some(m) => Err(m),
        None => if peelable(steps, deps).len() == steps.len() {
            Ok(())
        } else {
            Err(cycle_message())
        },
    }
}

// ---------------------------------------------------------------------------
// Lemmas about the specifications
// ---------------------------------------------------------------------------

proof fn lemma_first_unknown_none(steps: Seq<Name>, list: Seq<Name>)
    requires
        first_unknown(steps, list) is None,
    ensures
        forall|j: int| 0 <= j < list.len() ==> steps.contains(#[trigger] list[j]),
    decreases list.len(),
{
    if list.len() > 0 {
        lemma_first_unknown_none(steps, list.drop_last());
        assert forall|j: int| 0 <= j < list.len() implies steps.contains(#[trigger] list[j]) by {
            if j < list.len() - 1 {
                assert(list[j] == list.drop_last()[j]);
            }
        }
    }
}

proof fn lemma_reference_ok(steps: Seq<Name>, deps: DepGraph)
    requires
        reference_error(steps, deps) is None,
    ensures
        forall|i: int, j: int|
            0 <= i < deps.len() && 0 <= j < deps[i].1.len() ==> steps.contains(#[trigger] deps[i].1[j]),
        forall|i: int| 0 <= i < deps.len() ==> !(#[trigger] deps[i].1).contains(deps[i].0),
    decreases deps.len(),
{
    if deps.len() > 0 {
        lemma_reference_ok(steps, deps.drop_last());
        lemma_first_unknown_none(steps, deps.last().1);
        assert forall|i: int, j: int|
            0 <= i < deps.len() && 0 <= j < deps[i].1.len() implies steps.contains(#[trigger] deps[i].1[j]) by {
            if i < deps.len() - 1 {
                assert(deps[i] == deps.drop_last()[i]);
            }
        }
        assert forall|i: int| 0 <= i < deps.len() implies !(#[trigger] deps[i].1).contains(deps[i].0) by {
            if i < deps.len() - 1 {
                assert(deps[i] == deps.drop_last()[i]);
            }
        }
    }
}

proof fn lemma_preds_of_in(deps: DepGraph, v: Name, k: int) -> (i: int)
    requires
        0 <= k < preds_of(deps, v).len(),
    ensures
        0 <= i < deps.len(),
        deps[i].0 == v,
        deps[i].1.contains(preds_of(deps, v)[k]),
    decreases deps.len(),
{
    let rest = preds_of(deps.drop_last(), v);
    if deps.last().0 == v && k >= rest.len() {
        assert(deps.last().1[k - rest.len()] == preds_of(deps, v)[k]);
        deps.len() - 1
    } else {
        assert(preds_of(deps, v)[k] == rest[k]);
        let i = lemma_preds_of_in(deps.drop_last(), v, k);
        assert(deps[i] == deps.drop_last()[i]);
        i
    }
}

proof fn lemma_peel_rounds_subset(nodes: Set<Name>, deps: DepGraph, k: nat)
    ensures
        peel_rounds(nodes, deps, k).subset_of(nodes),
{
    if k > 0 {
        assert(peel_rounds(nodes, deps, k) == peel_next(nodes, deps, peel_rounds(nodes, deps, (k - 1) as nat)));
    }
}

// ---------------------------------------------------------------------------
// Validation
// ---------------------------------------------------------------------------

fn unknown_dep_error(step: &String, dep: &String) -> (e: ManagerError)
    ensures
        e matches ManagerError::Validation { message } && message@ == unknown_dep_message(step@, dep@),
{
    let mut m = "Step '".to_owned();
    m.append(step.as_str());
    m.append("' depends on unknown step '");
    m.append(dep.as_str());
    m.append("'");
    ManagerError::Validation { message: m }
}

fn self_dep_error(step: &String) -> (e: ManagerError)
    ensures
        e matches ManagerError::Validation { message } && message@ == self_dep_message(step@),
{
    let mut m = "Step '".to_owned();
    m.append(step.as_str());
    m.append("' depends on itself");
    ManagerError::Validation { message: m }
}

/// Checks that every dependency names a known step and that no step
/// depends on itself.
fn check_references(steps: &Vec<String>, deps: &Vec<(String, Vec<String>)>) -> (r: Result<(), ManagerError>)
    ensures
        match reference_error(steps.deep_view(), deps.deep_view()) {
            Some(m) => r matches Err(ManagerError::Validation { message }) && message@ == m,
            None => r is Ok,
        },
{
    let ghost sv = steps.deep_view();
    let ghost dv = deps.deep_view();
    let mut i: usize = 0;
    while i < deps.len()
        invariant
            i <= deps.len(),
            sv == steps.deep_view(),
            dv == deps.deep_view(),
            reference_error(sv, dv.take(i as int)) is None,
        decreases deps.len() - i,
    {
        let step = &deps[i].0;
        let list = &deps[i].1;
        assert(dv.take(i as int + 1).drop_last() =~= dv.take(i as int));
        assert(dv[i as int] == (step@, list.deep_view()));
        let mut j: usize = 0;
        while j < list.len()
            invariant
                j <= list.len(),
                i < deps.len(),
                sv == steps.deep_view(),
                dv == deps.deep_view(),
                list == deps@[i as int].1,
                step == deps@[i as int].0,
                reference_error(sv, dv.take(i as int)) is None,
                first_unknown(sv, list.deep_view().take(j as int)) is None,
            decreases list.len() - j,
        {
            assert(list.deep_view().take(j as int + 1).drop_last() =~= list.deep_view().take(j as int));
            if !contains_name(steps, &list[j]) {
                let e = unknown_dep_error(step, &list[j]);
                proof {
                    assert(first_unknown(sv, list.deep_view().take(j as int + 1)) == Some(list.deep_view()[j as int]));
                    lemma_first_unknown_prefix(sv, list.deep_view(), j as int + 1);
                    assert(dv.take(i as int + 1).last() == dv[i as int]);
                    assert(dv.take(i as int + 1).drop_last() =~= dv.take(i as int));
                    assert(dv[i as int] == (step@, list.deep_view()));
                    lemma_reference_prefix(sv, dv, i as int + 1);
                }
                return Err(e);
            }
            j = j + 1;
        }
        assert(list.deep_view().take(j as int) =~= list.deep_view());
        assert(dv.take(i as int + 1).last() == dv[i as int]);
        if contains_name(list, step) {
            let e = self_dep_error(step);
            proof {
                assert(dv.take(i as int + 1).last() == dv[i as int]);
                lemma_reference_prefix(sv, dv, i as int + 1);
            }
            return Err(e);
        }
        i = i + 1;
    }
    assert(dv.take(i as int) =~= dv);
    Ok(())
}

/// Once a prefix of the list has an unknown dependency, the whole list
/// reports that same one.
proof fn lemma_first_unknown_prefix(steps: Seq<Name>, list: Seq<Name>, n: int)
    requires
        0 <= n <= list.len(),
        first_unknown(steps, list.take(n)) is Some,
    ensures
        first_unknown(steps, list) == first_unknown(steps, list.take(n)),
    decreases list.len() - n,
{
    if n < list.len() {
        assert(list.take(n + 1).drop_last() =~= list.take(n));
        lemma_first_unknown_prefix(steps, list, n + 1);
    } else {
        assert(list.take(n) =~= list);
    }
}

/// Once a prefix of the entries has an error, the whole graph reports that
/// same one.
proof fn lemma_reference_prefix(steps: Seq<Name>, deps: DepGraph, n: int)
    requires
        0 <= n <= deps.len(),
        reference_error(steps, deps.take(n)) is Some,
    ensures
        reference_error(steps, deps) == reference_error(steps, deps.take(n)),
    decreases deps.len() - n,
{
    if n < deps.len() {
        assert(deps.take(n + 1).drop_last() =~= deps.take(n));
        lemma_reference_prefix(steps, deps, n + 1);
    } else {
        assert(deps.take(n) =~= deps);
    }
}

/// The distinct nodes of the graph, steps first.
fn collect_nodes(steps: &Vec<String>, deps: &Vec<(String, Vec<String>)>) -> (names: Vec<String>)
    ensures
        names.deep_view().no_duplicates(),
        names.deep_view().to_set() == graph_nodes(steps.deep_view(), deps.deep_view()),
{
    let ghost sv = steps.deep_view();
    let ghost dv = deps.deep_view();
    let mut names: Vec<String> = Vec::new();
    let mut i: usize = 0;
    while i < steps.len()
        invariant
            i <= steps.len(),
            sv == steps.deep_view(),
            names.deep_view().no_duplicates(),
            names.deep_view().to_set() == sv.take(i as int).to_set(),
        decreases steps.len() - i,
    {
        let ghost before = names.deep_view();
        assert(sv.take(i as int + 1) =~= sv.take(i as int).push(sv[i as int]));
        if !contains_name(&names, &steps[i]) {
            names.push(steps[i].clone());
            assert(names.deep_view() =~= before.push(sv[i as int]));
        }
        proof {
            sv.take(i as int).lemma_push_to_set_commute(sv[i as int]);
            before.lemma_push_to_set_commute(sv[i as int]);
            assert(names.deep_view().to_set() =~= sv.take(i as int + 1).to_set());
        }
        i = i + 1;
    }
    assert(sv.take(i as int) =~= sv);
    let mut k: usize = 0;
    while k < deps.len()
        invariant
            k <= deps.len(),
            sv == steps.deep_view(),
            dv == deps.deep_view(),
            names.deep_view().no_duplicates(),
            names.deep_view().to_set() == sv.to_set().union(
                Set::new(|v: Name| exists|t: int| 0 <= t < k && dv[t].0 == v && dv[t].1.len() > 0),
            ),
        decreases deps.len() - k,
    {
        let ghost before = names.deep_view();
        let ghost old_set = Set::new(|v: Name| exists|t: int| 0 <= t < k && dv[t].0 == v && dv[t].1.len() > 0);
        let ghost new_set = Set::new(|v: Name| exists|t: int| 0 <= t < k + 1 && dv[t].0 == v && dv[t].1.len() > 0);
        assert(dv[k as int] == (deps@[k as int].0@, deps@[k as int].1.deep_view()));
        if deps[k].1.len() > 0 && !contains_name(&names, &deps[k].0) {
            names.push(deps[k].0.clone());
            assert(names.deep_view() =~= before.push(dv[k as int].0));
            proof {
                before.lemma_push_to_set_commute(dv[k as int].0);
            }
        }
        proof {
            if deps@[k as int].1.len() > 0 {
                assert(new_set =~= old_set.insert(dv[k as int].0));
            } else {
                assert(new_set =~= old_set);
            }
            assert(names.deep_view().to_set() =~= sv.to_set().union(new_set));
        }
        k = k + 1;
    }
    proof {
        assert(Set::new(|v: Name| exists|t: int| 0 <= t < k && dv[t].0 == v && dv[t].1.len() > 0)
            =~= Set::new(|v: Name| exists|i: int| 0 <= i < dv.len() && dv[i].0 == v && dv[i].1.len() > 0));
    }
    names
}

/// Where the dependencies of each node stand in `names`.
fn pred_indices(names: &Vec<String>, deps: &Vec<(String, Vec<String>)>) -> (pi: Vec<Vec<usize>>)
    requires
        forall|i: int, j: int|
            0 <= i < deps.deep_view().len() && 0 <= j < deps.deep_view()[i].1.len()
                ==> names.deep_view().contains(#[trigger] deps.deep_view()[i].1[j]),
    ensures
        pi.len() == names.len(),
        forall|i: int| #![trigger pi@[i]] 0 <= i < names.len() ==> {
            &&& pi@[i]@.len() == preds_of(deps.deep_view(), names.deep_view()[i]).len()
            &&& forall|q: int| #![trigger pi@[i]@[q]] 0 <= q < pi@[i]@.len() ==> {
                &&& pi@[i]@[q] < names.len()
                &&& names.deep_view()[pi@[i]@[q] as int] == preds_of(deps.deep_view(), names.deep_view()[i])[q]
            }
        },
{
    let ghost nv = names.deep_view();
    let ghost dv = deps.deep_view();
    let mut pi: Vec<Vec<usize>> = Vec::new();
    let mut i: usize = 0;
    while i < names.len()
        invariant
            i <= names.len(),
            nv == names.deep_view(),
            dv == deps.deep_view(),
            forall|a: int, b: int|
                0 <= a < dv.len() && 0 <= b < dv[a].1.len() ==> nv.contains(#[trigger] dv[a].1[b]),
            pi.len() == i,
            forall|t: int| #![trigger pi@[t]] 0 <= t < i ==> {
                &&& pi@[t]@.len() == preds_of(dv, nv[t]).len()
                &&& forall|q: int| #![trigger pi@[t]@[q]] 0 <= q < pi@[t]@.len() ==> {
                    &&& pi@[t]@[q] < names.len()
                    &&& nv[pi@[t]@[q] as int] == preds_of(dv, nv[t])[q]
                }
            },
        decreases names.len() - i,
    {
        let ghost v = nv[i as int];
        let mut idx: Vec<usize> = Vec::new();
        let mut e: usize = 0;
        while e < deps.len()
            invariant
                e <= deps.len(),
                i < names.len(),
                nv == names.deep_view(),
                dv == deps.deep_view(),
                v == nv[i as int],
                forall|a: int, b: int|
                    0 <= a < dv.len() && 0 <= b < dv[a].1.len() ==> nv.contains(#[trigger] dv[a].1[b]),
                idx@.len() == preds_of(dv.take(e as int), v).len(),
                forall|q: int| 0 <= q < idx@.len() ==> {
                    &&& #[trigger] idx@[q] < names.len()
                    &&& nv[idx@[q] as int] == preds_of(dv.take(e as int), v)[q]
                },
            decreases deps.len() - e,
        {
            let ghost before = idx@;
            assert(dv.take(e as int + 1).drop_last() =~= dv.take(e as int));
            assert(dv[e as int] == (deps@[e as int].0@, deps@[e as int].1.deep_view()));
            if deps[e].0 == names[i] {
                let list = &deps[e].1;
                let mut j: usize = 0;
                while j < list.len()
                    invariant
                        j <= list.len(),
                        e < deps.len(),
                        nv == names.deep_view(),
                        dv == deps.deep_view(),
                        list == deps@[e as int].1,
                        dv[e as int].1 == list.deep_view(),
                        forall|a: int, b: int|
                            0 <= a < dv.len() && 0 <= b < dv[a].1.len() ==> nv.contains(#[trigger] dv[a].1[b]),
                        idx@.len() == before.len() + j,
                        before.len() == preds_of(dv.take(e as int), v).len(),
                        forall|q: int| 0 <= q < before.len() ==> nv[before[q] as int] == preds_of(dv.take(e as int), v)[q],
                        forall|q: int| 0 <= q < before.len() ==> idx@[q] == before[q],
                        forall|q: int| 0 <= q < idx@.len() ==> #[trigger] idx@[q] < names.len(),
                        forall|q: int| 0 <= q < j ==> nv[idx@[before.len() + q] as int] == list.deep_view()[q],
                    decreases list.len() - j,
                {
                    assert(nv.contains(dv[e as int].1[j as int]));
                    match index_of_name(names, &list[j]) {
                        Some(p) => {
                            idx.push(p);
                        },
                        None => {
                            assert(false);
                        },
                    }
                    j = j + 1;
                }
                proof {
                    assert(preds_of(dv.take(e as int + 1), v) == preds_of(dv.take(e as int), v) + dv[e as int].1);
                    assert forall|q: int| 0 <= q < idx@.len() implies {
                        &&& #[trigger] idx@[q] < names.len()
                        &&& nv[idx@[q] as int] == preds_of(dv.take(e as int + 1), v)[q]
                    } by {
                        if q >= before.len() {
                            assert(nv[idx@[before.len() + (q - before.len())] as int] == list.deep_view()[q - before.len()]);
                        }
                    }
                }
            } else {
                assert(preds_of(dv.take(e as int + 1), v) == preds_of(dv.take(e as int), v));
            }
            e = e + 1;
        }
        assert(dv.take(e as int) =~= dv);
        pi.push(idx);
        i = i + 1;
    }
    pi
}

/// How many nodes repeated peeling reaches.
fn count_peelable(
    names: &Vec<String>,
    pi: &Vec<Vec<usize>>,
    Ghost(nodes): Ghost<Set<Name>>,
    Ghost(dv): Ghost<DepGraph>,
) -> (count: usize)
    requires
        names.deep_view().no_duplicates(),
        names.deep_view().to_set() == nodes,
        pi.len() == names.len(),
        forall|i: int| #![trigger pi@[i]] 0 <= i < names.len() ==> {
            &&& pi@[i]@.len() == preds_of(dv, names.deep_view()[i]).len()
            &&& forall|q: int| #![trigger pi@[i]@[q]] 0 <= q < pi@[i]@.len() ==> {
                &&& pi@[i]@[q] < names.len()
                &&& names.deep_view()[pi@[i]@[q] as int] == preds_of(dv, names.deep_view()[i])[q]
            }
        },
    ensures
        count == peel_rounds(nodes, dv, nodes.len()).len(),
{
    let ghost nv = names.deep_view();
    let m = names.len();
    proof {
        nv.unique_seq_to_set();
    }
    let mut peeled: Vec<bool> = Vec::new();
    while peeled.len() < m
        invariant
            peeled.len() <= m,
            forall|t: int| 0 <= t < peeled.len() ==> !peeled@[t],
        decreases m - peeled.len(),
    {
        peeled.push(false);
    }
    let mut k: usize = 0;
    while k < m
        invariant
            k <= m,
            m == names.len(),
            nv == names.deep_view(),
            nodes.len() == m,
            peeled.len() == m,
            pi.len() == m,
            forall|i: int| #![trigger pi@[i]] 0 <= i < m ==> {
                &&& pi@[i]@.len() == preds_of(dv, nv[i]).len()
                &&& forall|q: int| #![trigger pi@[i]@[q]] 0 <= q < pi@[i]@.len() ==> {
                    &&& pi@[i]@[q] < m
                    &&& nv[pi@[i]@[q] as int] == preds_of(dv, nv[i])[q]
                }
            },
            nv.to_set() == nodes,
            nv.no_duplicates(),
            forall|i: int| 0 <= i < m ==> peeled@[i] == peel_rounds(nodes, dv, k as nat).contains(#[trigger] nv[i]),
        decreases m - k,
    {
        let ghost done = peel_rounds(nodes, dv, k as nat);
        proof {
            lemma_peel_rounds_subset(nodes, dv, k as nat);
        }
        let mut next: Vec<bool> = Vec::new();
        let mut i: usize = 0;
        while i < m
            invariant
                i <= m,
                m == names.len(),
                nv == names.deep_view(),
                peeled.len() == m,
                pi.len() == m,
                forall|a: int| #![trigger pi@[a]] 0 <= a < m ==> {
                    &&& pi@[a]@.len() == preds_of(dv, nv[a]).len()
                    &&& forall|q: int| #![trigger pi@[a]@[q]] 0 <= q < pi@[a]@.len() ==> {
                        &&& pi@[a]@[q] < m
                        &&& nv[pi@[a]@[q] as int] == preds_of(dv, nv[a])[q]
                    }
                },
                nv.to_set() == nodes,
                forall|a: int| 0 <= a < m ==> peeled@[a] == done.contains(#[trigger] nv[a]),
                next.len() == i,
                forall|a: int| 0 <= a < i ==> next@[a] == peel_next(nodes, dv, done).contains(#[trigger] nv[a]),
            decreases m - i,
        {
            let preds = &pi[i];
            let mut all = true;
            let mut q: usize = 0;
            while q < preds.len()
                invariant
                    q <= preds.len(),
                    i < m,
                    preds == pi@[i as int],
                    peeled.len() == m,
                    forall|r: int| #![trigger preds@[r]] 0 <= r < preds@.len() ==> preds@[r] < m,
                    all == forall|r: int| 0 <= r < q ==> peeled@[#[trigger] preds@[r] as int],
                decreases preds.len() - q,
            {
                if !peeled[preds[q]] {
                    all = false;
                }
                q = q + 1;
            }
            proof {
                let v = nv[i as int];
                assert(nodes.contains(v)) by {
                    assert(nv.contains(v));
                }
                let p = preds_of(dv, v);
                if all {
                    assert forall|j: int| 0 <= j < p.len() implies done.contains(#[trigger] p[j]) by {
                        assert(peeled@[preds@[j] as int]);
                        assert(nv[preds@[j] as int] == p[j]);
                    }
                } else {
                    let r = choose|r: int| 0 <= r < preds@.len() && !peeled@[#[trigger] preds@[r] as int];
                    assert(nv[preds@[r] as int] == p[r]);
                    assert(!done.contains(p[r]));
                }
            }
            next.push(all);
            i = i + 1;
        }
        peeled = next;
        k = k + 1;
    }
    let ghost fin = peel_rounds(nodes, dv, k as nat);
    proof {
        lemma_peel_rounds_subset(nodes, dv, k as nat);
    }
    let mut count: usize = 0;
    let mut i: usize = 0;
    let ghost mut seen: Set<Name> = Set::empty();
    while i < m
        invariant
            i <= m,
            m == names.len(),
            nv == names.deep_view(),
            nv.no_duplicates(),
            peeled.len() == m,
            forall|a: int| 0 <= a < m ==> peeled@[a] == fin.contains(#[trigger] nv[a]),
            seen == Set::new(|v: Name| exists|a: int| 0 <= a < i && nv[a] == v && peeled@[a]),
            seen.finite(),
            count == seen.len(),
            count <= i,
        decreases m - i,
    {
        let ghost old_seen = seen;
        if peeled[i] {
            proof {
                assert(!old_seen.contains(nv[i as int]));
                seen = seen.insert(nv[i as int]);
            }
            count = count + 1;
        }
        proof {
            assert(seen =~= Set::new(|v: Name| exists|a: int| 0 <= a < i + 1 && nv[a] == v && peeled@[a]));
        }
        i = i + 1;
    }
    proof {
        assert forall|v: Name| fin.contains(v) implies seen.contains(v) by {
            assert(nv.to_set().contains(v));
            let a = choose|a: int| 0 <= a < nv.len() && nv[a] == v;
            assert(peeled@[a]);
        }
        assert(seen =~= fin);
    }
    count
}

/// Validates that the dependency graph is a DAG: every dependency names a
/// known step, no step depends on itself, and peeling the graph reaches as
/// many nodes as there are steps.
pub fn validate_dag(steps: &Vec<String>, deps: &Vec<(String, Vec<String>)>) -> (r: Result<(), ManagerError>)
    ensures
        match validation_result(steps.deep_view(), deps.deep_view()) {
            Ok(()) => r is Ok,
            Err(m) => r matches Err(ManagerError::Validation { message }) && message@ == m,
        },
{
    let ghost sv = steps.deep_view();
    let ghost dv = deps.deep_view();
    match check_references(steps, deps) {
        Err(e) => {
            return Err(e);
        },
        Ok(()) => {},
    }
    proof {
        lemma_reference_ok(sv, dv);
    }
    let names = collect_nodes(steps, deps);
    proof {
        assert forall|i: int, j: int|
            0 <= i < dv.len() && 0 <= j < dv[i].1.len() implies names.deep_view().contains(#[trigger] dv[i].1[j]) by {
            assert(sv.contains(dv[i].1[j]));
            assert(sv.to_set().contains(dv[i].1[j]));
            assert(names.deep_view().to_set().contains(dv[i].1[j]));
        }
    }
    let pi = pred_indices(&names, deps);
    let count = count_peelable(&names, &pi, Ghost(graph_nodes(sv, dv)), Ghost(dv));
    if count != steps.len() {
        let mut m = "Dependency graph contains a cycle".to_owned();
        return Err(ManagerError::Validation { message: m });
    }
    Ok(())
}

// ---------------------------------------------------------------------------
// The scheduler
// ---------------------------------------------------------------------------

/// State of a step in the scheduler.
#[derive(Debug, Clone, Copy, PartialEq, Eq, Hash, Structural)]
pub enum StepState {
    /// Waiting for dependencies.
    Pending,
    /// All dependencies met, ready to execute.
    Ready,
    /// Currently executing.
    Running,
    /// Completed successfully.
    Completed,
    /// Failed.
    Failed,
    /// Blocked by a failed dependency.
    Blocked,
}

/// The number of occurrences of `u` in `list`.
pub open spec fn count_of(list: Seq<Name>, u: Name) -> nat
    decreases list.len(),
{
    if list.len() == 0 {
        0
    } else {
        count_of(list.drop_last(), u) + if list.last() == u {
            1nat
        } else {
            0nat
        }
    }
}

/// The steps that depend on `u`, restricted to entries keyed by a step: each
/// entry key, in entry order, as many times as `u` occurs in its list.
pub open spec fn dependents_in(steps: Seq<Name>, deps: DepGraph, u: Name) -> Seq<Name>
    decreases deps.len(),
{
    if deps.len() == 0 {
        Seq::empty()
    } else {
        let rest = dependents_in(steps, deps.drop_last(), u);
        if steps.contains(deps.last().0) {
            rest + Seq::new(count_of(deps.last().1, u), |t: int| deps.last().0)
        } else {
            rest
        }
    }
}

/// The abstract state of a scheduler.
pub struct SchedulerModel {
    /// The step IDs, in the order given.
    pub steps: Seq<Name>,
    /// The state of each step.
    pub states: Map<Name, StepState>,
    /// The number of unsatisfied dependencies of each step.
    pub in_degrees: Map<Name, nat>,
    /// The steps that depend on each step.
    pub dependents: Map<Name, Seq<Name>>,
}

/// The state of a freshly built scheduler.
pub open spec fn initial_model(steps: Seq<Name>, deps: DepGraph) -> SchedulerModel {
    SchedulerModel {
        steps,
        states: Map::new(
            |v: Name| steps.contains(v),
            |v: Name|
                if preds_of(deps, v).len() == 0 {
                    StepState::Ready
                } else {
                    StepState::Pending
                },
        ),
        in_degrees: Map::new(|v: Name| steps.contains(v), |v: Name| preds_of(deps, v).len()),
        dependents: Map::new(|v: Name| steps.contains(v), |v: Name| dependents_in(steps, deps, v)),
    }
}

/// A map from the names of a duplicate-free list to the parallel values.
pub open spec fn zip_map<V>(names: Seq<Name>, vals: Seq<V>) -> Map<Name, V> {
    Map::new(
        |k: Name| names.contains(k),
        |k: Name| vals[choose|i: int| 0 <= i < names.len() && names[i] == k],
    )
}

pub proof fn lemma_zip_map_index<V>(names: Seq<Name>, vals: Seq<V>, i: int)
    requires
        names.no_duplicates(),
        0 <= i < names.len(),
    ensures
        zip_map(names, vals).dom().contains(names[i]),
        zip_map(names, vals)[names[i]] == vals[i],
{
    assert(names.contains(names[i]));
    let j = choose|j: int| 0 <= j < names.len() && names[j] == names[i];
    assert(j == i);
}

pub proof fn lemma_zip_map_update<V>(names: Seq<Name>, vals: Seq<V>, i: int, x: V)
    requires
        names.no_duplicates(),
        0 <= i < names.len(),
        vals.len() == names.len(),
    ensures
        zip_map(names, vals.update(i, x)) == zip_map(names, vals).insert(names[i], x),
{
    let a = zip_map(names, vals.update(i, x));
    let b = zip_map(names, vals).insert(names[i], x);
    assert forall|k: Name| a.dom().contains(k) <==> b.dom().contains(k) by {
        if k == names[i] {
            assert(names.contains(k));
        }
    }
    assert forall|k: Name| a.dom().contains(k) implies a[k] == b[k] by {
        let j = choose|j: int| 0 <= j < names.len() && names[j] == k;
        lemma_zip_map_index(names, vals.update(i, x), j);
        lemma_zip_map_index(names, vals, j);
    }
    assert(a =~= b);
}


/// The steps (in order, repeats kept) whose state is `st`.
pub open spec fn steps_with_state(steps: Seq<Name>, states: Map<Name, StepState>, st: StepState) -> Seq<Name>
    decreases steps.len(),
{
    if steps.len() == 0 {
        Seq::empty()
    } else {
        let rest = steps_with_state(steps.drop_last(), states, st);
        if states[steps.last()] == st {
            rest.push(steps.last())
        } else {
            rest
        }
    }
}

/// Whether a state is terminal.
pub open spec fn is_terminal(st: StepState) -> bool {
    st == StepState::Completed || st == StepState::Failed || st == StepState::Blocked
}

/// The number of distinct steps in state `st`.
pub open spec fn count_in_state(states: Map<Name, StepState>, st: StepState) -> nat {
    in_state(states, st).len()
}

/// The distinct steps in state `st`.
pub open spec fn in_state(states: Map<Name, StepState>, st: StepState) -> Set<Name> {
    states.dom().filter(|v: Name| states[v] == st)
}

impl SchedulerModel {
    /// The same model with other step states.
    pub open spec fn with_states(self, states: Map<Name, StepState>) -> SchedulerModel {
        SchedulerModel { steps: self.steps, states, in_degrees: self.in_degrees, dependents: self.dependents }
    }
}

/// Counts of steps in each state.
#[derive(Debug, Clone, Copy)]
pub struct StepCounts {
    pub pending: usize,
    pub ready: usize,
    pub running: usize,
    pub completed: usize,
    pub failed: usize,
    pub blocked: usize,
}

impl StepCounts {
    /// The count for one state.
    pub open spec fn count(&self, st: StepState) -> usize {
        match st {
            StepState::Pending => self.pending,
            StepState::Ready => self.ready,
            StepState::Running => self.running,
            StepState::Completed => self.completed,
            StepState::Failed => self.failed,
            StepState::Blocked => self.blocked,
        }
    }

    /// The number of steps in `st`, or `None` when there are none.
    pub fn get(&self, st: &StepState) -> (r: Option<usize>)
        ensures
            r == if self.count(*st) == 0 {
                None::<usize>
            } else {
                Some(self.count(*st))
            },
    {
        let n = match st {
            StepState::Pending => self.pending,
            StepState::Ready => self.ready,
            StepState::Running => self.running,
            StepState::Completed => self.completed,
            StepState::Failed => self.failed,
            StepState::Blocked => self.blocked,
        };
        if n == 0 {
            None
        } else {
            Some(n)
        }
    }
}


/// The steps that a completion makes ready, in the order in which their
/// last unsatisfied dependency is met while walking `d`.
pub open spec fn newly_ready(m: SchedulerModel, d: Seq<Name>) -> Seq<Name>
    decreases d.len(),
{
    if d.len() == 0 {
        Seq::empty()
    } else {
        let rest = newly_ready(m, d.drop_last());
        let v = d.last();
        if m.states[v] == StepState::Pending && count_of(d, v) == m.in_degrees[v] {
            rest.push(v)
        } else {
            rest
        }
    }
}

/// The in-degree left after `n` of the dependencies are met (never below 0).
pub open spec fn degree_after(deg: nat, n: nat) -> nat {
    if n >= deg {
        0
    } else {
        (deg - n) as nat
    }
}

/// The scheduler after step `id` completes.
pub open spec fn completed_model(m: SchedulerModel, id: Name) -> SchedulerModel {
    let d = m.dependents[id];
    SchedulerModel {
        steps: m.steps,
        states: Map::new(
            |v: Name| m.states.dom().contains(v),
            |v: Name|
                if v == id {
                    StepState::Completed
                } else if m.states[v] == StepState::Pending && count_of(d, v) >= m.in_degrees[v] {
                    StepState::Ready
                } else {
                    m.states[v]
                },
        ),
        in_degrees: Map::new(
            |v: Name| m.in_degrees.dom().contains(v),
            |v: Name| degree_after(m.in_degrees[v], count_of(d, v)),
        ),
        dependents: m.dependents,
    }
}


/// `w` follows dependent links: each name is followed by one of its
/// dependents.
pub open spec fn is_walk(m: SchedulerModel, w: Seq<Name>) -> bool {
    forall|t: int| #![trigger w[t]]
        0 <= t < w.len() - 1 ==> m.dependents.dom().contains(w[t]) && m.dependents[w[t]].contains(w[t + 1])
}

/// `v` is downstream of `u`: a walk of one or more links leads from `u` to
/// `v`.
pub open spec fn reaches(m: SchedulerModel, u: Name, v: Name) -> bool {
    exists|w: Seq<Name>| w.len() >= 2 && w[0] == u && w.last() == v && #[trigger] is_walk(m, w)
}

/// The steps that a failure of `id` blocks: those downstream of it that
/// were still waiting or ready.
pub open spec fn blocked_by(m: SchedulerModel, id: Name) -> Set<Name> {
    Set::new(
        |v: Name|
            m.states.dom().contains(v) && v != id && reaches(m, id, v) && (m.states[v] == StepState::Pending
                || m.states[v] == StepState::Ready),
    )
}

/// The scheduler after step `id` fails.
pub open spec fn failed_model(m: SchedulerModel, id: Name) -> SchedulerModel {
    m.with_states(
        Map::new(
            |v: Name| m.states.dom().contains(v),
            |v: Name|
                if v == id {
                    StepState::Failed
                } else if blocked_by(m, id).contains(v) {
                    StepState::Blocked
                } else {
                    m.states[v]
                },
        ),
    )
}

/// DAG scheduler for orchestration steps.
///
/// Manages step states and dependency tracking, determines which steps are
/// ready to run, and cascades failures to downstream dependents.
#[derive(Debug)]
pub struct DagScheduler {
    /// All step IDs in the orchestration.
    steps: Vec<String>,
    /// The distinct step IDs; the vectors below run parallel to it.
    names: Vec<String>,
    /// Current state of each step.
    states: Vec<StepState>,
    /// Remaining in-degree of each step.
    in_degrees: Vec<usize>,
    /// The positions in `names` of the steps that depend on each step.
    dependents: Vec<Vec<usize>>,
}

impl View for DagScheduler {
    type V = SchedulerModel;

    closed spec fn view(&self) -> SchedulerModel {
        let nv = self.names.deep_view();
        SchedulerModel {
            steps: self.steps.deep_view(),
            states: zip_map(nv, self.states@),
            in_degrees: zip_map(nv, self.in_degrees@.map_values(|d: usize| d as nat)),
            dependents: zip_map(
                nv,
                self.dependents@.map_values(|l: Vec<usize>| l@.map_values(|j: usize| nv[j as int])),
            ),
        }
    }
}

impl DagScheduler {
    /// The internal consistency of the scheduler.
    pub closed spec fn wf(&self) -> bool {
        let nv = self.names.deep_view();
        &&& nv.no_duplicates()
        &&& nv.to_set() == self.steps.deep_view().to_set()
        &&& self.states.len() == nv.len()
        &&& self.in_degrees.len() == nv.len()
        &&& self.dependents.len() == nv.len()
        &&& forall|i: int, q: int| #![trigger self.dependents@[i]@[q]]
            0 <= i < nv.len() && 0 <= q < self.dependents@[i]@.len() ==> {
                &&& self.dependents@[i]@[q] < nv.len()
                &&& self.dependents@[i]@[q] != i
            }
        &&& forall|i: int| 0 <= i < nv.len() && #[trigger] self.states@[i] == StepState::Pending
            ==> self.in_degrees@[i] > 0
    }
}

/// The distinct names of `steps`, in first-occurrence order.
fn distinct_names(steps: &Vec<String>) -> (names: Vec<String>)
    ensures
        names.deep_view().no_duplicates(),
        names.deep_view().to_set() == steps.deep_view().to_set(),
{
    let ghost sv = steps.deep_view();
    let mut names: Vec<String> = Vec::new();
    let mut i: usize = 0;
    while i < steps.len()
        invariant
            i <= steps.len(),
            sv == steps.deep_view(),
            names.deep_view().no_duplicates(),
            names.deep_view().to_set() == sv.take(i as int).to_set(),
        decreases steps.len() - i,
    {
        let ghost before = names.deep_view();
        assert(sv.take(i as int + 1) =~= sv.take(i as int).push(sv[i as int]));
        if !contains_name(&names, &steps[i]) {
            names.push(steps[i].clone());
            assert(names.deep_view() =~= before.push(sv[i as int]));
        }
        proof {
            sv.take(i as int).lemma_push_to_set_commute(sv[i as int]);
            before.lemma_push_to_set_commute(sv[i as int]);
            assert(names.deep_view().to_set() =~= sv.take(i as int + 1).to_set());
        }
        i = i + 1;
    }
    assert(sv.take(i as int) =~= sv);
    names
}

proof fn lemma_zip_map_eq<V>(names: Seq<Name>, vals: Seq<V>, m: Map<Name, V>)
    requires
        names.no_duplicates(),
        vals.len() == names.len(),
        forall|k: Name| m.dom().contains(k) <==> names.contains(k),
        forall|i: int| 0 <= i < names.len() ==> m[#[trigger] names[i]] == vals[i],
    ensures
        zip_map(names, vals) == m,
{
    let z = zip_map(names, vals);
    assert forall|k: Name| z.dom().contains(k) implies z[k] == m[k] by {
        let j = choose|j: int| 0 <= j < names.len() && names[j] == k;
        lemma_zip_map_index(names, vals, j);
    }
    assert(z =~= m);
}

/// The positions of the dependents of each step.
fn dependent_indices(names: &Vec<String>, steps: &Vec<String>, deps: &Vec<(String, Vec<String>)>) -> (d: Vec<Vec<usize>>)
    requires
        names.deep_view().no_duplicates(),
        names.deep_view().to_set() == steps.deep_view().to_set(),
        forall|e: int| 0 <= e < deps.deep_view().len() ==> !(#[trigger] deps.deep_view()[e].1).contains(deps.deep_view()[e].0),
    ensures
        d.len() == names.len(),
        forall|i: int, q: int| #![trigger d@[i]@[q]]
            0 <= i < names.len() && 0 <= q < d@[i]@.len() ==> {
                &&& d@[i]@[q] < names.len()
                &&& d@[i]@[q] != i
            },
        forall|i: int| #![trigger d@[i]] 0 <= i < names.len() ==>
            d@[i]@.map_values(|j: usize| names.deep_view()[j as int])
                == dependents_in(steps.deep_view(), deps.deep_view(), names.deep_view()[i]),
{
    let ghost nv = names.deep_view();
    let ghost sv = steps.deep_view();
    let ghost dv = deps.deep_view();
    let mut d: Vec<Vec<usize>> = Vec::new();
    let mut i: usize = 0;
    while i < names.len()
        invariant
            i <= names.len(),
            nv == names.deep_view(),
            sv == steps.deep_view(),
            dv == deps.deep_view(),
            nv.no_duplicates(),
            nv.to_set() == sv.to_set(),
            forall|e: int| 0 <= e < dv.len() ==> !(#[trigger] dv[e].1).contains(dv[e].0),
            d.len() == i,
            forall|t: int, q: int| #![trigger d@[t]@[q]]
                0 <= t < i && 0 <= q < d@[t]@.len() ==> {
                    &&& d@[t]@[q] < names.len()
                    &&& d@[t]@[q] != t
                },
            forall|t: int| #![trigger d@[t]] 0 <= t < i ==>
                d@[t]@.map_values(|j: usize| nv[j as int]) == dependents_in(sv, dv, nv[t]),
        decreases names.len() - i,
    {
        let ghost u = nv[i as int];
        let mut list: Vec<usize> = Vec::new();
        let mut e: usize = 0;
        while e < deps.len()
            invariant
                e <= deps.len(),
                i < names.len(),
                nv == names.deep_view(),
                sv == steps.deep_view(),
                dv == deps.deep_view(),
                nv.no_duplicates(),
                nv.to_set() == sv.to_set(),
                u == nv[i as int],
                forall|e2: int| 0 <= e2 < dv.len() ==> !(#[trigger] dv[e2].1).contains(dv[e2].0),
                forall|q: int| 0 <= q < list@.len() ==> #[trigger] list@[q] < names.len() && list@[q] != i,
                list@.map_values(|j: usize| nv[j as int]) == dependents_in(sv, dv.take(e as int), u),
            decreases deps.len() - e,
        {
            assert(dv.take(e as int + 1).drop_last() =~= dv.take(e as int));
            assert(dv[e as int] == (deps@[e as int].0@, deps@[e as int].1.deep_view()));
            let ghost before = list@.map_values(|j: usize| nv[j as int]);
            let ghost key = dv[e as int].0;
            match index_of_name(names, &deps[e].0) {
                Some(k) => {
                    assert(nv.contains(key));
                    assert(sv.contains(key)) by {
                        assert(nv.to_set().contains(key));
                    }
                    let dl = &deps[e].1;
                    let ghost lv = dl.deep_view();
                    assert(!dv[e as int].1.contains(dv[e as int].0));
                    assert(lv.take(0) =~= Seq::<Name>::empty());
                    assert(list@.map_values(|j: usize| nv[j as int]) =~= before + Seq::new(count_of(lv.take(0), u), |t: int| key));
                    let mut j: usize = 0;
                    while j < dl.len()
                        invariant
                            j <= dl.len(),
                            k < names.len(),
                            i < names.len(),
                            nv == names.deep_view(),
                            nv[k as int] == key,
                            u == nv[i as int],
                            lv == dl.deep_view(),
                            !lv.contains(key),
                            forall|q: int| 0 <= q < list@.len() ==> #[trigger] list@[q] < names.len() && list@[q] != i,
                            list@.map_values(|j: usize| nv[j as int])
                                == before + Seq::new(count_of(lv.take(j as int), u), |t: int| key),
                        decreases dl.len() - j,
                    {
                        assert(lv.take(j as int + 1).drop_last() =~= lv.take(j as int));
                        assert(lv.take(j as int + 1).last() == lv[j as int]);
                        let ghost c0 = count_of(lv.take(j as int), u);
                        let ghost prev = list@;
                        assert(lv[j as int] == dl@[j as int]@);
                        if dl[j] == names[i] {
                            proof {
                                if k == i {
                                    assert(lv[j as int] == key);
                                    assert(lv.contains(key));
                                }
                            }
                            list.push(k);
                            assert(list@.map_values(|j: usize| nv[j as int]) =~= prev.map_values(|j: usize| nv[j as int]).push(key));
                            assert(count_of(lv.take(j as int + 1), u) == c0 + 1);
                        } else {
                            assert(count_of(lv.take(j as int + 1), u) == c0);
                        }
                        assert(list@.map_values(|j: usize| nv[j as int])
                            =~= before + Seq::new(count_of(lv.take(j as int + 1), u), |t: int| key));
                        j = j + 1;
                    }
                    assert(lv.take(j as int) =~= lv);
                    assert(dv.take(e as int + 1).last() == dv[e as int]);
                },
                None => {
                    assert(!sv.contains(key)) by {
                        if sv.contains(key) {
                            assert(sv.to_set().contains(key));
                            assert(nv.to_set().contains(key));
                        }
                    }
                    assert(dv.take(e as int + 1).last() == dv[e as int]);
                },
            }
            e = e + 1;
        }
        assert(dv.take(e as int) =~= dv);
        d.push(list);
        i = i + 1;
    }
    d
}

impl DagScheduler {
    /// Creates a new scheduler and validates the DAG.
    ///
    /// Returns an error if a dependency names an unknown step, if a step
    /// depends on itself, or if the dependency graph contains a cycle.
    pub fn new(steps: Vec<String>, deps: Vec<(String, Vec<String>)>) -> (r: Result<DagScheduler, ManagerError>)
        ensures
            match validation_result(steps.deep_view(), deps.deep_view()) {
                Ok(()) => r matches Ok(s) && s.wf() && s@ == initial_model(steps.deep_view(), deps.deep_view()),
                Err(m) => r matches Err(ManagerError::Validation { message }) && message@ == m,
            },
    {
        let ghost sv = steps.deep_view();
        let ghost dv = deps.deep_view();
        match validate_dag(&steps, &deps) {
            Err(e) => {
                return Err(e);
            },
            Ok(()) => {},
        }
        proof {
            lemma_reference_ok(sv, dv);
        }
        let names = distinct_names(&steps);
        let ghost nv = names.deep_view();
        proof {
            assert forall|i: int, j: int|
                0 <= i < dv.len() && 0 <= j < dv[i].1.len() implies nv.contains(#[trigger] dv[i].1[j]) by {
                assert(sv.contains(dv[i].1[j]));
                assert(sv.to_set().contains(dv[i].1[j]));
                assert(nv.to_set().contains(dv[i].1[j]));
            }
        }
        let pi = pred_indices(&names, &deps);
        let dependents = dependent_indices(&names, &steps, &deps);
        let mut in_degrees: Vec<usize> = Vec::new();
        let mut states: Vec<StepState> = Vec::new();
        let mut i: usize = 0;
        while i < names.len()
            invariant
                i <= names.len(),
                nv == names.deep_view(),
                pi.len() == names.len(),
                forall|t: int| #![trigger pi@[t]] 0 <= t < names.len() ==> pi@[t]@.len() == preds_of(dv, nv[t]).len(),
                in_degrees.len() == i,
                states.len() == i,
                forall|t: int| 0 <= t < i ==> #[trigger] in_degrees@[t] == preds_of(dv, nv[t]).len(),
                forall|t: int| 0 <= t < i ==> #[trigger] states@[t] == if preds_of(dv, nv[t]).len() == 0 {
                    StepState::Ready
                } else {
                    StepState::Pending
                },
            decreases names.len() - i,
        {
            let deg = pi[i].len();
            assert(deg == preds_of(dv, nv[i as int]).len());
            in_degrees.push(deg);
            if deg == 0 {
                states.push(StepState::Ready);
            } else {
                states.push(StepState::Pending);
            }
            i = i + 1;
        }
        let s = DagScheduler { steps, names, states, in_degrees, dependents };
        proof {
            let init = initial_model(sv, dv);
            assert forall|k: Name| nv.contains(k) <==> sv.contains(k) by {
                if nv.contains(k) {
                    assert(nv.to_set().contains(k));
                }
                if sv.contains(k) {
                    assert(sv.to_set().contains(k));
                }
            }
            lemma_zip_map_eq(nv, s.states@, init.states);
            lemma_zip_map_eq(nv, s.in_degrees@.map_values(|d: usize| d as nat), init.in_degrees);
            lemma_zip_map_eq(
                nv,
                s.dependents@.map_values(|l: Vec<usize>| l@.map_values(|j: usize| nv[j as int])),
                init.dependents,
            );
        }
        Ok(s)
    }
}

impl DagScheduler {
    /// The position of `id` among the distinct step names.
    fn position(&self, id: &String) -> (r: Option<usize>)
        requires
            self.wf(),
        ensures
            match r {
                Some(i) => i < self.names.len() && self.names.deep_view()[i as int] == id@,
                None => !self@.states.dom().contains(id@),
            },
    {
        index_of_name(&self.names, id)
    }

    proof fn lemma_view_at(&self, i: int)
        requires
            self.wf(),
            0 <= i < self.names.len(),
        ensures
            self@.states.dom().contains(self.names.deep_view()[i]),
            self@.states[self.names.deep_view()[i]] == self.states@[i],
            self@.in_degrees.dom().contains(self.names.deep_view()[i]),
            self@.in_degrees[self.names.deep_view()[i]] == self.in_degrees@[i] as nat,
            self@.dependents.dom().contains(self.names.deep_view()[i]),
            self@.dependents[self.names.deep_view()[i]] == self.dependents@[i]@.map_values(
                |j: usize| self.names.deep_view()[j as int],
            ),
    {
        let nv = self.names.deep_view();
        lemma_zip_map_index(nv, self.states@, i);
        lemma_zip_map_index(nv, self.in_degrees@.map_values(|d: usize| d as nat), i);
        lemma_zip_map_index(
            nv,
            self.dependents@.map_values(|l: Vec<usize>| l@.map_values(|j: usize| nv[j as int])),
            i,
        );
    }

    proof fn lemma_steps_known(&self, v: Name)
        requires
            self.wf(),
            self@.steps.contains(v),
        ensures
            self@.states.dom().contains(v),
    {
        assert(self.steps.deep_view().to_set().contains(v));
        assert(self.names.deep_view().to_set().contains(v));
    }

    /// The steps, in order, whose state is `st`.
    fn steps_in(&self, st: StepState) -> (r: Vec<String>)
        requires
            self.wf(),
        ensures
            r.deep_view() == steps_with_state(self@.steps, self@.states, st),
    {
        let ghost sv = self.steps.deep_view();
        let mut r: Vec<String> = Vec::new();
        let mut i: usize = 0;
        while i < self.steps.len()
            invariant
                i <= self.steps.len(),
                self.wf(),
                sv == self.steps.deep_view(),
                sv == self@.steps,
                r.deep_view() == steps_with_state(sv.take(i as int), self@.states, st),
            decreases self.steps.len() - i,
        {
            assert(sv.take(i as int + 1).drop_last() =~= sv.take(i as int));
            assert(sv.take(i as int + 1).last() == sv[i as int]);
            proof {
                assert(sv.contains(sv[i as int]));
                self.lemma_steps_known(sv[i as int]);
            }
            match self.position(&self.steps[i]) {
                Some(p) => {
                    proof {
                        self.lemma_view_at(p as int);
                    }
                    if self.states[p] == st {
                        let ghost before = r.deep_view();
                        r.push(self.steps[i].clone());
                        assert(r.deep_view() =~= before.push(sv[i as int]));
                    }
                },
                None => {},
            }
            i = i + 1;
        }
        assert(sv.take(i as int) =~= sv);
        r
    }

    /// The steps whose state is `Ready`; these can be started concurrently.
    pub fn next_ready(&self) -> (r: Vec<String>)
        requires
            self.wf(),
        ensures
            r.deep_view() == steps_with_state(self@.steps, self@.states, StepState::Ready),
    {
        self.steps_in(StepState::Ready)
    }

    /// The steps currently in `Running` state.
    pub fn running_ids(&self) -> (r: Vec<String>)
        requires
            self.wf(),
        ensures
            r.deep_view() == steps_with_state(self@.steps, self@.states, StepState::Running),
    {
        self.steps_in(StepState::Running)
    }

    /// The total number of steps.
    pub fn total_steps(&self) -> (n: usize)
        ensures
            n == self@.steps.len(),
    {
        self.steps.len()
    }

    /// The state of a specific step.
    pub fn step_state(&self, step_id: &str) -> (r: Option<StepState>)
        requires
            self.wf(),
        ensures
            r == if self@.states.dom().contains(step_id@) {
                Some(self@.states[step_id@])
            } else {
                None::<StepState>
            },
    {
        let id = step_id.to_owned();
        match self.position(&id) {
            Some(p) => {
                proof {
                    self.lemma_view_at(p as int);
                }
                Some(self.states[p])
            },
            None => None,
        }
    }

    /// Whether every step has reached a terminal state.
    pub fn is_complete(&self) -> (r: bool)
        requires
            self.wf(),
        ensures
            r == forall|v: Name| #[trigger] self@.states.dom().contains(v) ==> is_terminal(self@.states[v]),
    {
        let mut i: usize = 0;
        while i < self.states.len()
            invariant
                i <= self.states.len(),
                self.wf(),
                forall|t: int| 0 <= t < i ==> is_terminal(#[trigger] self.states@[t]),
            decreases self.states.len() - i,
        {
            let st = self.states[i];
            if !(st == StepState::Completed || st == StepState::Failed || st == StepState::Blocked) {
                proof {
                    self.lemma_view_at(i as int);
                }
                return false;
            }
            i = i + 1;
        }
        proof {
            assert forall|v: Name| #[trigger] self@.states.dom().contains(v) implies is_terminal(self@.states[v]) by {
                let nv = self.names.deep_view();
                let t = choose|t: int| 0 <= t < nv.len() && nv[t] == v;
                self.lemma_view_at(t);
            }
        }
        true
    }

    /// The steps with a state are exactly the listed steps, a finite set no
    /// larger than the step list.
    pub proof fn lemma_state_domain(&self)
        requires
            self.wf(),
        ensures
            self@.states.dom() == self@.steps.to_set(),
            self@.states.dom().finite(),
            self@.states.dom().len() <= self@.steps.len(),
    {
        let nv = self.names.deep_view();
        assert(self@.states.dom() =~= nv.to_set());
        vstd::seq_lib::seq_to_set_is_finite(nv);
        nv.unique_seq_to_set();
        self.steps.deep_view().lemma_cardinality_of_set();
    }

    /// The number of distinct steps in `st`.
    fn count_state(&self, st: StepState) -> (n: usize)
        requires
            self.wf(),
        ensures
            n == count_in_state(self@.states, st),
    {
        let ghost nv = self.names.deep_view();
        let ghost states = self@.states;
        let mut n: usize = 0;
        let mut i: usize = 0;
        let ghost mut seen: Set<Name> = Set::empty();
        while i < self.states.len()
            invariant
                i <= self.states.len(),
                self.wf(),
                nv == self.names.deep_view(),
                states == self@.states,
                seen == Set::new(|v: Name| exists|a: int| 0 <= a < i && nv[a] == v && self.states@[a] == st),
                seen.finite(),
                n == seen.len(),
                n <= i,
            decreases self.states.len() - i,
        {
            if self.states[i] == st {
                proof {
                    assert(!seen.contains(nv[i as int]));
                    seen = seen.insert(nv[i as int]);
                }
                n = n + 1;
            }
            proof {
                assert(seen =~= Set::new(|v: Name| exists|a: int| 0 <= a < i + 1 && nv[a] == v && self.states@[a] == st));
            }
            i = i + 1;
        }
        proof {
            let f = in_state(states, st);
            assert forall|v: Name| f.contains(v) <==> seen.contains(v) by {
                if f.contains(v) {
                    assert(nv.contains(v));
                    let t = choose|t: int| 0 <= t < nv.len() && nv[t] == v;
                    self.lemma_view_at(t);
                    assert(0 <= t < i && nv[t] == v && self.states@[t] == st);
                }
                if seen.contains(v) {
                    let a = choose|a: int| 0 <= a < i && nv[a] == v && self.states@[a] == st;
                    self.lemma_view_at(a);
                }
            }
            assert(f =~= seen);
        }
        n
    }

    /// Counts the distinct steps in each state.
    pub fn counts(&self) -> (c: StepCounts)
        requires
            self.wf(),
        ensures
            forall|st: StepState| #[trigger] c.count(st) == count_in_state(self@.states, st),
    {
        let c = StepCounts {
            pending: self.count_state(StepState::Pending),
            ready: self.count_state(StepState::Ready),
            running: self.count_state(StepState::Running),
            completed: self.count_state(StepState::Completed),
            failed: self.count_state(StepState::Failed),
            blocked: self.count_state(StepState::Blocked),
        };
        c
    }

    /// Marks a step as currently running.
    pub fn mark_running(&mut self, step_id: &str)
        requires
            old(self).wf(),
        ensures
            final(self).wf(),
            final(self)@ == if old(self)@.states.dom().contains(step_id@) {
                old(self)@.with_states(old(self)@.states.insert(step_id@, StepState::Running))
            } else {
                old(self)@
            },
    {
        let id = step_id.to_owned();
        match self.position(&id) {
            Some(p) => {
                let ghost nv = self.names.deep_view();
                let ghost old_states = self.states@;
                self.states.set(p, StepState::Running);
                proof {
                    lemma_zip_map_update(nv, old_states, p as int, StepState::Running);
                    assert(self.states@ == old_states.update(p as int, StepState::Running));
                    assert(self@.states == old(self)@.states.insert(step_id@, StepState::Running));
                }
            },
            None => {},
        }
    }
}

impl DagScheduler {
    /// Marks a step as completed.
    ///
    /// Decrements the in-degrees of downstream steps and moves the steps that
    /// become unblocked to `Ready`. Returns the IDs of the newly-ready steps.
    pub fn mark_completed(&mut self, step_id: &str) -> (r: Vec<String>)
        requires
            old(self).wf(),
        ensures
            final(self).wf(),
            old(self)@.states.dom().contains(step_id@) ==> {
                &&& final(self)@ == completed_model(old(self)@, step_id@)
                &&& r.deep_view() == newly_ready(old(self)@, old(self)@.dependents[step_id@])
            },
            !old(self)@.states.dom().contains(step_id@) ==> final(self)@ == old(self)@ && r@.len() == 0,
    {
        let id = step_id.to_owned();
        let p = match self.position(&id) {
            Some(p) => p,
            None => {
                return Vec::new();
            },
        };
        let ghost o = *self;
        let ghost m = self@;
        let ghost nv = self.names.deep_view();
        proof {
            self.lemma_view_at(p as int);
        }
        self.states.set(p, StepState::Completed);
        let downstream = self.dependents[p].clone();
        let ghost dn = downstream@.map_values(|j: usize| nv[j as int]);
        assert(dn == m.dependents[id@]);
        let mut newly: Vec<String> = Vec::new();
        let mut q: usize = 0;
        while q < downstream.len()
            invariant
                q <= downstream.len(),
                nv == self.names.deep_view(),
                nv == o.names.deep_view(),
                nv.no_duplicates(),
                o.wf(),
                m == o@,
                p < nv.len(),
                nv[p as int] == id@,
                self.steps == o.steps,
                self.names == o.names,
                self.dependents == o.dependents,
                self.states.len() == nv.len(),
                self.in_degrees.len() == nv.len(),
                downstream@ == o.dependents@[p as int]@,
                dn == downstream@.map_values(|j: usize| nv[j as int]),
                forall|i: int| 0 <= i < nv.len() ==> #[trigger] self.in_degrees@[i] as nat == degree_after(
                    o.in_degrees@[i] as nat,
                    count_of(dn.take(q as int), nv[i]),
                ),
                forall|i: int| 0 <= i < nv.len() ==> #[trigger] self.states@[i] == if i == p {
                    StepState::Completed
                } else if o.states@[i] == StepState::Pending && count_of(dn.take(q as int), nv[i])
                    >= o.in_degrees@[i] {
                    StepState::Ready
                } else {
                    o.states@[i]
                },
                newly.deep_view() == newly_ready(m, dn.take(q as int)),
            decreases downstream.len() - q,
        {
            let ds = downstream[q];
            assert(ds < nv.len() && ds != p) by {
                assert(o.dependents@[p as int]@[q as int] < nv.len());
            }
            assert(dn.take(q as int + 1).drop_last() =~= dn.take(q as int));
            assert(dn.take(q as int + 1).last() == nv[ds as int]);
            proof {
                o.lemma_view_at(ds as int);
                assert forall|i: int| 0 <= i < nv.len() implies #[trigger] count_of(dn.take(q as int + 1), nv[i])
                    == count_of(dn.take(q as int), nv[i]) + if i == ds {
                    1nat
                } else {
                    0nat
                } by {
                    if i != ds {
                        assert(nv[i] != nv[ds as int]);
                    }
                }
            }
            let deg = self.in_degrees[ds];
            let nd = if deg > 0 {
                deg - 1
            } else {
                0
            };
            self.in_degrees.set(ds, nd);
            if nd == 0 && self.states[ds] == StepState::Pending {
                self.states.set(ds, StepState::Ready);
                let ghost before = newly.deep_view();
                newly.push(self.names[ds].clone());
                assert(newly.deep_view() =~= before.push(nv[ds as int]));
            }
            q = q + 1;
        }
        assert(dn.take(q as int) =~= dn);
        proof {
            let target = completed_model(m, id@);
            lemma_zip_map_eq(nv, self.states@, target.states);
            lemma_zip_map_eq(nv, self.in_degrees@.map_values(|d: usize| d as nat), target.in_degrees);
            assert(self@.dependents == m.dependents);
            assert forall|i: int| 0 <= i < nv.len() && #[trigger] self.states@[i] == StepState::Pending
                implies self.in_degrees@[i] > 0 by {
                assert(o.states@[i] == StepState::Pending ==> o.in_degrees@[i] > 0);
            }
        }
        newly
    }
}

impl DagScheduler {
    /// `nv[y]` is a dependent of `nv[x]` exactly when `y` is listed for `x`.
    proof fn lemma_dependent_link(&self, x: int, y: int)
        requires
            self.wf(),
            0 <= x < self.names.len(),
            0 <= y < self.names.len(),
        ensures
            self@.dependents[self.names.deep_view()[x]].contains(self.names.deep_view()[y])
                <==> self.dependents@[x]@.contains(y as usize),
    {
        let nv = self.names.deep_view();
        self.lemma_view_at(x);
        let l = self.dependents@[x]@;
        if l.contains(y as usize) {
            let q = choose|q: int| 0 <= q < l.len() && l[q] == y as usize;
            assert(l.map_values(|j: usize| nv[j as int])[q] == nv[y]);
        }
        let lm = l.map_values(|j: usize| nv[j as int]);
        if self@.dependents[nv[x]].contains(nv[y]) {
            let q = choose|q: int| 0 <= q < lm.len() && lm[q] == nv[y];
            assert(self.dependents@[x]@[q] < nv.len());
            assert(nv[l[q] as int] == nv[y]);
            assert(l[q] == y as usize);
        }
    }

    /// Every name on a walk that starts at a step is a step, and when the
    /// marked set holds the dependents of the start and is closed under
    /// dependents, it holds every later name of the walk.
    proof fn lemma_walk_marked(&self, p: int, visited: Seq<bool>, w: Seq<Name>, t: int)
        requires
            self.wf(),
            0 <= p < self.names.len(),
            visited.len() == self.names.len(),
            forall|y: int| 0 <= y < visited.len() && self.dependents@[p]@.contains(y as usize) ==> visited[y],
            forall|x: int, y: int|
                0 <= x < visited.len() && 0 <= y < visited.len() && visited[x]
                    && self.dependents@[x]@.contains(y as usize) ==> visited[y],
            w.len() >= 2,
            w[0] == self.names.deep_view()[p],
            is_walk(self@, w),
            1 <= t < w.len(),
        ensures
            exists|i: int| 0 <= i < visited.len() && self.names.deep_view()[i] == w[t] && visited[i],
        decreases t,
    {
        let nv = self.names.deep_view();
        let prev: int = if t == 1 {
            p
        } else {
            self.lemma_walk_marked(p, visited, w, t - 1);
            choose|i: int| 0 <= i < visited.len() && nv[i] == w[t - 1] && visited[i]
        };
        assert(self@.dependents.dom().contains(w[t - 1]) && self@.dependents[w[t - 1]].contains(w[t]));
        self.lemma_view_at(prev);
        let l = self.dependents@[prev]@;
        let lm = l.map_values(|j: usize| nv[j as int]);
        let q = choose|q: int| 0 <= q < lm.len() && lm[q] == w[t];
        let y = l[q] as int;
        assert(self.dependents@[prev]@[q] < nv.len());
        assert(l.contains(y as usize));
        assert(nv[y] == w[t]);
        assert(0 <= y < visited.len());
        if t == 1 {
            assert(visited[y]);
        } else {
            assert(visited[prev]);
            assert(visited[y]);
        }
    }

    /// Marks a step as failed.
    ///
    /// Cascades the failure to all downstream dependents (transitively),
    /// marking those still waiting or ready as `Blocked`. Returns the IDs of
    /// all blocked steps.
    pub fn mark_failed(&mut self, step_id: &str) -> (r: Vec<String>)
        requires
            old(self).wf(),
        ensures
            final(self).wf(),
            old(self)@.states.dom().contains(step_id@) ==> final(self)@ == failed_model(old(self)@, step_id@),
            !old(self)@.states.dom().contains(step_id@) ==> final(self)@ == old(self)@,
            r.deep_view().no_duplicates(),
            r.deep_view().to_set() == blocked_by(old(self)@, step_id@),
    {
        let id = step_id.to_owned();
        let p = match self.position(&id) {
            Some(p) => p,
            None => {
                proof {
                    assert(blocked_by(self@, step_id@) =~= Set::empty());
                }
                return Vec::new();
            },
        };
        let ghost o = *self;
        let ghost m = self@;
        let ghost nv = self.names.deep_view();
        let n = self.names.len();
        self.states.set(p, StepState::Failed);
        let mut visited: Vec<bool> = Vec::new();
        while visited.len() < n
            invariant
                visited.len() <= n,
                forall|t: int| 0 <= t < visited.len() ==> !visited@[t],
            decreases n - visited.len(),
        {
            visited.push(false);
        }
        let mut queue: Vec<usize> = self.dependents[p].clone();
        let mut head: usize = 0;
        let mut remaining: usize = n;
        let mut blocked: Vec<String> = Vec::new();
        let ghost mut unvisited: Set<int> = Set::new(|i: int| 0 <= i < n);
        proof {
            lemma_int_range_set(n as int);
            assert forall|t: int| 0 <= t < queue@.len() implies #[trigger] queue@[t] < n && reaches(m, id@, nv[queue@[t] as int]) by {
                assert(o.dependents@[p as int]@[t] < n);
                o.lemma_dependent_link(p as int, queue@[t] as int);
                let w = seq![id@, nv[queue@[t] as int]];
                assert(is_walk(m, w)) by {
                    o.lemma_view_at(p as int);
                }
            }
        }
        while head < queue.len()
            invariant
                n == nv.len(),
                nv == self.names.deep_view(),
                nv == o.names.deep_view(),
                nv.no_duplicates(),
                o.wf(),
                m == o@,
                p < n,
                nv[p as int] == id@,
                self.steps == o.steps,
                self.names == o.names,
                self.dependents == o.dependents,
                self.in_degrees == o.in_degrees,
                self.states.len() == n,
                visited.len() == n,
                head <= queue.len(),
                unvisited.finite(),
                unvisited == Set::new(|i: int| 0 <= i < n && !visited@[i]),
                remaining == unvisited.len(),
                forall|t: int| 0 <= t < queue@.len() ==> #[trigger] queue@[t] < n && reaches(m, id@, nv[queue@[t] as int]),
                forall|i: int| 0 <= i < n && #[trigger] visited@[i] ==> reaches(m, id@, nv[i]),
                forall|y: int| 0 <= y < n && #[trigger] o.dependents@[p as int]@.contains(y as usize) ==> visited@[y]
                    || exists|t: int| head <= t < queue@.len() && queue@[t] == y as usize,
                forall|x: int, y: int|
                    0 <= x < n && 0 <= y < n && visited@[x] && #[trigger] o.dependents@[x]@.contains(y as usize)
                        ==> visited@[y] || exists|t: int| head <= t < queue@.len() && queue@[t] == y as usize,
                forall|i: int| 0 <= i < n ==> #[trigger] self.states@[i] == if i == p {
                    StepState::Failed
                } else if visited@[i] && (o.states@[i] == StepState::Pending || o.states@[i] == StepState::Ready) {
                    StepState::Blocked
                } else {
                    o.states@[i]
                },
                blocked.deep_view().no_duplicates(),
                blocked.deep_view().to_set() == Set::new(
                    |v: Name|
                        exists|i: int|
                            0 <= i < n && nv[i] == v && visited@[i] && i != p && (o.states@[i]
                                == StepState::Pending || o.states@[i] == StepState::Ready),
                ),
            decreases remaining, queue.len() - head,
        {
            let x = queue[head];
            head = head + 1;
            if visited[x] {
                proof {
                    assert forall|y: int| 0 <= y < n && #[trigger] o.dependents@[p as int]@.contains(y as usize)
                        implies visited@[y] || exists|t: int| head <= t < queue@.len() && queue@[t] == y as usize by {
                        if !visited@[y] {
                            let t = choose|t: int| head - 1 <= t < queue@.len() && queue@[t] == y as usize;
                            assert(t != head - 1);
                        }
                    }
                    assert forall|a: int, y: int|
                        0 <= a < n && 0 <= y < n && visited@[a] && #[trigger] o.dependents@[a]@.contains(y as usize)
                            implies visited@[y] || exists|t: int| head <= t < queue@.len() && queue@[t] == y as usize by {
                        if !visited@[y] {
                            let t = choose|t: int| head - 1 <= t < queue@.len() && queue@[t] == y as usize;
                            assert(t != head - 1);
                        }
                    }
                }
                continue;
            }
            let ghost old_visited = visited@;
            let ghost old_blocked = blocked.deep_view();
            let ghost old_queue = queue@;
            let ghost old_head = head - 1;
            visited.set(x, true);
            proof {
                assert(unvisited.contains(x as int));
                unvisited = unvisited.remove(x as int);
                assert(unvisited =~= Set::new(|i: int| 0 <= i < n && !visited@[i]));
            }
            remaining = remaining - 1;
            let st = self.states[x];
            if x != p && (st == StepState::Pending || st == StepState::Ready) {
                self.states.set(x, StepState::Blocked);
                blocked.push(self.names[x].clone());
                proof {
                    assert(blocked.deep_view() =~= old_blocked.push(nv[x as int]));
                    assert(!old_blocked.contains(nv[x as int])) by {
                        if old_blocked.contains(nv[x as int]) {
                            assert(old_blocked.to_set().contains(nv[x as int]));
                        }
                    }
                    old_blocked.lemma_push_to_set_commute(nv[x as int]);
                }
            }
            proof {
                assert(blocked.deep_view().to_set() =~= Set::new(
                    |v: Name|
                        exists|i: int|
                            0 <= i < n && nv[i] == v && visited@[i] && i != p && (o.states@[i]
                                == StepState::Pending || o.states@[i] == StepState::Ready),
                ));
            }
            let further = &self.dependents[x];
            let mut k: usize = 0;
            while k < further.len()
                invariant
                    k <= further.len(),
                    x < n,
                    n == nv.len(),
                    o.wf(),
                    nv == o.names.deep_view(),
                    further == o.dependents@[x as int],
                    head <= old_queue.len() + k,
                    queue@.len() == old_queue.len() + k,
                    forall|t: int| 0 <= t < old_queue.len() ==> queue@[t] == old_queue[t],
                    forall|t: int| 0 <= t < k ==> queue@[old_queue.len() + t] == further@[t],
                decreases further.len() - k,
            {
                queue.push(further[k]);
                k = k + 1;
            }
            proof {
                assert forall|t: int| 0 <= t < queue@.len() implies #[trigger] queue@[t] < n && reaches(m, id@, nv[queue@[t] as int]) by {
                    if t >= old_queue.len() {
                        let q = t - old_queue.len();
                        assert(queue@[t] == further@[q]);
                        assert(o.dependents@[x as int]@[q] < n);
                        let y = queue@[t] as int;
                        assert(o.dependents@[x as int]@.contains(y as usize));
                        o.lemma_dependent_link(x as int, y);
                        assert(reaches(m, id@, nv[x as int]));
                        let w = choose|w: Seq<Name>| w.len() >= 2 && w[0] == id@ && w.last() == nv[x as int] && #[trigger] is_walk(m, w);
                        let w2 = w.push(nv[y]);
                        assert forall|s: int| #![trigger w2[s]] 0 <= s < w2.len() - 1 implies m.dependents.dom().contains(w2[s]) && m.dependents[w2[s]].contains(w2[s + 1]) by {
                            if s < w.len() - 1 {
                                assert(w[s] == w2[s] && w[s + 1] == w2[s + 1]);
                            } else {
                                o.lemma_view_at(x as int);
                            }
                        }
                        assert(is_walk(m, w2));
                    } else {
                        assert(queue@[t] == old_queue[t]);
                    }
                }
                assert forall|y: int| 0 <= y < n && #[trigger] o.dependents@[p as int]@.contains(y as usize)
                    implies visited@[y] || exists|t: int| head <= t < queue@.len() && queue@[t] == y as usize by {
                    if !visited@[y] {
                        let t = choose|t: int| old_head <= t < old_queue.len() && old_queue[t] == y as usize;
                        assert(t != old_head);
                        assert(queue@[t] == y as usize);
                    }
                }
                assert forall|a: int, y: int|
                    0 <= a < n && 0 <= y < n && visited@[a] && #[trigger] o.dependents@[a]@.contains(y as usize)
                        implies visited@[y] || exists|t: int| head <= t < queue@.len() && queue@[t] == y as usize by {
                    if !visited@[y] {
                        if a == x as int {
                            let q = choose|q: int| 0 <= q < further@.len() && further@[q] == y as usize;
                            assert(queue@[old_queue.len() + q] == y as usize);
                        } else {
                            assert(old_visited[a]);
                            let t = choose|t: int| old_head <= t < old_queue.len() && old_queue[t] == y as usize;
                            assert(t != old_head);
                            assert(queue@[t] == y as usize);
                        }
                    }
                }
                assert forall|i: int| 0 <= i < n && #[trigger] visited@[i] implies reaches(m, id@, nv[i]) by {
                    if i == x as int {
                        assert(queue@[old_head] == x);
                    } else {
                        assert(old_visited[i]);
                    }
                }
            }
        }
        proof {
            let target = failed_model(m, id@);
            let vis = visited@;
            assert forall|i: int| 0 <= i < n implies (vis[i] <==> reaches(m, id@, #[trigger] nv[i])) by {
                if reaches(m, id@, nv[i]) {
                    let w = choose|w: Seq<Name>| w.len() >= 2 && w[0] == id@ && w.last() == nv[i] && #[trigger] is_walk(m, w);
                    o.lemma_walk_marked(p as int, vis, w, w.len() - 1);
                    let j = choose|j: int| 0 <= j < vis.len() && nv[j] == w[w.len() - 1] && vis[j];
                    assert(j == i);
                }
            }
            assert forall|i: int| 0 <= i < n implies target.states[#[trigger] nv[i]] == self.states@[i] by {
                o.lemma_view_at(i);
                if i != p as int {
                    assert(nv[i] != id@);
                }
            }
            assert forall|k: Name| target.states.dom().contains(k) <==> nv.contains(k) by {
                if nv.contains(k) {
                    let t = choose|t: int| 0 <= t < n && nv[t] == k;
                    o.lemma_view_at(t);
                }
            }
            lemma_zip_map_eq(nv, self.states@, target.states);
            assert(blocked.deep_view().to_set() =~= blocked_by(m, id@)) by {
                assert forall|v: Name| blocked_by(m, id@).contains(v) implies blocked.deep_view().to_set().contains(v) by {
                    assert(nv.contains(v));
                    let t = choose|t: int| 0 <= t < n && nv[t] == v;
                    o.lemma_view_at(t);
                    assert(t != p);
                }
                assert forall|v: Name| blocked.deep_view().to_set().contains(v) implies blocked_by(m, id@).contains(v) by {
                    let i = choose|i: int|
                        0 <= i < n && nv[i] == v && vis[i] && i != p && (o.states@[i] == StepState::Pending
                            || o.states@[i] == StepState::Ready);
                    o.lemma_view_at(i);
                    assert(nv[i] != nv[p as int]);
                }
            }
            assert forall|i: int| 0 <= i < n && #[trigger] self.states@[i] == StepState::Pending
                implies self.in_degrees@[i] > 0 by {
                assert(o.states@[i] == StepState::Pending ==> o.in_degrees@[i] > 0);
            }
        }
        blocked
    }
}

proof fn lemma_int_range_set(n: int)
    requires
        n >= 0,
    ensures
        Set::new(|i: int| 0 <= i < n).finite(),
        Set::new(|i: int| 0 <= i < n).len() == n,
{
    vstd::set_lib::lemma_int_range(0, n);
    assert(Set::new(|i: int| 0 <= i < n) =~= vstd::set_lib::set_int_range(0, n));
}

// ---------------------------------------------------------------------------
// Laws of validation
// ---------------------------------------------------------------------------

/// Each name of `w` is a dependency of the next one.
pub open spec fn is_dep_chain(deps: DepGraph, w: Seq<Name>) -> bool {
    forall|t: int| #![trigger w[t]] 0 <= t < w.len() - 1 ==> preds_of(deps, w[t + 1]).contains(w[t])
}

/// Some chain of dependencies leads from a step back to itself.
pub open spec fn has_cycle(deps: DepGraph) -> bool {
    exists|w: Seq<Name>| w.len() >= 2 && w[0] == w.last() && #[trigger] is_dep_chain(deps, w)
}

/// Steps are listed once and every entry with a dependency is keyed by a
/// step (an entry with an empty list may name anything).
pub open spec fn well_formed_graph(steps: Seq<Name>, deps: DepGraph) -> bool {
    &&& steps.no_duplicates()
    &&& forall|i: int| 0 <= i < deps.len() && (#[trigger] deps[i]).1.len() > 0 ==> steps.contains(deps[i].0)
}

proof fn lemma_nodes_are_steps(steps: Seq<Name>, deps: DepGraph)
    requires
        well_formed_graph(steps, deps),
    ensures
        graph_nodes(steps, deps) == steps.to_set(),
        graph_nodes(steps, deps).len() == steps.len(),
{
    assert(graph_nodes(steps, deps) =~= steps.to_set());
    steps.unique_seq_to_set();
}

/// A name with a dependency is a node of the graph.
proof fn lemma_has_pred_is_node(steps: Seq<Name>, deps: DepGraph, v: Name, k: int)
    requires
        0 <= k < preds_of(deps, v).len(),
    ensures
        graph_nodes(steps, deps).contains(v),
{
    let i = lemma_preds_of_in(deps, v, k);
    assert(deps[i].1.len() > 0);
}

/// No name on a cycle is ever peeled.
proof fn lemma_cycle_never_peeled(nodes: Set<Name>, deps: DepGraph, w: Seq<Name>, k: nat)
    requires
        w.len() >= 2,
        w[0] == w.last(),
        is_dep_chain(deps, w),
    ensures
        forall|t: int| 0 <= t < w.len() ==> !peel_rounds(nodes, deps, k).contains(#[trigger] w[t]),
    decreases k,
{
    if k > 0 {
        lemma_cycle_never_peeled(nodes, deps, w, (k - 1) as nat);
        let done = peel_rounds(nodes, deps, (k - 1) as nat);
        assert forall|t: int| 0 <= t < w.len() implies !peel_rounds(nodes, deps, k).contains(#[trigger] w[t]) by {
            let pt: int = if t == 0 {
                w.len() - 2
            } else {
                t - 1
            };
            let v = w[t];
            assert(w[pt + 1] == v);
            assert(preds_of(deps, v).contains(w[pt]));
            let j = choose|j: int| 0 <= j < preds_of(deps, v).len() && preds_of(deps, v)[j] == w[pt];
            assert(!done.contains(w[pt]));
            assert(!done.contains(preds_of(deps, v)[j]));
        }
    }
}

/// A node that `k` rounds of peeling miss ends a chain of `k + 1` nodes.
proof fn lemma_back_chain(steps: Seq<Name>, deps: DepGraph, v: Name, k: nat) -> (w: Seq<Name>)
    requires
        reference_error(steps, deps) is None,
        graph_nodes(steps, deps).contains(v),
        !peel_rounds(graph_nodes(steps, deps), deps, k).contains(v),
    ensures
        w.len() == k + 1,
        w.last() == v,
        is_dep_chain(deps, w),
        forall|t: int| 0 <= t < w.len() ==> graph_nodes(steps, deps).contains(#[trigger] w[t]),
    decreases k,
{
    let nodes = graph_nodes(steps, deps);
    if k == 0 {
        seq![v]
    } else {
        let done = peel_rounds(nodes, deps, (k - 1) as nat);
        let pv = preds_of(deps, v);
        assert(!peel_next(nodes, deps, done).contains(v));
        let j = choose|j: int| 0 <= j < pv.len() && !done.contains(#[trigger] pv[j]);
        let u = pv[j];
        let i = lemma_preds_of_in(deps, v, j);
        lemma_reference_ok(steps, deps);
        let jj = choose|jj: int| 0 <= jj < deps[i].1.len() && deps[i].1[jj] == u;
        assert(steps.contains(deps[i].1[jj]));
        assert(steps.to_set().contains(u));
        let w0 = lemma_back_chain(steps, deps, u, (k - 1) as nat);
        let w = w0.push(v);
        assert forall|t: int| #![trigger w[t]] 0 <= t < w.len() - 1 implies preds_of(deps, w[t + 1]).contains(w[t]) by {
            if t < w0.len() - 1 {
                assert(w[t] == w0[t] && w[t + 1] == w0[t + 1]);
            } else {
                assert(w[t] == u);
                assert(pv[j] == u);
            }
        }
        assert forall|t: int| 0 <= t < w.len() implies nodes.contains(#[trigger] w[t]) by {
            if t < w0.len() {
                assert(w[t] == w0[t]);
            }
        }
        w
    }
}

/// A chain with a repeated name holds a cycle.
proof fn lemma_repeat_gives_cycle(deps: DepGraph, w: Seq<Name>, a: int, b: int)
    requires
        0 <= a < b < w.len(),
        w[a] == w[b],
        is_dep_chain(deps, w),
    ensures
        has_cycle(deps),
{
    let c = w.subrange(a, b + 1);
    assert forall|t: int| #![trigger c[t]] 0 <= t < c.len() - 1 implies preds_of(deps, c[t + 1]).contains(c[t]) by {
        assert(c[t] == w[a + t] && c[t + 1] == w[a + t + 1]);
    }
    assert(is_dep_chain(deps, c));
}

/// Validation accepts a well-formed graph exactly when every dependency is
/// a known step other than the dependent itself and no chain of
/// dependencies leads from a step back to itself.
pub proof fn law_validation_accepts_exactly_acyclic(steps: Seq<Name>, deps: DepGraph)
    requires
        well_formed_graph(steps, deps),
    ensures
        validation_result(steps, deps) is Ok <==> reference_error(steps, deps) is None && !has_cycle(deps),
{
    let nodes = graph_nodes(steps, deps);
    lemma_nodes_are_steps(steps, deps);
    let p = peelable(steps, deps);
    lemma_peel_rounds_subset(nodes, deps, nodes.len());
    if reference_error(steps, deps) is None {
        if has_cycle(deps) {
            let w = choose|w: Seq<Name>| w.len() >= 2 && w[0] == w.last() && #[trigger] is_dep_chain(deps, w);
            lemma_cycle_never_peeled(nodes, deps, w, nodes.len());
            let last = w.last();
            assert(preds_of(deps, w[w.len() - 1]).contains(w[w.len() - 2]));
            let j = choose|j: int| 0 <= j < preds_of(deps, last).len() && preds_of(deps, last)[j] == w[w.len() - 2];
            lemma_has_pred_is_node(steps, deps, last, j);
            assert(!p.contains(w[w.len() - 1]));
            assert(p.subset_of(nodes.remove(last)));
            vstd::set_lib::lemma_len_subset(p, nodes.remove(last));
        }
        if p.len() != steps.len() {
            assert(!(nodes.subset_of(p))) by {
                if nodes.subset_of(p) {
                    assert(p =~= nodes);
                }
            }
            let v = choose|v: Name| nodes.contains(v) && !p.contains(v);
            let w = lemma_back_chain(steps, deps, v, nodes.len());
            if w.no_duplicates() {
                w.unique_seq_to_set();
                assert(w.to_set().subset_of(nodes));
                vstd::set_lib::lemma_len_subset(w.to_set(), nodes);
                assert(false);
            }
            let (a, b) = choose|a: int, b: int| 0 <= a < w.len() && 0 <= b < w.len() && a != b && w[a] == w[b];
            if a < b {
                lemma_repeat_gives_cycle(deps, w, a, b);
            } else {
                lemma_repeat_gives_cycle(deps, w, b, a);
            }
        }
    }
}


/// Marking a step running takes it out of the ready steps and leaves the
/// order and readiness of every other step as they were.
pub proof fn law_running_leaves_ready(steps: Seq<Name>, states: Map<Name, StepState>, id: Name)
    requires
        forall|i: int| 0 <= i < steps.len() ==> states.dom().contains(#[trigger] steps[i]),
    ensures
        steps_with_state(steps, states.insert(id, StepState::Running), StepState::Ready) == steps_with_state(
            steps,
            states,
            StepState::Ready,
        ).filter(|x: Name| x != id),
    decreases steps.len(),
{
    reveal(Seq::filter);
    if steps.len() > 0 {
        assert forall|i: int| 0 <= i < steps.drop_last().len() implies states.dom().contains(
            #[trigger] steps.drop_last()[i],
        ) by {
            assert(steps.drop_last()[i] == steps[i]);
        }
        law_running_leaves_ready(steps.drop_last(), states, id);
        let rest = steps_with_state(steps.drop_last(), states, StepState::Ready);
        let last = steps.last();
        assert(states.dom().contains(steps[steps.len() - 1]));
        if states[last] == StepState::Ready {
            assert(rest.push(last).drop_last() =~= rest);
        }
    }
}

} // verus!
