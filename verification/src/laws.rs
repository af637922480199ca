//! Laws of the engine, proved once and for all over the specification
//! functions that the executable functions' contracts are stated with. The
//! evaluator's value is never pinned — the evaluation engine can read the
//! clock — so each law is stated for whatever value the call returned.

use vstd::prelude::*;
use crate::engine::{args_for, binding_of, get_reply, set_step};
use crate::evaluator::variables_of;
use crate::graph::{add_dependent, add_dependents, record_dep, DepView};
use crate::propagate::{bfs, propagation_of, recompute_one, recompute_seq, sift};
use crate::store::cell_at;
use crate::text::{contains_sub, has_underscore};
use crate::values::{ArgView, ReplyView, ValueView};

verus! {

/// A cell that was never set reads as empty: its `get` reply carries `Empty`.
pub proof fn lemma_unset_cell_reads_empty(cells: Map<Seq<char>, ValueView>, name: Seq<char>)
    requires
        !cells.contains_key(name),
    ensures
        get_reply(cells, name) == ReplyView::Value(name, ValueView::Empty),
{
}

/// After a successful `set`, the cell holds exactly the value the evaluator
/// call returned, and the change is propagated from that cell.
pub proof fn lemma_set_then_get(
    cells: Map<Seq<char>, ValueView>,
    deps: Map<Seq<char>, DepView>,
    name: Seq<char>,
    expr: Seq<char>,
    v: ValueView,
)
    requires
        !contains_sub(expr, name),
        args_for(cells, variables_of(expr)) is Some,
    ensures
        ({
            let out = set_step(cells, deps, name, expr, v);
            cell_at(out.cells, name) == v && out.event == Some(name)
        }),
{
}

/// A `set` does not block on its fan-out: when the expression is not
/// self-referential and every range token resolves, the call changes the
/// target cell alone — no dependent is recomputed within it — records the
/// dependencies, and reports exactly one propagation event, the target, for
/// the worker to pick up later.
pub proof fn lemma_set_defers_propagation(
    cells: Map<Seq<char>, ValueView>,
    deps: Map<Seq<char>, DepView>,
    name: Seq<char>,
    expr: Seq<char>,
    v: ValueView,
)
    requires
        !contains_sub(expr, name),
        args_for(cells, variables_of(expr)) is Some,
    ensures
        ({
            let out = set_step(cells, deps, name, expr, v);
            &&& out.cells == cells.insert(name, v)
            &&& forall|other: Seq<char>|
                other != name ==> #[trigger] cell_at(out.cells, other) == cell_at(cells, other)
            &&& out.deps == record_dep(deps, name, expr, variables_of(expr))
            &&& out.event == Some(name)
        }),
{
}

/// An expression that textually contains its own cell name is rejected: the
/// cell is stamped with a self-reference error, the graph is untouched, and
/// no propagation is triggered, so no recursion can occur.
pub proof fn lemma_self_reference_rejected(
    cells: Map<Seq<char>, ValueView>,
    deps: Map<Seq<char>, DepView>,
    name: Seq<char>,
    expr: Seq<char>,
    v: ValueView,
)
    requires
        contains_sub(expr, name),
    ensures
        ({
            let out = set_step(cells, deps, name, expr, v);
            &&& cell_at(out.cells, name) == ValueView::Error("Cell is self-referential"@)
            &&& out.deps == deps
            &&& out.event is None
        }),
{
}

/// A `set` writes only its own target: every other cell keeps its value.
pub proof fn lemma_set_frame(
    cells: Map<Seq<char>, ValueView>,
    deps: Map<Seq<char>, DepView>,
    name: Seq<char>,
    expr: Seq<char>,
    v: ValueView,
    other: Seq<char>,
)
    requires
        other != name,
    ensures
        cell_at(set_step(cells, deps, name, expr, v).cells, other) == cell_at(cells, other),
{
}

/// Two `set`s to distinct cells lose neither update: after both, the first
/// target still holds the value its own `set` stored.
pub proof fn lemma_disjoint_sets_preserved(
    cells: Map<Seq<char>, ValueView>,
    deps: Map<Seq<char>, DepView>,
    n1: Seq<char>,
    e1: Seq<char>,
    v1: ValueView,
    n2: Seq<char>,
    e2: Seq<char>,
    v2: ValueView,
)
    requires
        n1 != n2,
    ensures
        ({
            let o1 = set_step(cells, deps, n1, e1, v1);
            let o2 = set_step(o1.cells, o1.deps, n2, e2, v2);
            cell_at(o2.cells, n1) == cell_at(o1.cells, n1)
        }),
{
    let o1 = set_step(cells, deps, n1, e1, v1);
    lemma_set_frame(o1.cells, o1.deps, n2, e2, v2, n1);
}

proof fn lemma_add_dependent_has(
    m: Map<Seq<char>, DepView>,
    var: Seq<char>,
    t: Seq<char>,
)
    ensures
        add_dependent(m, var, t).contains_key(var),
        add_dependent(m, var, t)[var].dependent_cells.contains(t),
{
    let rec = if m.contains_key(var) {
        m[var]
    } else {
        crate::graph::empty_record()
    };
    if !rec.dependent_cells.contains(t) {
        assert(rec.dependent_cells.push(t)[rec.dependent_cells.len() as int] == t);
    }
}

proof fn lemma_add_dependents_preserves(
    m: Map<Seq<char>, DepView>,
    vs: Seq<Seq<char>>,
    t: Seq<char>,
    w: Seq<char>,
)
    requires
        m.contains_key(w),
        m[w].dependent_cells.contains(t),
    ensures
        add_dependents(m, vs, t).contains_key(w),
        add_dependents(m, vs, t)[w].dependent_cells.contains(t),
    decreases vs.len(),
{
    if vs.len() > 0 {
        let m1 = add_dependent(m, vs[0], t);
        if vs[0] == w {
            lemma_add_dependent_has(m, w, t);
        }
        lemma_add_dependents_preserves(m1, vs.drop_first(), t, w);
    }
}

proof fn lemma_add_dependents_has(
    m: Map<Seq<char>, DepView>,
    vs: Seq<Seq<char>>,
    t: Seq<char>,
    w: Seq<char>,
)
    requires
        vs.contains(w),
    ensures
        add_dependents(m, vs, t).contains_key(w),
        add_dependents(m, vs, t)[w].dependent_cells.contains(t),
    decreases vs.len(),
{
    let m1 = add_dependent(m, vs[0], t);
    if vs[0] == w {
        lemma_add_dependent_has(m, w, t);
        lemma_add_dependents_preserves(m1, vs.drop_first(), t, w);
    } else {
        let i = choose|i: int| 0 <= i < vs.len() && vs[i] == w;
        assert(vs.drop_first()[i - 1] == w);
        lemma_add_dependents_has(m1, vs.drop_first(), t, w);
    }
}

proof fn lemma_add_dependents_noop(m: Map<Seq<char>, DepView>, vs: Seq<Seq<char>>, t: Seq<char>)
    requires
        forall|k: int|
            0 <= k < vs.len() ==> m.contains_key(#[trigger] vs[k])
                && m[vs[k]].dependent_cells.contains(t),
    ensures
        add_dependents(m, vs, t) == m,
    decreases vs.len(),
{
    if vs.len() > 0 {
        assert(m.contains_key(vs[0]) && m[vs[0]].dependent_cells.contains(t));
        assert(add_dependent(m, vs[0], t) =~= m);
        assert(forall|k: int|
            0 <= k < vs.drop_first().len() ==> m.contains_key(#[trigger] vs.drop_first()[k])
                && m[vs.drop_first()[k]].dependent_cells.contains(t));
        lemma_add_dependents_noop(m, vs.drop_first(), t);
    }
}

/// Recording the same definition twice leaves the graph exactly as one
/// recording left it: no dependent is accumulated twice.
pub proof fn lemma_record_dep_idempotent(
    deps: Map<Seq<char>, DepView>,
    t: Seq<char>,
    e: Seq<char>,
    vs: Seq<Seq<char>>,
)
    ensures
        record_dep(record_dep(deps, t, e, vs), t, e, vs) == record_dep(deps, t, e, vs),
{
    let first = record_dep(deps, t, e, vs);
    assert forall|k: int|
        0 <= k < vs.len() implies first.contains_key(#[trigger] vs[k])
            && first[vs[k]].dependent_cells.contains(t) by {
        assert(vs.contains(vs[k]));
        lemma_add_dependents_has(deps, vs, t, vs[k]);
    }
    lemma_add_dependents_noop(first, vs, t);
    assert(first.insert(t, first[t]) =~= first);
}

proof fn lemma_binding_some_independent(
    c1: Map<Seq<char>, ValueView>,
    c2: Map<Seq<char>, ValueView>,
    var: Seq<char>,
)
    ensures
        binding_of(c1, var) is Some <==> binding_of(c2, var) is Some,
{
}

/// Whether every range token of a list resolves depends only on the tokens'
/// spelling, never on the cells' current values.
pub proof fn lemma_args_for_some_independent(
    c1: Map<Seq<char>, ValueView>,
    c2: Map<Seq<char>, ValueView>,
    vars: Seq<Seq<char>>,
)
    ensures
        args_for(c1, vars) is Some <==> args_for(c2, vars) is Some,
    decreases vars.len(),
{
    if vars.len() > 0 {
        lemma_args_for_some_independent(c1, c2, vars.drop_last());
        lemma_binding_some_independent(c1, c2, vars.last());
    }
}

/// Repeating an identical `set` accumulates nothing: the dependency records
/// and the reported event are exactly those of the first `set`, and the
/// store is as if only the later `set` had written its value. (Whether the
/// two evaluations return the same value is not claimed: the evaluator can
/// read the clock.)
pub proof fn lemma_set_idempotent(
    cells: Map<Seq<char>, ValueView>,
    deps: Map<Seq<char>, DepView>,
    name: Seq<char>,
    expr: Seq<char>,
    v1: ValueView,
    v2: ValueView,
)
    ensures
        ({
            let o1 = set_step(cells, deps, name, expr, v1);
            let o2 = set_step(o1.cells, o1.deps, name, expr, v2);
            &&& o2.deps == o1.deps
            &&& o2.event == o1.event
            &&& o2.cells == set_step(cells, deps, name, expr, v2).cells
        }),
{
    let o1 = set_step(cells, deps, name, expr, v1);
    if contains_sub(expr, name) {
        assert(o1.cells.insert(name, ValueView::Error("Cell is self-referential"@)) =~= o1.cells);
    } else {
        let vars = variables_of(expr);
        lemma_args_for_some_independent(cells, o1.cells, vars);
        match args_for(cells, vars) {
            Some(_) => {
                lemma_record_dep_idempotent(deps, name, expr, vars);
                assert(o1.cells.insert(name, v2) =~= cells.insert(name, v2));
            },
            None => {
                assert(o1.cells.insert(name, ValueView::Error("Invalid cell address"@))
                    =~= o1.cells);
            },
        }
    }
}

/// A chain reaction converges in one pass: with dependent edges a -> b and
/// b -> c recorded, one propagation event at a walks exactly b then c, once
/// each, leaving a untouched; b's step commits its evaluator's value before
/// c's step runs against the updated store, and the final store holds both
/// committed values.
pub proof fn lemma_chain_propagation(
    cells: Map<Seq<char>, ValueView>,
    deps: Map<Seq<char>, DepView>,
    a: Seq<char>,
    b: Seq<char>,
    c: Seq<char>,
    vals: Seq<ValueView>,
)
    requires
        a != b && a != c && b != c,
        deps.dom().finite(),
        deps.contains_key(a) && deps[a].dependent_cells == seq![b],
        deps.contains_key(b) && deps[b].dependent_cells == seq![c],
        deps[b].included_variables == seq![a] && !has_underscore(a),
        deps.contains_key(c) && deps[c].dependent_cells == Seq::<Seq<char>>::empty(),
        deps[c].included_variables == seq![b] && !has_underscore(b),
        vals.len() == 2,
    ensures
        ({
            let order = propagation_of(deps, a);
            let after = recompute_seq(cells, deps, order, vals);
            &&& order == seq![b, c]
            &&& after == cells.insert(b, vals[0]).insert(c, vals[1])
            &&& cell_at(after, a) == cell_at(cells, a)
            &&& cell_at(after, b) == vals[0]
            &&& cell_at(after, c) == vals[1]
        }),
{
    let va = Set::<Seq<char>>::empty().insert(a);
    let vab = va.insert(b);
    let vabc = vab.insert(c);
    // The walk visits b, then c, then stops.
    assert(seq![b].drop_first() =~= Seq::<Seq<char>>::empty());
    assert(seq![c].drop_first() =~= Seq::<Seq<char>>::empty());
    assert(sift(Seq::<Seq<char>>::empty(), va.insert(b), deps) == (
        Seq::<Seq<char>>::empty(),
        Seq::<Seq<char>>::empty(),
    ));
    assert(sift(Seq::<Seq<char>>::empty(), vab.insert(c), deps) == (
        Seq::<Seq<char>>::empty(),
        Seq::<Seq<char>>::empty(),
    ));
    assert(seq![b] + Seq::<Seq<char>>::empty() =~= seq![b]);
    assert(seq![c] + Seq::<Seq<char>>::empty() =~= seq![c]);
    assert(sift(seq![b], va, deps) == (seq![b], seq![b]));
    assert(sift(seq![c], vab, deps) == (seq![c], seq![c]));
    assert(seq![b].to_set() =~= Set::<Seq<char>>::empty().insert(b));
    assert(seq![c].to_set() =~= Set::<Seq<char>>::empty().insert(c));
    assert(va.union(seq![b].to_set()) =~= vab);
    assert(vab.union(seq![c].to_set()) =~= vabc);
    let q1 = seq![a].drop_first() + seq![b];
    let q2 = q1.drop_first() + seq![c];
    let q3 = q2.drop_first() + Seq::<Seq<char>>::empty();
    assert(q1 =~= seq![b]);
    assert(q2 =~= seq![c]);
    assert(q3 =~= Seq::<Seq<char>>::empty());
    assert(vabc.union(Seq::<Seq<char>>::empty().to_set()) =~= vabc);
    assert(bfs(deps, q3, vabc.union(Seq::<Seq<char>>::empty().to_set()))
        == Seq::<Seq<char>>::empty());
    assert(bfs(deps, q2, vabc) == Seq::<Seq<char>>::empty() + bfs(
        deps,
        q3,
        vabc.union(Seq::<Seq<char>>::empty().to_set()),
    ));
    assert(bfs(deps, q1, vab) == seq![c] + bfs(deps, q2, vabc));
    assert(bfs(deps, seq![a], va) == seq![b] + bfs(deps, q1, vab));
    let order = propagation_of(deps, a);
    assert(order =~= seq![b, c]);
    // The two recomputations, each against the store as it then stands.
    assert(seq![a].drop_last() =~= Seq::<Seq<char>>::empty());
    assert(args_for(cells, Seq::<Seq<char>>::empty()) == Some(Seq::<ArgView>::empty()));
    assert(args_for(cells, seq![a]) is Some);
    let c1 = recompute_one(cells, deps, b, vals[0]);
    assert(c1 == cells.insert(b, vals[0]));
    assert(seq![b].drop_last() =~= Seq::<Seq<char>>::empty());
    assert(args_for(c1, Seq::<Seq<char>>::empty()) == Some(Seq::<ArgView>::empty()));
    assert(args_for(c1, seq![b]) is Some);
    let c2 = recompute_one(c1, deps, c, vals[1]);
    assert(c2 == c1.insert(c, vals[1]));
    assert(order.drop_first() =~= seq![c]);
    assert(seq![c].drop_first() =~= Seq::<Seq<char>>::empty());
    assert(vals.drop_first()[0] == vals[1]);
    assert(recompute_seq(c2, deps, Seq::<Seq<char>>::empty(), vals.drop_first().drop_first())
        == c2);
    assert(recompute_seq(c1, deps, seq![c], vals.drop_first()) == c2);
    assert(recompute_seq(cells, deps, order, vals) == c2);
}

} // verus!
