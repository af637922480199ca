//! The recompute worker's logic: from an origin cell, walk every transitive
//! dependent exactly once, breadth-first in recorded order, and recompute each
//! against the store as it stands when its turn comes. The walk is bounded by
//! a visited set, so a cyclic graph terminates instead of recursing without
//! end; a dependent already walked is not walked again.

use vstd::prelude::*;
use vstd::set_lib::lemma_len_subset;
use crate::engine::{args_for, build_args};
use crate::evaluator::evaluate;
use crate::graph::{DepView, DependencyGraph, dependents_in, dependents_of};
use crate::store::CellStore;
use crate::values::{Value, ValueView};

verus! {

/// One cell's recomputation, given the value `v` its evaluator call
/// returned: its bindings are rebuilt from the current store, the expression
/// re-evaluated, and `v` stored. A cell without a record is left alone; a
/// malformed range stamps an address error, just as a `set` of it would.
pub open spec fn recompute_one(
    cells: Map<Seq<char>, ValueView>,
    deps: Map<Seq<char>, DepView>,
    d: Seq<char>,
    v: ValueView,
) -> Map<Seq<char>, ValueView> {
    if deps.contains_key(d) {
        let rec = deps[d];
        match args_for(cells, rec.included_variables) {
            Some(args) => cells.insert(d, v),
            None => cells.insert(d, ValueView::Error("Invalid cell address"@)),
        }
    } else {
        cells
    }
}

/// Recomputations applied in order, each against the store the previous
/// left, `vals` giving what each cell's evaluator call returned.
pub open spec fn recompute_seq(
    cells: Map<Seq<char>, ValueView>,
    deps: Map<Seq<char>, DepView>,
    order: Seq<Seq<char>>,
    vals: Seq<ValueView>,
) -> Map<Seq<char>, ValueView>
    decreases order.len(),
{
    if order.len() == 0 {
        cells
    } else {
        recompute_seq(
            recompute_one(cells, deps, order[0], vals[0]),
            deps,
            order.drop_first(),
            vals.drop_first(),
        )
    }
}

proof fn lemma_recompute_snoc(
    cells: Map<Seq<char>, ValueView>,
    deps: Map<Seq<char>, DepView>,
    order: Seq<Seq<char>>,
    vals: Seq<ValueView>,
    d: Seq<char>,
    v: ValueView,
)
    requires
        vals.len() == order.len(),
    ensures
        recompute_seq(cells, deps, order.push(d), vals.push(v)) == recompute_one(
            recompute_seq(cells, deps, order, vals),
            deps,
            d,
            v,
        ),
    decreases order.len(),
{
    if order.len() == 0 {
        assert(order.push(d)[0] == d);
        assert(vals.push(v)[0] == v);
        assert(order.push(d).drop_first() =~= order);
        assert(vals.push(v).drop_first() =~= vals);
        assert(recompute_seq(recompute_one(cells, deps, d, v), deps, order, vals)
            == recompute_one(cells, deps, d, v));
    } else {
        assert(order.push(d)[0] == order[0]);
        assert(vals.push(v)[0] == vals[0]);
        assert(order.push(d).drop_first() =~= order.drop_first().push(d));
        assert(vals.push(v).drop_first() =~= vals.drop_first().push(v));
        lemma_recompute_snoc(
            recompute_one(cells, deps, order[0], vals[0]),
            deps,
            order.drop_first(),
            vals.drop_first(),
            d,
            v,
        );
        assert(recompute_seq(cells, deps, order, vals) == recompute_seq(
            recompute_one(cells, deps, order[0], vals[0]),
            deps,
            order.drop_first(),
            vals.drop_first(),
        ));
    }
}

/// Walks a dependent list against a visited set. The first component is the
/// fresh names in list order, each at most once; the second keeps those of
/// them that have graph records, the only ones that can have dependents of
/// their own.
pub open spec fn sift(
    list: Seq<Seq<char>>,
    visited: Set<Seq<char>>,
    deps: Map<Seq<char>, DepView>,
) -> (Seq<Seq<char>>, Seq<Seq<char>>)
    decreases list.len(),
{
    if list.len() == 0 {
        (Seq::empty(), Seq::empty())
    } else {
        let d = list[0];
        if visited.contains(d) {
            sift(list.drop_first(), visited, deps)
        } else {
            let rest = sift(list.drop_first(), visited.insert(d), deps);
            if deps.contains_key(d) {
                (seq![d] + rest.0, seq![d] + rest.1)
            } else {
                (seq![d] + rest.0, rest.1)
            }
        }
    }
}

pub proof fn lemma_sift_props(
    list: Seq<Seq<char>>,
    visited: Set<Seq<char>>,
    deps: Map<Seq<char>, DepView>,
)
    ensures
        ({
            let em = sift(list, visited, deps).0;
            let en = sift(list, visited, deps).1;
            &&& forall|k: int| 0 <= k < em.len() ==> !visited.contains(#[trigger] em[k])
            &&& (en.len() > 0 ==> deps.dom().contains(en[0]) && !visited.contains(en[0])
                && em.contains(en[0]))
            &&& (en.len() == 0 ==> forall|k: int|
                0 <= k < em.len() ==> !deps.dom().contains(#[trigger] em[k]))
        }),
    decreases list.len(),
{
    if list.len() > 0 {
        let d = list[0];
        if visited.contains(d) {
            lemma_sift_props(list.drop_first(), visited, deps);
        } else {
            lemma_sift_props(list.drop_first(), visited.insert(d), deps);
            let em1 = sift(list.drop_first(), visited.insert(d), deps).0;
            let en1 = sift(list.drop_first(), visited.insert(d), deps).1;
            let em = sift(list, visited, deps).0;
            let en = sift(list, visited, deps).1;
            assert(em == seq![d] + em1);
            assert forall|k: int| 0 <= k < em.len() implies !visited.contains(em[k]) by {
                if k == 0 {
                    assert(em[0] == d);
                } else {
                    assert(em[k] == em1[k - 1]);
                }
            }
            if deps.contains_key(d) {
                assert(en == seq![d] + en1);
                assert(em[0] == d && en[0] == d);
                assert(em.contains(en[0]));
            } else {
                assert(en == en1);
                if en1.len() > 0 {
                    let k = choose|k: int| 0 <= k < em1.len() && em1[k] == en1[0];
                    assert(em[k + 1] == en1[0]);
                    assert(em.contains(en[0]));
                } else {
                    assert forall|k: int| 0 <= k < em.len() implies !deps.dom().contains(
                        em[k],
                    ) by {
                        if k == 0 {
                        } else {
                            assert(em[k] == em1[k - 1]);
                        }
                    }
                }
            }
        }
    }
}

proof fn lemma_push_to_set(s: Seq<Seq<char>>, x: Seq<char>)
    ensures
        s.push(x).to_set() == s.to_set().insert(x),
{
    assert forall|y: Seq<char>|
        s.push(x).to_set().contains(y) implies s.to_set().insert(x).contains(y) by {
        let i = choose|i: int| 0 <= i < s.push(x).len() && s.push(x)[i] == y;
        if i < s.len() {
            assert(s[i] == y);
        }
    }
    assert forall|y: Seq<char>|
        s.to_set().insert(x).contains(y) implies s.push(x).to_set().contains(y) by {
        if y == x {
            assert(s.push(x)[s.len() as int] == y);
        } else {
            let i = choose|i: int| 0 <= i < s.len() && s[i] == y;
            assert(s.push(x)[i] == y);
        }
    }
    assert(s.push(x).to_set() =~= s.to_set().insert(x));
}

proof fn lemma_empty_to_set()
    ensures
        Seq::<Seq<char>>::empty().to_set() == Set::<Seq<char>>::empty(),
{
    assert(Seq::<Seq<char>>::empty().to_set() =~= Set::<Seq<char>>::empty());
}

/// The names the walk yields from a queue of pending cells: the fresh direct
/// dependents of the head, then the walk continued with the recorded ones of
/// them appended to the queue. Breadth-first, each cell at most once.
pub open spec fn bfs(
    deps: Map<Seq<char>, DepView>,
    queue: Seq<Seq<char>>,
    visited: Set<Seq<char>>,
) -> Seq<Seq<char>>
    decreases deps.dom().difference(visited).len(), queue.len(),
    when deps.dom().finite()
{
    if queue.len() == 0 {
        Seq::empty()
    } else {
        let sifted = sift(dependents_in(deps, queue[0]), visited, deps);
        proof {
            lemma_sift_props(dependents_in(deps, queue[0]), visited, deps);
            let em = sifted.0;
            let en = sifted.1;
            let d1 = deps.dom().difference(visited);
            let d2 = deps.dom().difference(visited.union(em.to_set()));
            lemma_len_subset(d1, deps.dom());
            assert(d2.subset_of(d1));
            if en.len() > 0 {
                let x = en[0];
                assert(em.to_set().contains(x));
                assert(d1.contains(x) && !d2.contains(x));
                d2.lemma_subset_not_in_lt(d1, x);
            } else {
                assert forall|x: Seq<char>| d1.contains(x) implies d2.contains(x) by {
                    if em.to_set().contains(x) {
                        let k = choose|k: int| 0 <= k < em.len() && em[k] == x;
                        assert(!deps.dom().contains(em[k]));
                    }
                }
                assert(d2 =~= d1);
            }
        }
        sifted.0 + bfs(deps, queue.drop_first() + sifted.1, visited.union(sifted.0.to_set()))
    }
}

/// Everything one propagation event recomputes, in order: the breadth-first
/// walk of the dependent edges from the origin. The origin itself is never
/// recomputed.
pub open spec fn propagation_of(deps: Map<Seq<char>, DepView>, origin: Seq<char>) -> Seq<
    Seq<char>,
> {
    bfs(deps, seq![origin], Set::empty().insert(origin))
}

/// Collects [`propagation_of`] executably: the order in which the event's
/// transitive dependents are recomputed.
pub fn propagation_order(deps: &DependencyGraph, origin: &String) -> (r: Vec<String>)
    requires
        deps.wf(),
    ensures
        r.deep_view() == propagation_of(deps@, origin@),
{
    proof {
        deps.lemma_dom_finite();
    }
    let mut out: Vec<String> = Vec::new();
    let mut queue: Vec<String> = Vec::new();
    let mut visited: Vec<String> = Vec::new();
    queue.push(origin.clone());
    visited.push(origin.clone());
    let mut qi: usize = 0;
    proof {
        lemma_empty_to_set();
        assert(visited.deep_view() =~= Seq::<Seq<char>>::empty().push(origin@));
        lemma_push_to_set(Seq::<Seq<char>>::empty(), origin@);
        assert(visited.deep_view().to_set() =~= Set::empty().insert(origin@));
        assert(queue.deep_view() =~= seq![origin@]);
        assert(out.deep_view() =~= Seq::<Seq<char>>::empty());
        assert(queue.deep_view().skip(0) =~= queue.deep_view());
    }
    while qi < queue.len()
        invariant
            deps.wf(),
            deps@.dom().finite(),
            qi <= queue@.len(),
            out.deep_view() + bfs(
                deps@,
                queue.deep_view().skip(qi as int),
                visited.deep_view().to_set(),
            ) == propagation_of(deps@, origin@),
        decreases deps@.dom().difference(visited.deep_view().to_set()).len(), queue@.len() - qi,
    {
        let ghost vset0 = visited.deep_view().to_set();
        let ghost q0 = queue.deep_view();
        let ghost out0 = out.deep_view();
        let n = queue[qi].clone();
        let list = dependents_of(deps, n.as_str());
        let ghost listw = list.deep_view();
        let ghost sifted = sift(listw, vset0, deps@);
        proof {
            lemma_sift_props(listw, vset0, deps@);
            assert(q0.skip(qi as int)[0] == n@);
            assert(q0.skip(qi as int).drop_first() =~= q0.skip(qi + 1));
            assert(bfs(deps@, q0.skip(qi as int), vset0) == sifted.0 + bfs(
                deps@,
                q0.skip(qi + 1) + sifted.1,
                vset0.union(sifted.0.to_set()),
            ));
            assert(listw.skip(0) =~= listw);
            assert(out.deep_view().skip(out0.len() as int) =~= Seq::<Seq<char>>::empty());
            assert(queue.deep_view().skip(q0.len() as int) =~= Seq::<Seq<char>>::empty());
            lemma_empty_to_set();
            assert(vset0.union(Seq::<Seq<char>>::empty().to_set()) =~= vset0);
        }
        let mut j: usize = 0;
        while j < list.len()
            invariant
                deps.wf(),
                deps@.dom().finite(),
                j <= list@.len(),
                listw == list.deep_view(),
                out0.len() <= out.deep_view().len(),
                q0.len() <= queue.deep_view().len(),
                out.deep_view().take(out0.len() as int) == out0,
                queue.deep_view().take(q0.len() as int) == q0,
                visited.deep_view().to_set() == vset0.union(
                    out.deep_view().skip(out0.len() as int).to_set(),
                ),
                sifted == sift(listw, vset0, deps@),
                sifted.0 == out.deep_view().skip(out0.len() as int) + sift(
                    listw.skip(j as int),
                    visited.deep_view().to_set(),
                    deps@,
                ).0,
                sifted.1 == queue.deep_view().skip(q0.len() as int) + sift(
                    listw.skip(j as int),
                    visited.deep_view().to_set(),
                    deps@,
                ).1,
            decreases list@.len() - j,
        {
            let ghost vcur = visited.deep_view().to_set();
            let ghost outpre = out.deep_view();
            let ghost qpre = queue.deep_view();
            let ghost vpre = visited.deep_view();
            let d = list[j].clone();
            proof {
                assert(listw.skip(j as int)[0] == d@);
                assert(listw.skip(j as int).drop_first() =~= listw.skip(j + 1));
            }
            if !crate::store::contains_name(&visited, d.as_str()) {
                proof {
                    assert(!vcur.contains(d@));
                }
                out.push(d.clone());
                visited.push(d.clone());
                let enqueue = deps.get(d.as_str()).is_some();
                if enqueue {
                    queue.push(d.clone());
                }
                proof {
                    assert(out.deep_view() =~= outpre.push(d@));
                    assert(visited.deep_view() =~= vpre.push(d@));
                    lemma_push_to_set(vpre, d@);
                    assert(visited.deep_view().to_set() == vpre.to_set().insert(d@));
                    assert(visited.deep_view().to_set() =~= vcur.insert(d@));
                    lemma_push_to_set(outpre.skip(out0.len() as int), d@);
                    assert(out.deep_view().take(out0.len() as int) =~= out0);
                    assert(out.deep_view().skip(out0.len() as int) =~= outpre.skip(
                        out0.len() as int,
                    ).push(d@));
                    assert(visited.deep_view().to_set() =~= vset0.union(
                        out.deep_view().skip(out0.len() as int).to_set(),
                    ));
                    if enqueue {
                        assert(queue.deep_view() =~= qpre.push(d@));
                        assert(queue.deep_view().take(q0.len() as int) =~= q0);
                        assert(queue.deep_view().skip(q0.len() as int) =~= qpre.skip(
                            q0.len() as int,
                        ).push(d@));
                    }
                    assert(outpre.skip(out0.len() as int).push(d@) + sift(
                        listw.skip(j + 1),
                        vcur.insert(d@),
                        deps@,
                    ).0 =~= outpre.skip(out0.len() as int) + (seq![d@] + sift(
                        listw.skip(j + 1),
                        vcur.insert(d@),
                        deps@,
                    ).0));
                    if enqueue {
                        assert(qpre.skip(q0.len() as int).push(d@) + sift(
                            listw.skip(j + 1),
                            vcur.insert(d@),
                            deps@,
                        ).1 =~= qpre.skip(q0.len() as int) + (seq![d@] + sift(
                            listw.skip(j + 1),
                            vcur.insert(d@),
                            deps@,
                        ).1));
                    }
                }
            } else {
                proof {
                    assert(vcur.contains(d@));
                }
            }
            j += 1;
        }
        proof {
            assert(listw.skip(list@.len() as int).len() == 0);
            let em = out.deep_view().skip(out0.len() as int);
            let en = queue.deep_view().skip(q0.len() as int);
            assert(sifted.0 =~= em + Seq::<Seq<char>>::empty());
            assert(sifted.0 =~= em);
            assert(sifted.1 =~= en);
            assert(out.deep_view() =~= out0 + sifted.0);
            assert(queue.deep_view() =~= q0 + sifted.1);
            assert(queue.deep_view().skip(qi + 1) =~= q0.skip(qi + 1) + sifted.1);
            assert(visited.deep_view().to_set() == vset0.union(sifted.0.to_set()));
            assert(out.deep_view() + bfs(
                deps@,
                queue.deep_view().skip(qi + 1),
                visited.deep_view().to_set(),
            ) == propagation_of(deps@, origin@));
            // The measure: either a fresh recorded cell was visited, or the
            // queue alone shrank.
            let d1 = deps@.dom().difference(vset0);
            let d2 = deps@.dom().difference(visited.deep_view().to_set());
            lemma_len_subset(d1, deps@.dom());
            assert(d2.subset_of(d1));
            if sifted.1.len() > 0 {
                let x = sifted.1[0];
                assert(sifted.0.to_set().contains(x));
                assert(d1.contains(x) && !d2.contains(x));
                d2.lemma_subset_not_in_lt(d1, x);
            } else {
                assert forall|x: Seq<char>| d1.contains(x) implies d2.contains(x) by {
                    if sifted.0.to_set().contains(x) {
                        let k = choose|k: int| 0 <= k < sifted.0.len() && sifted.0[k] == x;
                        assert(!deps@.dom().contains(sifted.0[k]));
                    }
                }
                assert(d2 =~= d1);
                assert(queue.deep_view() =~= q0);
            }
        }
        qi += 1;
    }
    proof {
        assert(queue.deep_view().skip(qi as int).len() == 0);
        assert(out.deep_view() + bfs(
            deps@,
            queue.deep_view().skip(qi as int),
            visited.deep_view().to_set(),
        ) =~= out.deep_view());
    }
    out
}

/// Applies the recomputations in order: the final store is
/// [`recompute_seq`] over the values the evaluator calls returned.
pub fn recompute_all(cells: &mut CellStore, deps: &DependencyGraph, order: &Vec<String>)
    requires
        old(cells).wf(),
        deps.wf(),
    ensures
        final(cells).wf(),
        exists|vals: Seq<ValueView>|
            vals.len() == order.deep_view().len() && final(cells)@ == recompute_seq(
                old(cells)@,
                deps@,
                order.deep_view(),
                vals,
            ),
{
    let mut k: usize = 0;
    let ghost mut vals = Seq::<ValueView>::empty();
    proof {
        assert(order.deep_view().take(0) =~= Seq::<Seq<char>>::empty());
    }
    while k < order.len()
        invariant
            cells.wf(),
            deps.wf(),
            k <= order@.len(),
            vals.len() == k,
            cells@ == recompute_seq(old(cells)@, deps@, order.deep_view().take(k as int), vals),
        decreases order@.len() - k,
    {
        let ghost pre = cells@;
        let ghost step = order.deep_view()[k as int];
        match deps.get(order[k].as_str()) {
            None => {
                proof {
                    assert(recompute_one(pre, deps@, step, ValueView::Empty) == pre);
                    lemma_recompute_snoc(old(cells)@, deps@, order.deep_view().take(k as int), vals, step, ValueView::Empty);
                    vals = vals.push(ValueView::Empty);
                }
            },
            Some(rec) => {
                match build_args(cells, rec.included_variables()) {
                    Some(args) => {
                        let v = evaluate(rec.expression().as_str(), rec.included_variables(), &args);
                        let ghost vw = v@;
                        cells.set(order[k].clone(), v);
                        proof {
                            assert(cells@ == recompute_one(pre, deps@, step, vw));
                            lemma_recompute_snoc(old(cells)@, deps@, order.deep_view().take(k as int), vals, step, vw);
                            vals = vals.push(vw);
                        }
                    },
                    None => {
                        cells.set(order[k].clone(), Value::Error("Invalid cell address".to_owned()));
                        proof {
                            assert(cells@ == recompute_one(pre, deps@, step, ValueView::Empty));
                            lemma_recompute_snoc(old(cells)@, deps@, order.deep_view().take(k as int), vals, step, ValueView::Empty);
                            vals = vals.push(ValueView::Empty);
                        }
                    },
                }
            },
        }
        proof {
            assert(order.deep_view().take(k + 1) =~= order.deep_view().take(k as int).push(step));
        }
        k += 1;
    }
    proof {
        assert(order.deep_view().take(order@.len() as int) =~= order.deep_view());
    }
}

/// The recompute worker's whole reaction to one propagation event: walk the
/// transitive dependents of `origin` exactly once each, breadth-first, and
/// recompute each against the store as it stands when its turn comes. The
/// graph itself is read, never changed; the values are whatever the
/// evaluator calls returned, one per walked cell.
pub fn multiple_dependency(cells: &mut CellStore, deps: &DependencyGraph, origin: &String)
    requires
        old(cells).wf(),
        deps.wf(),
    ensures
        final(cells).wf(),
        exists|vals: Seq<ValueView>|
            vals.len() == propagation_of(deps@, origin@).len() && final(cells)@ == recompute_seq(
                old(cells)@,
                deps@,
                propagation_of(deps@, origin@),
                vals,
            ),
{
    let order = propagation_order(deps, origin);
    recompute_all(cells, deps, &order);
}

} // verus!
