//! The dependency graph: per cell, its defining expression, the variables it
//! references, and the cells that reference it. Both directions are kept
//! together: recording a definition updates the cell's own record and every
//! referenced variable's dependent list atomically.

use vstd::prelude::*;
use crate::store::{clone_names, contains_name};
use crate::table::Table;

verus! {

/// One cell's dependency record.
#[derive(Debug)]
pub struct CellDependency {
    expression: String,
    dependent_cells: Vec<String>,
    included_variables: Vec<String>,
}

/// Mathematical view of a [`CellDependency`]. `dependent_cells` holds no
/// duplicates and keeps first-insertion order.
#[verifier::ext_equal]
pub struct DepView {
    pub expression: Seq<char>,
    pub dependent_cells: Seq<Seq<char>>,
    pub included_variables: Seq<Seq<char>>,
}

impl View for CellDependency {
    type V = DepView;

    closed spec fn view(&self) -> DepView {
        DepView {
            expression: self.expression@,
            dependent_cells: self.dependent_cells.deep_view(),
            included_variables: self.included_variables.deep_view(),
        }
    }
}

impl CellDependency {
    /// The cell's defining expression text.
    pub fn expression(&self) -> (r: &String)
        ensures
            r@ == self@.expression,
    {
        &self.expression
    }

    /// The cells that reference this cell.
    pub fn dependent_cells(&self) -> (r: &Vec<String>)
        ensures
            r.deep_view() == self@.dependent_cells,
    {
        &self.dependent_cells
    }

    /// The variables this cell's expression references.
    pub fn included_variables(&self) -> (r: &Vec<String>)
        ensures
            r.deep_view() == self@.included_variables,
    {
        &self.included_variables
    }
}

/// The shared dependency graph.
pub type DependencyGraph = Table<CellDependency>;

/// The record of a cell that was only ever referenced, never defined.
pub open spec fn empty_record() -> DepView {
    DepView {
        expression: Seq::empty(),
        dependent_cells: Seq::empty(),
        included_variables: Seq::empty(),
    }
}

/// Adds `target` to `var`'s dependent list, creating the record if needed and
/// leaving the list unchanged if `target` is already on it.
pub open spec fn add_dependent(
    deps: Map<Seq<char>, DepView>,
    var: Seq<char>,
    target: Seq<char>,
) -> Map<Seq<char>, DepView> {
    let rec = if deps.contains_key(var) {
        deps[var]
    } else {
        empty_record()
    };
    let rec2 = if rec.dependent_cells.contains(target) {
        rec
    } else {
        DepView {
            expression: rec.expression,
            dependent_cells: rec.dependent_cells.push(target),
            included_variables: rec.included_variables,
        }
    };
    deps.insert(var, rec2)
}

/// Adds `target` to every listed variable's dependent list, left to right.
pub open spec fn add_dependents(
    deps: Map<Seq<char>, DepView>,
    vars: Seq<Seq<char>>,
    target: Seq<char>,
) -> Map<Seq<char>, DepView>
    decreases vars.len(),
{
    if vars.len() == 0 {
        deps
    } else {
        add_dependents(add_dependent(deps, vars[0], target), vars.drop_first(), target)
    }
}

/// The whole recording step: every referenced variable gains `target` as a
/// dependent, then `target`'s own expression and variable list are replaced
/// while its existing dependent list is preserved.
pub open spec fn record_dep(
    deps: Map<Seq<char>, DepView>,
    target: Seq<char>,
    expr: Seq<char>,
    vars: Seq<Seq<char>>,
) -> Map<Seq<char>, DepView> {
    let d1 = add_dependents(deps, vars, target);
    let kept = if d1.contains_key(target) {
        d1[target].dependent_cells
    } else {
        Seq::empty()
    };
    d1.insert(
        target,
        DepView { expression: expr, dependent_cells: kept, included_variables: vars },
    )
}

/// The direct dependents recorded for `n`; none for an absent record.
pub open spec fn dependents_in(deps: Map<Seq<char>, DepView>, n: Seq<char>) -> Seq<Seq<char>> {
    if deps.contains_key(n) {
        deps[n].dependent_cells
    } else {
        Seq::empty()
    }
}

/// Records that `target` is defined by `expr` over `vars`, as [`record_dep`]
/// says.
pub fn record_dependency(
    deps: &mut DependencyGraph,
    target: &String,
    expr: String,
    vars: &Vec<String>,
)
    requires
        old(deps).wf(),
    ensures
        final(deps).wf(),
        final(deps)@ == record_dep(old(deps)@, target@, expr@, vars.deep_view()),
{
    let ghost goal = add_dependents(old(deps)@, vars.deep_view(), target@);
    let mut i: usize = 0;
    proof {
        assert(vars.deep_view().skip(0) =~= vars.deep_view());
    }
    while i < vars.len()
        invariant
            i <= vars.len(),
            deps.wf(),
            add_dependents(deps@, vars.deep_view().skip(i as int), target@) == goal,
        decreases vars.len() - i,
    {
        let ghost varw = vars.deep_view()[i as int];
        let ghost pre = deps@;
        let ghost rec0 = if pre.contains_key(varw) {
            pre[varw]
        } else {
            empty_record()
        };
        let mut rec = match deps.remove_entry(vars[i].as_str()) {
            Some(r) => r,
            None => CellDependency {
                expression: String::new(),
                dependent_cells: Vec::new(),
                included_variables: Vec::new(),
            },
        };
        proof {
            assert(rec@ =~~= rec0);
        }
        if !contains_name(&rec.dependent_cells, target.as_str()) {
            let ghost dpre = rec.dependent_cells.deep_view();
            rec.dependent_cells.push(target.clone());
            proof {
                assert(rec.dependent_cells.deep_view() =~~= dpre.push(target@));
                assert(rec@ =~~= DepView {
                    expression: rec0.expression,
                    dependent_cells: rec0.dependent_cells.push(target@),
                    included_variables: rec0.included_variables,
                });
            }
        }
        deps.set(vars[i].clone(), rec);
        proof {
            assert(deps@ =~~= add_dependent(pre, varw, target@));
            assert(vars.deep_view().skip(i as int).drop_first() =~= vars.deep_view().skip(i + 1));
            assert(vars.deep_view().skip(i as int)[0] == varw);
        }
        i += 1;
    }
    proof {
        assert(vars.deep_view().skip(vars.len() as int).len() == 0);
        assert(deps@ == goal);
    }
    let ghost keptw = if goal.contains_key(target@) {
        goal[target@].dependent_cells
    } else {
        Seq::<Seq<char>>::empty()
    };
    let kept = match deps.remove_entry(target.as_str()) {
        Some(r) => r.dependent_cells,
        None => Vec::new(),
    };
    proof {
        assert(kept.deep_view() =~~= keptw);
    }
    deps.set(
        target.clone(),
        CellDependency {
            expression: expr,
            dependent_cells: kept,
            included_variables: clone_names(vars),
        },
    );
    proof {
        assert(deps@ =~~= record_dep(old(deps)@, target@, expr@, vars.deep_view()));
    }
}

/// A copy of the direct dependents of `name`.
pub fn dependents_of(deps: &DependencyGraph, name: &str) -> (r: Vec<String>)
    requires
        deps.wf(),
    ensures
        r.deep_view() == dependents_in(deps@, name@),
{
    match deps.get(name) {
        Some(rec) => clone_names(rec.dependent_cells()),
        None => {
            let r: Vec<String> = Vec::new();
            proof {
                assert(r.deep_view() =~= Seq::<Seq<char>>::empty());
            }
            r
        },
    }
}

} // verus!
