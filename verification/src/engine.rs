//! The command handler: one protocol message against the shared state.
//! `get` reads the committed value and never waits on propagation; `set`
//! rejects direct self-reference, binds the expression's variables, evaluates,
//! stores the result, records the dependencies, and reports the cell whose
//! change must be propagated. `set` never replies; its failures are stored as
//! ordinary `Error` values and surface only through a later `get`.

use vstd::prelude::*;
use crate::evaluator::{evaluate, find_variables, variables_of};
use crate::graph::{DepView, DependencyGraph, record_dep, record_dependency};
use crate::resolver::{parse_variable, range_arg};
use crate::store::{CellStore, cell_at, read_cell};
use crate::text::{contains_str, contains_sub, has_underscore, has_underscore_str, join_from, join_sp, split_ws, str_eq, tokenize};
use crate::values::{ArgView, Argument, Value, Reply, ReplyView, ValueView};

verus! {

/// The reply to `get <name>`: an Error-valued cell answers with its error
/// text; any other cell, set or not, answers with its value.
pub open spec fn get_reply(cells: Map<Seq<char>, ValueView>, name: Seq<char>) -> ReplyView {
    match cell_at(cells, name) {
        ValueView::Error(e) => ReplyView::Error(e),
        v => ReplyView::Value(name, v),
    }
}

/// The evaluator argument one token denotes: a token with an underscore
/// resolves as a range; a plain token reads the named cell, absent cells
/// reading as `Empty`. `None` marks a malformed range address.
pub open spec fn binding_of(cells: Map<Seq<char>, ValueView>, var: Seq<char>) -> Option<ArgView> {
    if has_underscore(var) {
        range_arg(cells, var)
    } else {
        Some(ArgView::Value(cell_at(cells, var)))
    }
}

/// The arguments for all tokens in order, or `None` if any is malformed.
pub open spec fn args_for(cells: Map<Seq<char>, ValueView>, vars: Seq<Seq<char>>) -> Option<
    Seq<ArgView>,
>
    decreases vars.len(),
{
    if vars.len() == 0 {
        Some(Seq::empty())
    } else {
        match (args_for(cells, vars.drop_last()), binding_of(cells, vars.last())) {
            (Some(firsts), Some(a)) => Some(firsts.push(a)),
            _ => None,
        }
    }
}

proof fn lemma_args_for_none(cells: Map<Seq<char>, ValueView>, vars: Seq<Seq<char>>, i: int)
    requires
        0 <= i < vars.len(),
        binding_of(cells, vars[i]) is None,
    ensures
        args_for(cells, vars) is None,
    decreases vars.len(),
{
    if i < vars.len() - 1 {
        lemma_args_for_none(cells, vars.drop_last(), i);
    }
}

/// What one `set` leaves behind: the new cell store, the new dependency
/// graph, and the cell whose change is to be propagated, if any.
#[verifier::ext_equal]
pub struct SetOutcome {
    pub cells: Map<Seq<char>, ValueView>,
    pub deps: Map<Seq<char>, DepView>,
    pub event: Option<Seq<char>>,
}

/// The transition `set <name> <expr>` makes, given the value `v` that the
/// evaluator call returned (the evaluator can read the clock, so `v` is a
/// parameter of the transition, not a function of its inputs). An expression
/// whose text contains its own cell name stamps the cell with a
/// self-reference error and stops; a malformed range address stamps an
/// address error and stops; any other expression has `v` stored, the
/// dependency graph updated, and the change propagated.
pub open spec fn set_step(
    cells: Map<Seq<char>, ValueView>,
    deps: Map<Seq<char>, DepView>,
    name: Seq<char>,
    expr: Seq<char>,
    v: ValueView,
) -> SetOutcome {
    if contains_sub(expr, name) {
        SetOutcome {
            cells: cells.insert(name, ValueView::Error("Cell is self-referential"@)),
            deps,
            event: None,
        }
    } else {
        let vars = variables_of(expr);
        match args_for(cells, vars) {
            Some(args) => SetOutcome {
                cells: cells.insert(name, v),
                deps: record_dep(deps, name, expr, vars),
                event: Some(name),
            },
            None => SetOutcome {
                cells: cells.insert(name, ValueView::Error("Invalid cell address"@)),
                deps,
                event: None,
            },
        }
    }
}

/// The whole `set` transition, relating the state before, the value one
/// evaluator call returned, the state after, and the reported event.
pub open spec fn set_transition(
    cells0: Map<Seq<char>, ValueView>,
    deps0: Map<Seq<char>, DepView>,
    name: Seq<char>,
    expr: Seq<char>,
    v: ValueView,
    cells1: Map<Seq<char>, ValueView>,
    deps1: Map<Seq<char>, DepView>,
    event: Option<Seq<char>>,
) -> bool {
    let out = set_step(cells0, deps0, name, expr, v);
    cells1 == out.cells && deps1 == out.deps && event == out.event
}

/// There is a value — the one the evaluator call returned — for which the
/// states before and after stand in the `set` transition.
pub open spec fn set_transition_holds(
    cells0: Map<Seq<char>, ValueView>,
    deps0: Map<Seq<char>, DepView>,
    name: Seq<char>,
    expr: Seq<char>,
    cells1: Map<Seq<char>, ValueView>,
    deps1: Map<Seq<char>, DepView>,
    event: Option<Seq<char>>,
) -> bool {
    exists|v: ValueView| #[trigger] set_transition(cells0, deps0, name, expr, v, cells1, deps1, event)
}

/// Binds every variable token against the current store, in order; `None` as
/// soon as a range token is malformed.
pub fn build_args(cells: &CellStore, vars: &Vec<String>) -> (r: Option<Vec<Argument>>)
    requires
        cells.wf(),
    ensures
        match r {
            Some(a) => args_for(cells@, vars.deep_view()) == Some(a.deep_view()) && a@.len()
                == vars@.len(),
            None => args_for(cells@, vars.deep_view()) is None,
        },
{
    let mut args: Vec<Argument> = Vec::new();
    let mut i: usize = 0;
    proof {
        assert(vars.deep_view().take(0) =~= Seq::<Seq<char>>::empty());
        assert(args.deep_view() =~= Seq::<ArgView>::empty());
    }
    while i < vars.len()
        invariant
            i <= vars.len(),
            cells.wf(),
            args@.len() == i,
            args_for(cells@, vars.deep_view().take(i as int)) == Some(args.deep_view()),
        decreases vars.len() - i,
    {
        let ghost varw = vars.deep_view()[i as int];
        let a: Argument = if has_underscore_str(vars[i].as_str()) {
            match parse_variable(vars[i].as_str(), cells) {
                Some(a) => a,
                None => {
                    proof {
                        lemma_args_for_none(cells@, vars.deep_view(), i as int);
                    }
                    return None;
                },
            }
        } else {
            Argument::Value(read_cell(cells, vars[i].as_str()))
        };
        proof {
            assert(binding_of(cells@, varw) == Some(a@));
        }
        let ghost pre = args.deep_view();
        args.push(a);
        proof {
            assert(args.deep_view() =~~= pre.push(a@));
            assert(vars.deep_view().take(i + 1).drop_last() =~= vars.deep_view().take(i as int));
            assert(vars.deep_view().take(i + 1).last() == varw);
        }
        i += 1;
    }
    proof {
        assert(vars.deep_view().take(vars.len() as int) =~= vars.deep_view());
    }
    Some(args)
}

/// Handles one protocol message, as the `ensures` says token by token:
/// `get <name>` replies with [`get_reply`] and changes nothing; `set <name>
/// <expr tokens>` applies [`set_step`] over the tokens joined by single
/// spaces — for the value the evaluator actually returned — and never
/// replies; anything else replies with a fixed error. The second component
/// of the result is the propagation event: the origin cell the recompute
/// worker must fan out from.
pub fn handle_message(cells: &mut CellStore, deps: &mut DependencyGraph, message: &str) -> (r: (
    Option<Reply>,
    Option<String>,
))
    requires
        old(cells).wf(),
        old(deps).wf(),
    ensures
        final(cells).wf(),
        final(deps).wf(),
        ({
            let toks = split_ws(message@);
            if toks.len() == 2 && toks[0] == "get"@ {
                &&& final(cells)@ == old(cells)@
                &&& final(deps)@ == old(deps)@
                &&& r.1 is None
                &&& match r.0 {
                    Some(rep) => rep@ == get_reply(old(cells)@, toks[1]),
                    None => false,
                }
            } else if toks.len() >= 3 && toks[0] == "set"@ {
                &&& r.0 is None
                &&& set_transition_holds(
                    old(cells)@,
                    old(deps)@,
                    toks[1],
                    join_sp(toks.skip(2)),
                    final(cells)@,
                    final(deps)@,
                    match r.1 {
                        Some(ev) => Some(ev@),
                        None => Option::<Seq<char>>::None,
                    },
                )
            } else {
                &&& final(cells)@ == old(cells)@
                &&& final(deps)@ == old(deps)@
                &&& r.1 is None
                &&& match r.0 {
                    Some(rep) => rep@ == ReplyView::Error("Invalid command"@),
                    None => false,
                }
            }
        }),
{
    let toks = tokenize(message);
    if toks.len() == 2 && str_eq(toks[0].as_str(), "get") {
        let v = read_cell(cells, toks[1].as_str());
        let rep = match v {
            Value::Error(e) => Reply::Error(e),
            other => Reply::Value(toks[1].clone(), other),
        };
        (Some(rep), None)
    } else if toks.len() >= 3 && str_eq(toks[0].as_str(), "set") {
        let name: String = toks[1].clone();
        let expr: String = join_from(&toks, 2);
        let ghost namew = name@;
        let ghost exprw = expr@;
        proof {
            assert(toks.deep_view()[1] == namew);
            assert(namew == split_ws(message@)[1]);
            assert(exprw == join_sp(split_ws(message@).skip(2)));
        }
        if contains_str(expr.as_str(), name.as_str()) {
            cells.set(name, Value::Error("Cell is self-referential".to_owned()));
            proof {
                assert(set_transition(
                    old(cells)@,
                    old(deps)@,
                    namew,
                    exprw,
                    ValueView::Empty,
                    cells@,
                    deps@,
                    Option::<Seq<char>>::None,
                ));
                assert(set_transition_holds(
                    old(cells)@,
                    old(deps)@,
                    namew,
                    exprw,
                    cells@,
                    deps@,
                    Option::<Seq<char>>::None,
                ));
            }
            (None, None)
        } else {
            let vars = find_variables(expr.as_str());
            match build_args(cells, &vars) {
                Some(args) => {
                    let v = evaluate(expr.as_str(), &vars, &args);
                    let ghost vw = v@;
                    cells.set(name.clone(), v);
                    record_dependency(deps, &name, expr, &vars);
                    proof {
                        assert(set_transition(
                            old(cells)@,
                            old(deps)@,
                            namew,
                            exprw,
                            vw,
                            cells@,
                            deps@,
                            Some(namew),
                        ));
                        assert(set_transition_holds(
                            old(cells)@,
                            old(deps)@,
                            namew,
                            exprw,
                            cells@,
                            deps@,
                            Some(namew),
                        ));
                    }
                    (None, Some(name))
                },
                None => {
                    cells.set(name, Value::Error("Invalid cell address".to_owned()));
                    proof {
                        assert(set_transition(
                            old(cells)@,
                            old(deps)@,
                            namew,
                            exprw,
                            ValueView::Empty,
                            cells@,
                            deps@,
                            Option::<Seq<char>>::None,
                        ));
                        assert(set_transition_holds(
                            old(cells)@,
                            old(deps)@,
                            namew,
                            exprw,
                            cells@,
                            deps@,
                            Option::<Seq<char>>::None,
                        ));
                    }
                    (None, None)
                },
            }
        }
    } else {
        (Some(Reply::Error("Invalid command".to_owned())), None)
    }
}

} // verus!
