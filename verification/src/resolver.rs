//! The address resolver: expands a range token `<address>_<address>` into an
//! ordered sequence of current cell values (same column) or a row-major block
//! (different columns). Missing cells inside a range resolve to `Empty`; a
//! malformed or oversized address yields `None`. A pure read, no side effects.

use vstd::prelude::*;
use crate::address::{addr_of, addr_fits, cell_name, parse_address};
use crate::store::{CellStore, cell_at, read_cell};
use crate::values::{ArgView, Argument, Value, ValueView};

verus! {

/// Index of the first underscore, or the length if there is none.
pub open spec fn first_underscore(s: Seq<char>) -> int
    decreases s.len(),
{
    if s.len() == 0 {
        0
    } else if s[0] == '_' {
        0
    } else {
        1 + first_underscore(s.drop_first())
    }
}

pub proof fn lemma_first_underscore_at(s: Seq<char>, i: int)
    requires
        0 <= i < s.len(),
        s[i] == '_',
        forall|k: int| 0 <= k < i ==> s[k] != '_',
    ensures
        first_underscore(s) == i,
    decreases s.len(),
{
    if i > 0 {
        lemma_first_underscore_at(s.drop_first(), i - 1);
    }
}

pub proof fn lemma_first_underscore_none(s: Seq<char>)
    requires
        forall|k: int| 0 <= k < s.len() ==> s[k] != '_',
    ensures
        first_underscore(s) == s.len(),
    decreases s.len(),
{
    if s.len() > 0 {
        lemma_first_underscore_none(s.drop_first());
    }
}

/// Number of cells spanned from index `a` to index `b`, inclusive; an empty
/// span when `b < a`.
pub open spec fn span(a: int, b: int) -> int {
    if b >= a {
        b - a + 1
    } else {
        0
    }
}

/// The values of column `c`, rows `r1..=r2`, in row order.
pub open spec fn range_vec(
    cells: Map<Seq<char>, ValueView>,
    c: int,
    r1: int,
    r2: int,
) -> Seq<ValueView> {
    Seq::new(span(r1, r2) as nat, |i: int| cell_at(cells, cell_name(c, r1 + i)))
}

/// The values of the block over columns `c1..=c2`, rows `r1..=r2`, row-major.
pub open spec fn range_mat(
    cells: Map<Seq<char>, ValueView>,
    c1: int,
    c2: int,
    r1: int,
    r2: int,
) -> Seq<Seq<ValueView>> {
    Seq::new(
        span(r1, r2) as nat,
        |i: int| Seq::new(span(c1, c2) as nat, |j: int| cell_at(cells, cell_name(c1 + j, r1 + i))),
    )
}

/// What a range token denotes over a store: the token splits at its first
/// underscore into two addresses; equal columns give a vector over the rows,
/// different columns a row-major matrix. `None` when either side is not a
/// well-formed address that fits the machine representation.
pub open spec fn range_arg(cells: Map<Seq<char>, ValueView>, var: Seq<char>) -> Option<ArgView> {
    let u = first_underscore(var);
    let a1s = var.take(u);
    let a2s = var.skip(u + 1);
    if u < var.len() && addr_of(a1s) is Some && addr_fits(a1s) && addr_of(a2s) is Some
        && addr_fits(a2s) {
        let a1 = addr_of(a1s).unwrap();
        let a2 = addr_of(a2s).unwrap();
        if a1.col == a2.col {
            Some(ArgView::Vector(range_vec(cells, a1.col, a1.row, a2.row)))
        } else {
            Some(ArgView::Matrix(range_mat(cells, a1.col, a2.col, a1.row, a2.row)))
        }
    } else {
        None
    }
}

/// Resolves a range token against the current store, as [`range_arg`] says.
pub fn parse_variable(var: &str, cells: &CellStore) -> (r: Option<Argument>)
    requires
        cells.wf(),
    ensures
        match r {
            Some(a) => range_arg(cells@, var@) == Some(a@),
            None => range_arg(cells@, var@) is None,
        },
{
    let n = var.unicode_len();
    let u = match crate::text::find_underscore(var) {
        Some(u) => u,
        None => {
            proof {
                lemma_first_underscore_none(var@);
            }
            return None;
        },
    };
    proof {
        lemma_first_underscore_at(var@, u as int);
    }
    let a1str = var.substring_char(0, u);
    let a2str = var.substring_char(u + 1, n);
    proof {
        assert(a1str@ =~= var@.take(u as int));
        assert(a2str@ =~= var@.skip(u + 1));
    }
    let a1 = match parse_address(a1str) {
        Some(a) => a,
        None => {
            return None;
        },
    };
    let a2 = match parse_address(a2str) {
        Some(a) => a,
        None => {
            return None;
        },
    };
    if a1.col == a2.col {
        let ghost goal = range_vec(cells@, a1.col as int, a1.row as int, a2.row as int);
        let mut vals: Vec<Value> = Vec::new();
        if a2.row >= a1.row {
            let cnt: u64 = a2.row as u64 - a1.row as u64 + 1;
            let mut i: u64 = 0;
            while i < cnt
                invariant
                    i <= cnt,
                    cnt == a2.row as u64 - a1.row as u64 + 1,
                    a1.row <= a2.row,
                    cells.wf(),
                    goal == range_vec(cells@, a1.col as int, a1.row as int, a2.row as int),
                    vals.deep_view() =~~= goal.take(i as int),
                decreases cnt - i,
            {
                let row: u32 = a1.row + (i as u32);
                let nm = crate::address::format_cell_name(a1.col, row);
                let ghost pre = vals.deep_view();
                let cv = read_cell(cells, nm.as_str());
                proof {
                    assert(cv@ == goal[i as int]);
                }
                vals.push(cv);
                proof {
                    assert(vals.deep_view() =~~= pre.push(cv@));
                    assert(vals.deep_view() =~~= goal.take(i + 1));
                }
                i += 1;
            }
        }
        proof {
            assert(vals.deep_view() =~~= goal);
        }
        Some(Argument::Vector(vals))
    } else {
        let ghost goal = range_mat(
            cells@,
            a1.col as int,
            a2.col as int,
            a1.row as int,
            a2.row as int,
        );
        let mut rows: Vec<Vec<Value>> = Vec::new();
        if a2.row >= a1.row {
            let rcnt: u64 = a2.row as u64 - a1.row as u64 + 1;
            let mut i: u64 = 0;
            while i < rcnt
                invariant
                    i <= rcnt,
                    rcnt == a2.row as u64 - a1.row as u64 + 1,
                    a1.row <= a2.row,
                    cells.wf(),
                    goal == range_mat(
                        cells@,
                        a1.col as int,
                        a2.col as int,
                        a1.row as int,
                        a2.row as int,
                    ),
                    rows.deep_view() =~~= goal.take(i as int),
                decreases rcnt - i,
            {
                let row: u32 = a1.row + (i as u32);
                let ghost rowgoal = goal[i as int];
                let mut vals: Vec<Value> = Vec::new();
                if a2.col >= a1.col {
                    let ccnt: u64 = a2.col as u64 - a1.col as u64 + 1;
                    let mut j: u64 = 0;
                    while j < ccnt
                        invariant
                            j <= ccnt,
                            ccnt == a2.col as u64 - a1.col as u64 + 1,
                            a1.col <= a2.col,
                            a1.row <= a2.row,
                            i < rcnt,
                            rcnt == a2.row as u64 - a1.row as u64 + 1,
                            row == a1.row + i,
                            cells.wf(),
                            rowgoal == Seq::new(
                                span(a1.col as int, a2.col as int) as nat,
                                |jj: int|
                                    cell_at(
                                        cells@,
                                        cell_name(a1.col + jj, a1.row as int + i as int),
                                    ),
                            ),
                            vals.deep_view() =~~= rowgoal.take(j as int),
                        decreases ccnt - j,
                    {
                        let col: u32 = a1.col + (j as u32);
                        let nm = crate::address::format_cell_name(col, row);
                        let ghost pre = vals.deep_view();
                        let cv = read_cell(cells, nm.as_str());
                        proof {
                            assert(cv@ == rowgoal[j as int]);
                        }
                        vals.push(cv);
                        proof {
                            assert(vals.deep_view() =~~= pre.push(cv@));
                            assert(vals.deep_view() =~~= rowgoal.take(j + 1));
                        }
                        j += 1;
                    }
                }
                proof {
                    assert(vals.deep_view() =~~= rowgoal);
                }
                let ghost rpre = rows.deep_view();
                rows.push(vals);
                proof {
                    assert(rows.deep_view() =~~= rpre.push(rowgoal));
                    assert(rows.deep_view() =~~= goal.take(i + 1));
                }
                i += 1;
            }
        }
        proof {
            assert(rows.deep_view() =~~= goal);
        }
        Some(Argument::Matrix(rows))
    }
}

} // verus!
