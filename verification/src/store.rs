//! The cell store: the shared mapping from cell name to current value.
//! Absent cells read as `Empty`.

use vstd::prelude::*;
use crate::table::Table;
use crate::values::{Value, ValueView};

verus! {

/// The single source of truth for cell values.
pub type CellStore = Table<Value>;

/// The value a name denotes in a store: absent names read as `Empty`.
pub open spec fn cell_at(cells: Map<Seq<char>, ValueView>, name: Seq<char>) -> ValueView {
    if cells.contains_key(name) {
        cells[name]
    } else {
        ValueView::Empty
    }
}

/// Reads a cell's current value; a never-set cell reads as `Empty`.
pub fn read_cell(cells: &CellStore, name: &str) -> (v: Value)
    requires
        cells.wf(),
    ensures
        v@ == cell_at(cells@, name@),
{
    match cells.get(name) {
        Some(cv) => cv.duplicate(),
        None => Value::Empty,
    }
}

/// Copies a list of names.
pub fn clone_names(v: &Vec<String>) -> (r: Vec<String>)
    ensures
        r.deep_view() == v.deep_view(),
{
    let mut r: Vec<String> = Vec::new();
    let mut i: usize = 0;
    while i < v.len()
        invariant
            i <= v.len(),
            r.deep_view() =~~= v.deep_view().take(i as int),
        decreases v.len() - i,
    {
        let ghost pre = r.deep_view();
        r.push(v[i].clone());
        proof {
            assert(r.deep_view() =~~= pre.push(v.deep_view()[i as int]));
            assert(r.deep_view() =~~= v.deep_view().take(i + 1));
        }
        i += 1;
    }
    proof {
        assert(v.deep_view().take(v.len() as int) =~~= v.deep_view());
        assert(r.deep_view() =~~= v.deep_view());
    }
    r
}

/// Tests whether `s` occurs among `names`.
pub fn contains_name(names: &Vec<String>, s: &str) -> (r: bool)
    ensures
        r == names.deep_view().contains(s@),
{
    let mut i: usize = 0;
    while i < names.len()
        invariant
            i <= names.len(),
            forall|k: int| 0 <= k < i ==> names.deep_view()[k] != s@,
        decreases names.len() - i,
    {
        if crate::text::str_eq(names[i].as_str(), s) {
            proof {
                assert(names.deep_view()[i as int] == s@);
            }
            return true;
        }
        i += 1;
    }
    false
}

} // verus!
