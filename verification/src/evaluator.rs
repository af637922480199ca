//! The trusted boundary to the formula evaluator of `rsheet_lib`. Which
//! variable tokens an expression references is a function of its text alone
//! and is named below; the evaluated value is not: the evaluation engine
//! exposes clock functions to formulas, so two calls with identical arguments
//! may return different values, and nothing is claimed of the result. The
//! engine's contracts are relational in the value each call returned.

use vstd::prelude::*;
use crate::values::{Argument, Value};

verus! {

#[verifier::external_type_specification]
#[verifier::external_body]
pub struct ExValue(rsheet_lib::cell_value::CellValue);

#[verifier::external_type_specification]
#[verifier::external_body]
pub struct ExArgument(rsheet_lib::command_runner::CellArgument);

/// The variable tokens `CommandRunner::find_variables` reports for an
/// expression: a function of the expression text alone.
pub uninterp spec fn variables_of(expr: Seq<char>) -> Seq<Seq<char>>;

/// Relies on the variant-for-variant correspondence with
/// `rsheet_lib::cell_value::CellValue`; called only from the trusted bodies
/// below.
#[verifier::external_body]
fn to_ext_value(v: &Value) -> rsheet_lib::cell_value::CellValue {
    match v {
        Value::Empty => rsheet_lib::cell_value::CellValue::None,
        Value::Int(i) => rsheet_lib::cell_value::CellValue::Int(*i),
        Value::Text(s) => rsheet_lib::cell_value::CellValue::String(s.clone()),
        Value::Error(e) => rsheet_lib::cell_value::CellValue::Error(e.clone()),
    }
}

/// Relies on the variant-for-variant correspondence with
/// `rsheet_lib::cell_value::CellValue`; called only from the trusted bodies
/// below.
#[verifier::external_body]
fn from_ext_value(v: rsheet_lib::cell_value::CellValue) -> Value {
    match v {
        rsheet_lib::cell_value::CellValue::None => Value::Empty,
        rsheet_lib::cell_value::CellValue::Int(i) => Value::Int(i),
        rsheet_lib::cell_value::CellValue::String(s) => Value::Text(s),
        rsheet_lib::cell_value::CellValue::Error(e) => Value::Error(e),
    }
}

/// Relies on the variant-for-variant correspondence with
/// `rsheet_lib::command_runner::CellArgument`; called only from the trusted
/// body of [`evaluate`].
#[verifier::external_body]
fn to_ext_argument(a: &Argument) -> rsheet_lib::command_runner::CellArgument {
    match a {
        Argument::Value(v) => rsheet_lib::command_runner::CellArgument::Value(to_ext_value(v)),
        Argument::Vector(v) => rsheet_lib::command_runner::CellArgument::Vector(
            v.iter().map(to_ext_value).collect(),
        ),
        Argument::Matrix(m) => rsheet_lib::command_runner::CellArgument::Matrix(
            m.iter().map(|row| row.iter().map(to_ext_value).collect()).collect(),
        ),
    }
}

/// Relies on `rsheet_lib::command_runner::CommandRunner::new` and
/// `find_variables`: the tokens found are a function of the expression text
/// alone, reported in syntax-tree order, possibly with repeats; neither call
/// panics.
#[verifier::external_body]
pub fn find_variables(expr: &str) -> (r: Vec<String>)
    ensures
        r.deep_view() == variables_of(expr@),
{
    rsheet_lib::command_runner::CommandRunner::new(expr).find_variables()
}

/// Relies on `rsheet_lib::command_runner::CommandRunner::new` and `run`:
/// parse and evaluation failures come back as ordinary `Error` values and
/// neither call panics. Nothing is promised of the returned value: the
/// engine registers time-reading functions, so the result can differ between
/// two calls with the same expression and bindings.
#[verifier::external_body]
pub fn evaluate(expr: &str, names: &Vec<String>, args: &Vec<Argument>) -> (r: Value)
    requires
        names@.len() == args@.len(),
{
    let mut map = std::collections::HashMap::new();
    for i in 0..names.len() {
        map.insert(names[i].clone(), to_ext_argument(&args[i]));
    }
    from_ext_value(rsheet_lib::command_runner::CommandRunner::new(expr).run(&map))
}

} // verus!
