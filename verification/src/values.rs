//! The value types a cell can hold, the argument shapes handed to the
//! evaluator, and the replies sent back to clients, together with their
//! mathematical views.

use vstd::prelude::*;

verus! {

/// The value of one spreadsheet cell. A cell that was never set reads as
/// `Empty`.
#[derive(Debug, PartialEq, Eq)]
pub enum Value {
    Empty,
    Int(i64),
    Text(String),
    Error(String),
}

/// Mathematical view of a [`Value`].
#[verifier::ext_equal]
pub enum ValueView {
    Empty,
    Int(int),
    Text(Seq<char>),
    Error(Seq<char>),
}

impl View for Value {
    type V = ValueView;

    open spec fn view(&self) -> ValueView {
        match self {
            Value::Empty => ValueView::Empty,
            Value::Int(i) => ValueView::Int(*i as int),
            Value::Text(s) => ValueView::Text(s@),
            Value::Error(e) => ValueView::Error(e@),
        }
    }
}

impl DeepView for Value {
    type V = ValueView;

    open spec fn deep_view(&self) -> ValueView {
        self.view()
    }
}

impl Value {
    /// An exact copy of the value.
    pub fn duplicate(&self) -> (r: Value)
        ensures
            r == *self,
    {
        match self {
            Value::Empty => Value::Empty,
            Value::Int(i) => Value::Int(*i),
            Value::Text(s) => Value::Text(s.clone()),
            Value::Error(e) => Value::Error(e.clone()),
        }
    }
}

/// One bound evaluator argument: a single cell's value, a one-column range,
/// or a rectangular block in row-major order.
#[derive(Debug, PartialEq, Eq)]
pub enum Argument {
    Value(Value),
    Vector(Vec<Value>),
    Matrix(Vec<Vec<Value>>),
}

/// Mathematical view of a [`Argument`].
#[verifier::ext_equal]
pub enum ArgView {
    Value(ValueView),
    Vector(Seq<ValueView>),
    Matrix(Seq<Seq<ValueView>>),
}

impl View for Argument {
    type V = ArgView;

    open spec fn view(&self) -> ArgView {
        match self {
            Argument::Value(v) => ArgView::Value(v@),
            Argument::Vector(v) => ArgView::Vector(v.deep_view()),
            Argument::Matrix(m) => ArgView::Matrix(m.deep_view()),
        }
    }
}

impl DeepView for Argument {
    type V = ArgView;

    open spec fn deep_view(&self) -> ArgView {
        self.view()
    }
}

/// A reply to one client command. `set` never replies; `get` and malformed
/// commands do.
#[derive(Debug, PartialEq, Eq)]
pub enum Reply {
    Value(String, Value),
    Error(String),
}

/// Mathematical view of a [`Reply`].
#[verifier::ext_equal]
pub enum ReplyView {
    Value(Seq<char>, ValueView),
    Error(Seq<char>),
}

impl View for Reply {
    type V = ReplyView;

    open spec fn view(&self) -> ReplyView {
        match self {
            Reply::Value(name, v) => ReplyView::Value(name@, v@),
            Reply::Error(e) => ReplyView::Error(e@),
        }
    }
}

} // verus!
