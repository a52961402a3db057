use vstd::prelude::*;

verus! {

/// A literal value.
#[derive(Clone, Debug, PartialEq)]
pub enum Val {
    Nil,
    Bool(bool),
    Int(i64),
    Str(String),
}

/// The mathematical model of a [`Val`]: the same value with its string as a
/// sequence of characters.
pub enum ValueView {
    Nil,
    Bool(bool),
    Int(int),
    Str(Seq<char>),
}

impl View for Val {
    type V = ValueView;

    open spec fn view(&self) -> ValueView {
        match self {
            Val::Nil => ValueView::Nil,
            Val::Bool(b) => ValueView::Bool(*b),
            Val::Int(n) => ValueView::Int(*n as int),
            Val::Str(s) => ValueView::Str(s@),
        }
    }
}

/// The models of a sequence of values, in order.
pub open spec fn views(vs: Seq<Val>) -> Seq<ValueView> {
    vs.map_values(|v: Val| v@)
}

} // verus!
