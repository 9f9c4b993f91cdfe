use vstd::prelude::*;

verus! {

/// A value of the language. Numbers are kept abstract as `N`: the compiler
/// stores a number literal by its span in the source, and the machine that
/// runs the code chooses the numeric type it computes with.
#[derive(Clone, Copy, Debug)]
pub enum Value<N> {
    Num(N),
    Bool(bool),
    NIL,
}

/// Whether a value counts as false: `false` and `nil` do, numbers and `true` do not.
pub open spec fn is_falsy<N>(v: Value<N>) -> bool {
    match v {
        Value::Bool(b) => !b,
        Value::NIL => true,
        Value::Num(_) => false,
    }
}

impl<N> Value<N> {
    /// The logical negation of the value's truth: true for `false` and `nil`,
    /// false for `true` and for every number.
    pub fn invert_val(&self) -> (r: bool)
        ensures
            r == is_falsy(*self),
    {
        match self {
            Value::Bool(f) => !*f,
            Value::NIL => true,
            _ => false,
        }
    }
}

} // verus!
