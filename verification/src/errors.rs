use vstd::prelude::*;

verus! {

/// Errors of expression evaluation: a failed parse of the expression
/// text, or a runtime fault of the surrounding expression language.
#[derive(Debug)]
pub enum EvalError {
    Parse(String),
    Runtime(String),
}

} // verus!
