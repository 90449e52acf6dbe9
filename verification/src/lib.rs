use vstd::prelude::*;

pub mod comparison;
pub mod context;
pub mod engine;
pub mod errors;
pub mod expression;
pub mod filter;
pub mod fold;
pub mod jsonpath;
pub mod loader;
pub mod parser;
pub mod text;
pub mod value;

pub use engine::first;
pub use engine::from_json;
pub use engine::or_default;
pub use engine::unique;
pub use value::JsonValue;
pub use value::ValModel;
pub use errors::EvalError;

use crate::engine::eval_expr_model;
use crate::expression::parse_expr;
use crate::expression::eval_ast;
use crate::expression::sp_expr;
use crate::expression::eval_ast_model;
use crate::expression::EParseErr;

verus! {

/// The expression evaluator: parses an expression text and evaluates
/// its call tree.
pub struct Evaluator;

impl Evaluator {
    pub fn new() -> (r: Evaluator)
        ensures
            true,
    {
        Evaluator
    }

    /// Evaluates an expression text; a failed parse is reported as a
    /// parse error.
    pub fn eval(&self, expr: &str) -> (r: Result<JsonValue, EvalError>)
        ensures
            match sp_expr(expr@) {
                Some(nd) => r is Ok && r->Ok_0@ == eval_ast_model(nd),
                None => r is Err,
            },
    {
        let ast = match parse_expr(expr) {
            Ok(ast) => ast,
            Err(EParseErr::Invalid(m)) => {
                return Err(EvalError::Parse(m));
            },
        };
        Ok(eval_ast(&ast))
    }
}

/// Evaluates an expression text with a fresh evaluator.
pub fn eval(expr: &str) -> (r: Result<JsonValue, EvalError>)
    ensures
        match sp_expr(expr@) {
            Some(nd) => r is Ok && r->Ok_0@ == eval_ast_model(nd),
            None => r is Err,
        },
{
    let ev = Evaluator::new();
    ev.eval(expr)
}

/// Evaluates an expression text, turning any error into null.
pub fn eval_coerce_null(expr: &str) -> (r: JsonValue)
    ensures
        r@ == eval_expr_model(expr@),
{
    match eval(expr) {
        Ok(v) => v,
        Err(_) => JsonValue::Null,
    }
}

} // verus!
