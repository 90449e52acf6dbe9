use vstd::prelude::*;
use crate::comparison::CmpMode;
use crate::value::JsonValue;

verus! {

/// Evaluation options: the string comparison mode, and the default value
/// substituted when a query matches nothing or its path fails to parse.
pub struct Context {
    pub mode: CmpMode,
    pub default: Option<JsonValue>,
}

impl Context {
    /// The standard options: case-sensitive comparison and no default.
    pub fn new() -> (r: Context)
        ensures
            r.mode == CmpMode::CaseSensitive,
            r.default is None,
    {
        Context { mode: CmpMode::CaseSensitive, default: None }
    }
}

impl Default for Context {
    fn default() -> (r: Context)
        ensures
            r.mode == CmpMode::CaseSensitive,
            r.default is None,
    {
        Context::new()
    }
}

} // verus!
