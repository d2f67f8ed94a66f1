//! Function calls in the projection list.  Only `count` is ever
//! recognised by the executor, but the parser carries any call through.

use vstd::prelude::*;

use crate::select::SelectItem;

verus! {

/// A function call of the projection list: its name and arguments.
#[derive(Debug)]
pub struct FuncCall {
    pub function_name: String,
    pub params: Vec<SelectItem>,
}

impl FuncCall {
    /// Pack a name and argument list into a call.
    pub fn new(function_name: String, params: Vec<SelectItem>) -> (r: FuncCall)
        ensures
            r.function_name == function_name,
            r.params == params,
    {
        FuncCall { function_name, params }
    }
}

} // verus!
