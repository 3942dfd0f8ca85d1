//! The desugaring pass that runs between parsing and resolution.
//!
//! The surface syntax this front end parses has no postfix `?` operator and no
//! `impl` blocks, the two forms the pass rewrites, so on a parsed module it has
//! nothing to rewrite: the module is left exactly as it is and no diagnostic
//! arises.
use vstd::prelude::*;
use crate::ast::Module;
use crate::diagnostic::Diagnostic;

verus! {

/// Rewrites `?` and `impl` forms into the core language; the parsed syntax
/// holds none, so the module is unchanged.
pub fn desugar_try(module: &mut Module) -> (r: Result<(), Vec<Diagnostic>>)
    ensures
        *final(module) == *old(module),
        r is Ok,
{
    Ok(())
}

} // verus!
