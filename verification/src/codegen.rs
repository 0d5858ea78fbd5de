//! Code generation output: Rust source produced from a parsed program.
use vstd::prelude::*;

verus! {

/// Generated Rust source.
pub struct CodegenOutput {
    pub source: String,
}

} // verus!
