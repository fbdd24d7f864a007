//! Arguments of the `shell` command.

use vstd::prelude::*;

verus! {

/// The arguments of `starforge shell`.
pub struct ShellArgs {
    /// Path to the compiled contract `.wasm` (local sandbox execution).
    pub contract: String,
}

} // verus!
