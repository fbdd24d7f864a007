//! Verified core of the starforge developer shell: the grammar of contract
//! invocations typed at the interactive prompt, the decisions of the prompt
//! loop, and the small rules of the performance commands.

pub mod invocation;
pub mod laws;
pub mod perf;
pub mod repl;
pub mod shell;
pub mod text;
