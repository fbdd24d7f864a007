//! The decisions of the interactive contract shell: what a line typed at the
//! prompt asks for, and what the shell does with it. Reading the line and
//! printing the outcome belong to the caller.

use vstd::prelude::*;
use crate::invocation::{InvocationError, parse_invocation, spec_parse_invocation};
use crate::text::{trim, trim_str};

verus! {

/// The error type that shell runners report, carried through unchanged.
#[verifier::external_type_specification]
#[verifier::external_body]
pub struct ExRunnerError(anyhow::Error);

/// Something that executes a contract function for the shell.
pub trait ReplRunner {
    /// Invokes `function` with `args` and returns its printed output.
    fn run_invocation(&mut self, function: &str, args: &[String]) -> Result<String, anyhow::Error>;
}

/// What a line asks of the shell, by its characters.
pub enum LineAction {
    /// Nothing but whitespace.
    Blank,
    /// `:q`, `:quit` or `:exit`.
    Exit,
    /// `:help`.
    Help,
    /// A function to invoke with its arguments.
    Invoke(Seq<char>, Seq<Seq<char>>),
    /// A line that is none of these and not a valid invocation.
    Invalid(InvocationError),
}

/// The trimmed line is one of the commands that leave the shell.
pub open spec fn is_exit_command(t: Seq<char>) -> bool {
    t == ":q"@ || t == ":quit"@ || t == ":exit"@
}

/// The trimmed line asks for help.
pub open spec fn is_help_command(t: Seq<char>) -> bool {
    t == ":help"@
}

/// What the shell makes of one line typed at the prompt.
pub open spec fn line_action(line: Seq<char>) -> LineAction {
    let t = trim(line);
    if t.len() == 0 {
        LineAction::Blank
    } else if is_exit_command(t) {
        LineAction::Exit
    } else if is_help_command(t) {
        LineAction::Help
    } else {
        match spec_parse_invocation(t) {
            Ok((f, a)) => LineAction::Invoke(f, a),
            Err(e) => LineAction::Invalid(e),
        }
    }
}

/// A line typed at the prompt, read.
pub enum LineCommand {
    /// Nothing but whitespace: prompt again.
    Blank,
    /// Leave the shell.
    Exit,
    /// Show the list of commands.
    Help,
    /// Invoke a contract function.
    Invoke(String, Vec<String>),
    /// Not a valid invocation.
    Invalid(InvocationError),
}

/// A read line taken by its characters.
pub open spec fn command_view(c: LineCommand) -> LineAction {
    match c {
        LineCommand::Blank => LineAction::Blank,
        LineCommand::Exit => LineAction::Exit,
        LineCommand::Help => LineAction::Help,
        LineCommand::Invoke(f, a) => LineAction::Invoke(f@, a.deep_view()),
        LineCommand::Invalid(e) => LineAction::Invalid(e),
    }
}

fn str_eq(a: &str, b: &str) -> (r: bool)
    ensures
        r == (a@ == b@),
{
    String::from_str(a) == String::from_str(b)
}

/// Reads one line typed at the prompt.
pub fn classify_line(line: &str) -> (c: LineCommand)
    ensures
        command_view(c) == line_action(line@),
        trim(line@).len() == 0 ==> c is Blank,
        ({
            let t = trim(line@);
            t.len() > 0 && !is_exit_command(t) && !is_help_command(t) ==> match spec_parse_invocation(t) {
                Ok((f, a)) => c matches LineCommand::Invoke(g, b) && g@ == f && b.deep_view() == a,
                Err(e) => c == LineCommand::Invalid(e),
            }
        }),
{
    let t = trim_str(line);
    let ts = t.as_str();
    if ts.unicode_len() == 0 {
        LineCommand::Blank
    } else if str_eq(ts, ":q") || str_eq(ts, ":quit") || str_eq(ts, ":exit") {
        LineCommand::Exit
    } else if str_eq(ts, ":help") {
        LineCommand::Help
    } else {
        match parse_invocation(ts) {
            Ok((f, a)) => LineCommand::Invoke(f, a),
            Err(e) => LineCommand::Invalid(e),
        }
    }
}

/// What the prompt loop does next.
pub enum ReplOutcome {
    /// Nothing to do: prompt again.
    Continue,
    /// The input ended or the user asked to leave.
    Exit,
    /// Show the list of commands.
    ShowHelp,
    /// Hand this function and these arguments to the runner and report its answer.
    Invoke(String, Vec<String>),
    /// The line was not a valid invocation; the shell stops with this error.
    Failed(InvocationError),
}

/// The step that a line read at the prompt, or the end of input (`None`), asks for.
pub open spec fn step_matches(line: Option<Seq<char>>, o: ReplOutcome) -> bool {
    match line {
        None => o is Exit,
        Some(l) => match line_action(l) {
            LineAction::Blank => o is Continue,
            LineAction::Exit => o is Exit,
            LineAction::Help => o is ShowHelp,
            LineAction::Invalid(e) => o == ReplOutcome::Failed(e),
            LineAction::Invoke(f, a) => o matches ReplOutcome::Invoke(g, b) && g@ == f && b.deep_view() == a,
        },
    }
}

/// One step of the prompt loop: the end of input, an exit command and `:help`
/// end or answer the prompt without the runner, a blank line is skipped, an
/// invalid invocation stops the shell with its error, and a valid one names
/// exactly the function and arguments to hand to the runner.
pub fn next_step(line: Option<&str>) -> (o: ReplOutcome)
    ensures
        step_matches(
            match line {
                None => None,
                Some(l) => Some(l@),
            },
            o,
        ),
        line is None ==> o is Exit,
        line matches Some(l) && trim(l@).len() == 0 ==> o is Continue,
        line matches Some(l) && trim(l@).len() > 0 && is_exit_command(trim(l@)) ==> o is Exit,
        line matches Some(l) && ({
            let t = trim(l@);
            t.len() > 0 && !is_exit_command(t) && !is_help_command(t)
        }) ==> match spec_parse_invocation(trim(line->0@)) {
            Ok((f, a)) => o matches ReplOutcome::Invoke(g, b) && g@ == f && b.deep_view() == a,
            Err(e) => o == ReplOutcome::Failed(e),
        },
{
    match line {
        None => ReplOutcome::Exit,
        Some(l) => match classify_line(l) {
            LineCommand::Blank => ReplOutcome::Continue,
            LineCommand::Exit => ReplOutcome::Exit,
            LineCommand::Help => ReplOutcome::ShowHelp,
            LineCommand::Invalid(e) => ReplOutcome::Failed(e),
            LineCommand::Invoke(f, a) => ReplOutcome::Invoke(f, a),
        },
    }
}

/// The interactive shell around a runner.
pub struct Repl<R> where R: ReplRunner {
    runner: R,
}

impl<R> Repl<R> where R: ReplRunner {
    /// The runner that executes invocations.
    pub closed spec fn spec_runner(&self) -> R {
        self.runner
    }

    /// A shell that sends invocations to `runner`.
    pub fn new(runner: R) -> (r: Self)
        ensures
            r.spec_runner() == runner,
    {
        Repl { runner }
    }

    /// The runner, to hand it the invocations that `next_step` names.
    pub fn runner_mut(&mut self) -> (r: &mut R)
        ensures
            *r == old(self).spec_runner(),
            final(self).spec_runner() == *final(r),
    {
        &mut self.runner
    }
}

} // verus!
