use starforge::invocation::InvocationError;
use starforge::repl::{classify_line, next_step, LineCommand, Repl, ReplOutcome, ReplRunner};

struct Recorder {
    calls: Vec<(String, Vec<String>)>,
    fail: bool,
}

impl ReplRunner for Recorder {
    fn run_invocation(&mut self, function: &str, args: &[String]) -> Result<String, anyhow::Error> {
        self.calls.push((function.to_string(), args.to_vec()));
        if self.fail {
            Err(anyhow::Error::msg("contract panicked"))
        } else {
            Ok(format!("{}:{}", function, args.len()))
        }
    }
}

fn recorder(fail: bool) -> Recorder {
    Recorder { calls: Vec::new(), fail }
}

#[test]
fn blank_lines_are_skipped() {
    assert!(matches!(classify_line("\n"), LineCommand::Blank));
    assert!(matches!(classify_line("   \t \r\n"), LineCommand::Blank));
}

#[test]
fn exit_commands() {
    for line in [":q\n", ":quit", "  :exit  \n"] {
        assert!(matches!(classify_line(line), LineCommand::Exit));
    }
    assert!(matches!(classify_line(":quitting"), LineCommand::Invalid(InvocationError::MissingOpenParen)));
}

#[test]
fn help_command() {
    assert!(matches!(classify_line(":help\n"), LineCommand::Help));
}

#[test]
fn invocation_line() {
    match classify_line("balance(\"GABC\")\n") {
        LineCommand::Invoke(f, a) => {
            assert_eq!(f, "balance");
            assert_eq!(a, vec!["GABC".to_string()]);
        }
        _ => panic!("expected an invocation"),
    }
}

#[test]
fn invalid_line() {
    assert!(matches!(classify_line("what\n"), LineCommand::Invalid(InvocationError::MissingOpenParen)));
    assert!(matches!(classify_line("f('x)\n"), LineCommand::Invalid(InvocationError::UnclosedQuote)));
}

#[test]
fn end_of_input_exits() {
    assert!(matches!(next_step(None), ReplOutcome::Exit));
}

#[test]
fn commands_are_not_invocations() {
    assert!(matches!(next_step(Some("\n")), ReplOutcome::Continue));
    assert!(matches!(next_step(Some(":help\n")), ReplOutcome::ShowHelp));
    assert!(matches!(next_step(Some(":q\n")), ReplOutcome::Exit));
    assert!(matches!(
        next_step(Some("(x)\n")),
        ReplOutcome::Failed(InvocationError::MissingFunctionName)
    ));
}

#[test]
fn invocation_names_function_and_arguments() {
    match next_step(Some("mint(\"a\", 5)\n")) {
        ReplOutcome::Invoke(f, a) => {
            assert_eq!(f, "mint");
            assert_eq!(a, vec!["a".to_string(), "5".to_string()]);
        }
        _ => panic!("expected an invocation"),
    }
}

#[test]
fn runner_is_reached_through_the_shell() {
    let mut repl = Repl::new(recorder(true));
    let answer = repl.runner_mut().run_invocation("burn", &[]);
    assert_eq!(answer.unwrap_err().to_string(), "contract panicked");
    let mut repl = Repl::new(recorder(false));
    assert_eq!(repl.runner_mut().run_invocation("mint", &["a".to_string()]).unwrap(), "mint:1");
    assert_eq!(repl.runner_mut().calls, vec![("mint".to_string(), vec!["a".to_string()])]);
}
