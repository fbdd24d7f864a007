use starforge::invocation::{parse_invocation, split_args, InvocationError};

fn strings(v: &[&str]) -> Vec<String> {
    v.iter().map(|s| s.to_string()).collect()
}

fn parsed(input: &str) -> (String, Vec<String>) {
    parse_invocation(input).expect("a valid invocation")
}

#[test]
fn parses_quoted_and_bare_arguments() {
    assert_eq!(
        parsed("transfer(\"alice\", 10)"),
        ("transfer".to_string(), strings(&["alice", "10"]))
    );
}

#[test]
fn parses_call_without_arguments() {
    assert_eq!(parsed("hello()"), ("hello".to_string(), Vec::<String>::new()));
    assert_eq!(parsed("hello(   )"), ("hello".to_string(), Vec::<String>::new()));
}

#[test]
fn trims_name_and_arguments() {
    assert_eq!(parsed("  f  ( a , b )  "), ("f".to_string(), strings(&["a", "b"])));
}

#[test]
fn trims_unicode_whitespace() {
    assert_eq!(
        parsed("\u{3000}f(\u{a0}x\u{2003})\u{85}"),
        ("f".to_string(), strings(&["x"]))
    );
}

#[test]
fn uses_first_open_and_last_close_paren() {
    assert_eq!(parsed("f(g(1), 2)"), ("f".to_string(), strings(&["g(1)", "2"])));
    assert_eq!(parsed("f(a) extra)"), ("f".to_string(), strings(&["a) extra"])));
}

#[test]
fn keeps_non_ascii_text() {
    assert_eq!(
        parsed("grüße('黑风雷', \"👨‍👩‍👧\")"),
        ("grüße".to_string(), strings(&["黑风雷", "👨‍👩‍👧"]))
    );
}

#[test]
fn reports_missing_open_paren() {
    assert_eq!(parse_invocation("transfer"), Err(InvocationError::MissingOpenParen));
    assert_eq!(parse_invocation(""), Err(InvocationError::MissingOpenParen));
    assert_eq!(parse_invocation("f)"), Err(InvocationError::MissingOpenParen));
}

#[test]
fn reports_missing_close_paren() {
    assert_eq!(parse_invocation("transfer(1"), Err(InvocationError::MissingCloseParen));
}

#[test]
fn reports_close_before_open() {
    assert_eq!(parse_invocation(")f("), Err(InvocationError::CloseBeforeOpen));
}

#[test]
fn reports_missing_function_name() {
    assert_eq!(parse_invocation("(a)"), Err(InvocationError::MissingFunctionName));
    assert_eq!(parse_invocation("   (a)"), Err(InvocationError::MissingFunctionName));
}

#[test]
fn reports_argument_errors() {
    assert_eq!(parse_invocation("f(\"a)"), Err(InvocationError::UnclosedQuote));
    assert_eq!(parse_invocation("f(a\\)"), Err(InvocationError::TrailingEscape));
}

#[test]
fn error_messages() {
    assert_eq!(InvocationError::MissingOpenParen.message(), "Expected invocation like fn(\"arg\")");
    assert_eq!(InvocationError::MissingCloseParen.message(), "Missing closing ')'");
    assert_eq!(InvocationError::CloseBeforeOpen.message(), "Invalid invocation");
    assert_eq!(InvocationError::MissingFunctionName.message(), "Missing function name");
    assert_eq!(InvocationError::UnclosedQuote.message(), "Unclosed quote in arguments");
    assert_eq!(InvocationError::TrailingEscape.message(), "Trailing escape in arguments");
}

#[test]
fn split_empty_text_has_no_arguments() {
    assert_eq!(split_args(""), Ok(Vec::new()));
}

#[test]
fn split_keeps_empty_arguments() {
    assert_eq!(split_args("a,,b"), Ok(strings(&["a", "", "b"])));
    assert_eq!(split_args("a,"), Ok(strings(&["a", ""])));
    assert_eq!(split_args(" "), Ok(strings(&[""])));
}

#[test]
fn split_respects_quotes() {
    assert_eq!(split_args("'x,y', z"), Ok(strings(&["x,y", "z"])));
    assert_eq!(split_args("\"it's\""), Ok(strings(&["it's"])));
    assert_eq!(split_args("'say \"hi\"'"), Ok(strings(&["say \"hi\""])));
    assert_eq!(split_args("\"a\"b"), Ok(strings(&["ab"])));
}

#[test]
fn split_trims_inside_quotes_too() {
    assert_eq!(split_args("\" padded \""), Ok(strings(&["padded"])));
}

#[test]
fn split_honours_escapes() {
    assert_eq!(split_args("a\\,b"), Ok(strings(&["a,b"])));
    assert_eq!(split_args("\"a\\\"b\""), Ok(strings(&["a\"b"])));
    assert_eq!(split_args("\\\\"), Ok(strings(&["\\"])));
}

#[test]
fn split_reports_errors() {
    assert_eq!(split_args("'open"), Err(InvocationError::UnclosedQuote));
    assert_eq!(split_args("\"a\\"), Err(InvocationError::UnclosedQuote));
    assert_eq!(split_args("a\\"), Err(InvocationError::TrailingEscape));
}

fn quote(arg: &str) -> String {
    let mut out = String::from("\"");
    for c in arg.chars() {
        out.push('\\');
        out.push(c);
    }
    out.push('"');
    out
}

fn render(name: &str, args: &[&str]) -> String {
    let quoted: Vec<String> = args.iter().map(|a| quote(a)).collect();
    format!("{}({})", name, quoted.join(","))
}

#[test]
fn rendered_invocation_reads_back() {
    let args = ["alice", "a, \"b\" 'c'", "", "back\\slash", "x)y(z"];
    let line = render("transfer", &args);
    assert_eq!(parsed(&line), ("transfer".to_string(), strings(&args)));
    assert_eq!(parsed(&render("ping", &[])), ("ping".to_string(), Vec::<String>::new()));
}

#[test]
fn plain_arguments_split_at_every_comma() {
    assert_eq!(split_args("a, b ,c"), Ok(strings(&["a", "b", "c"])));
    assert_eq!(split_args(",,"), Ok(strings(&["", "", ""])));
    assert_eq!(split_args("  one two  "), Ok(strings(&["one two"])));
}

#[test]
fn argument_count_follows_separating_commas() {
    assert_eq!(split_args("a\\\\,b"), Ok(strings(&["a\\", "b"])));
    assert_eq!(split_args("'a,b',c"), Ok(strings(&["a,b", "c"])));
    assert_eq!(split_args("a\\,b,c"), Ok(strings(&["a,b", "c"])));
}

#[test]
fn errors_follow_open_quotes_and_odd_backslash_runs() {
    assert_eq!(split_args("a\\\\\\"), Err(InvocationError::TrailingEscape));
    assert_eq!(split_args("a\\\\"), Ok(strings(&["a\\"])));
    assert_eq!(split_args("'a\\'"), Err(InvocationError::UnclosedQuote));
    assert_eq!(split_args("'a\\"), Err(InvocationError::UnclosedQuote));
}
