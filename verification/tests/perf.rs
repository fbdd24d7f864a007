use starforge::perf::{direction_from_lowercase, parse_alert_direction, recent_indices, AlertDirection, PerfError};
use starforge::shell::ShellArgs;

#[test]
fn direction_ignores_case() {
    assert_eq!(parse_alert_direction("above"), Ok(AlertDirection::Above));
    assert_eq!(parse_alert_direction("ABOVE"), Ok(AlertDirection::Above));
    assert_eq!(parse_alert_direction("Below"), Ok(AlertDirection::Below));
}

#[test]
fn direction_rejects_other_words() {
    let err = parse_alert_direction("Sideways").unwrap_err();
    assert_eq!(err, PerfError::InvalidDirection("Sideways".to_string()));
    assert_eq!(err.message(), "Invalid direction 'Sideways'. Use 'above' or 'below'.");
    assert!(parse_alert_direction(" above").is_err());
}

#[test]
fn direction_from_lowercase_is_exact() {
    assert_eq!(direction_from_lowercase("above"), Some(AlertDirection::Above));
    assert_eq!(direction_from_lowercase("below"), Some(AlertDirection::Below));
    assert_eq!(direction_from_lowercase("Above"), None);
    assert_eq!(direction_from_lowercase(""), None);
}

#[test]
fn history_shows_most_recent_first() {
    assert_eq!(recent_indices(5, 3), vec![4, 3, 2]);
    assert_eq!(recent_indices(2, 10), vec![1, 0]);
    assert_eq!(recent_indices(0, 20), Vec::<usize>::new());
    assert_eq!(recent_indices(4, 0), Vec::<usize>::new());
}

#[test]
fn shell_args_hold_the_contract_path() {
    let args = ShellArgs { contract: "target/contract.wasm".to_string() };
    assert_eq!(args.contract, "target/contract.wasm");
}
