use suggestions::cli::{parse_args, ArgError, Command, Flags};
use suggestions::present::{join_items, keep_for_display, quote, render_entry, violates_requirement};

fn strings(v: &[&str]) -> Vec<String> {
    v.iter().map(|s| s.to_string()).collect()
}

fn flags(single: bool, quote: bool, json: bool, required: bool) -> Flags {
    Flags { single_suggestion: single, quote_output: quote, json, require_suggestions: required }
}

fn run_of(args: &[&str]) -> (Flags, usize) {
    match parse_args(&strings(args)) {
        Ok(Command::Run { flags, first_target }) => (flags, first_target),
        _ => panic!("expected a run"),
    }
}

#[test]
fn plain_targets_start_at_once() {
    let (f, first) = run_of(&["tst", "x"]);
    assert_eq!(first, 0);
    assert!(!f.single_suggestion && !f.quote_output && !f.json && !f.require_suggestions);
}

#[test]
fn every_option_is_read() {
    let (f, first) = run_of(&["-s", "--quote", "--json", "--required", "t"]);
    assert_eq!(first, 4);
    assert!(f.single_suggestion && f.quote_output && f.json && f.require_suggestions);
    let (f, _) = run_of(&["--single", "-q", "t"]);
    assert!(f.single_suggestion && f.quote_output && !f.json && !f.require_suggestions);
}

#[test]
fn double_dash_ends_the_options() {
    let (f, first) = run_of(&["-s", "--", "-q"]);
    assert_eq!(first, 2);
    assert!(f.single_suggestion && !f.quote_output);
}

#[test]
fn help_wins() {
    assert!(matches!(parse_args(&strings(&["-h"])), Ok(Command::Help)));
    assert!(matches!(parse_args(&strings(&["-s", "--help", "--bogus"])), Ok(Command::Help)));
}

#[test]
fn unknown_option_is_refused() {
    assert!(matches!(
        parse_args(&strings(&["-s", "--bogus", "t"])),
        Err(ArgError::UnexpectedFlag { index: 1 })
    ));
}

#[test]
fn missing_target_is_refused() {
    assert!(matches!(parse_args(&[]), Err(ArgError::MissingTarget)));
    assert!(matches!(parse_args(&strings(&["-s"])), Err(ArgError::MissingTarget)));
    assert!(matches!(parse_args(&strings(&["--"])), Err(ArgError::MissingTarget)));
}

#[test]
fn default_flags_are_all_off() {
    let f = Flags::default();
    assert!(!f.single_suggestion && !f.quote_output && !f.json && !f.require_suggestions);
}

#[test]
fn quoting_escapes() {
    assert_eq!(quote("a\"b\n"), "\"a\\\"b\\n\"");
    assert_eq!(quote("plain"), "\"plain\"");
}

#[test]
fn single_keeps_the_first() {
    assert_eq!(keep_for_display(strings(&["a", "b"]), true), vec!["a"]);
    assert_eq!(keep_for_display(strings(&["a", "b"]), false), vec!["a", "b"]);
    assert!(keep_for_display(Vec::new(), true).is_empty());
}

#[test]
fn requirement_is_broken_only_by_nothing() {
    assert!(violates_requirement(&flags(false, false, false, true), &[]));
    assert!(!violates_requirement(&flags(false, false, false, true), &strings(&["a"])));
    assert!(!violates_requirement(&flags(false, false, false, false), &[]));
}

#[test]
fn joined_items() {
    assert_eq!(join_items(&strings(&["a", "b", "c"]), " ", false), "a b c");
    assert_eq!(join_items(&strings(&["a", "b"]), ",", true), "\"a\",\"b\"");
    assert_eq!(join_items(&[], " ", true), "");
}

#[test]
fn plain_and_json_entries() {
    let items = strings(&["test", "te\"st"]);
    assert_eq!(render_entry("tst", &items, &flags(false, false, false, false)), "test te\"st");
    assert_eq!(render_entry("tst", &items, &flags(false, true, false, false)), "\"test\" \"te\\\"st\"");
    assert_eq!(render_entry("t\"", &items, &flags(false, false, true, false)), "  \"t\\\"\":[\"test\",\"te\\\"st\"]");
    assert_eq!(render_entry("x", &[], &flags(false, false, true, false)), "  \"x\":[]");
}
