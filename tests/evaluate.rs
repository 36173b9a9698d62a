use rush::builtins::{cd, exit, parse_status, BuiltinError, CdTarget};
use rush::evaluator::{Action, Evaluation};
use rush::interpret::{read, ReadError};
use rush::parser::ParseError;
use rush::tokenizer::TokenizeError;

fn strings(v: &[&str]) -> Vec<String> {
    v.iter().map(|s| s.to_string()).collect()
}

fn run(program: &str, args: &[&str], captured: bool) -> Action {
    Action::Run { program: program.to_string(), args: strings(args), captured }
}

fn start(line: &str) -> Evaluation {
    match read(line) {
        Ok(ev) => ev,
        Err(e) => panic!("{:?}", e),
    }
}

#[test]
fn cd_changes_directory_without_output() {
    let mut ev = start("cd /tmp");
    assert_eq!(ev.next_action(), Action::ChangeDir(CdTarget::Path("/tmp".to_string())));
    ev.complete(String::new());
    assert_eq!(ev.next_action(), Action::Done);
}

#[test]
fn nested_cd_substitutes_an_empty_argument() {
    let mut ev = start("echo (cd /tmp)");
    assert_eq!(ev.next_action(), Action::ChangeDir(CdTarget::Path("/tmp".to_string())));
    ev.complete("not an output".to_string());
    assert_eq!(ev.next_action(), run("echo", &[""], false));
}

#[test]
fn subcommand_runs_first_and_its_output_is_one_argument() {
    let mut ev = start("echo (echo hi)");
    assert_eq!(ev.next_action(), run("echo", &["hi"], true));
    ev.complete("hi there\nand more\n".to_string());
    assert_eq!(ev.next_action(), run("echo", &["hi there\nand more\n"], false));
    ev.complete(String::new());
    assert_eq!(ev.next_action(), Action::Done);
}

#[test]
fn subcommands_run_depth_first_left_to_right() {
    let mut ev = start("a (b (c)) (d) e");
    assert_eq!(ev.next_action(), run("c", &[], true));
    ev.complete("C".to_string());
    assert_eq!(ev.next_action(), run("b", &["C"], true));
    ev.complete("B".to_string());
    assert_eq!(ev.next_action(), run("d", &[], true));
    ev.complete("D".to_string());
    assert_eq!(ev.next_action(), run("a", &["B", "D", "e"], false));
    ev.complete("ignored".to_string());
    assert_eq!(ev.next_action(), Action::Done);
    ev.complete("more".to_string());
    assert_eq!(ev.next_action(), Action::Done);
}

#[test]
fn subcommand_output_can_name_the_command() {
    let mut ev = start("(echo ls) -l");
    assert_eq!(ev.next_action(), run("echo", &["ls"], true));
    ev.complete("ls".to_string());
    assert_eq!(ev.next_action(), run("ls", &["-l"], false));
}

#[test]
fn empty_command_name_is_skipped() {
    let mut ev = start("'' foo");
    assert_eq!(ev.next_action(), Action::Skip);
    ev.complete("x".to_string());
    assert_eq!(ev.next_action(), Action::Done);
    let mut ev = start("echo ('')");
    assert_eq!(ev.next_action(), Action::Skip);
    ev.complete("x".to_string());
    assert_eq!(ev.next_action(), run("echo", &[""], false));
}

#[test]
fn exit_with_non_numeric_status_is_refused() {
    let ev = start("exit abc");
    assert_eq!(ev.next_action(), Action::Refused(BuiltinError::InvalidStatus));
}

#[test]
fn exit_without_arguments_ends_with_zero() {
    let ev = start("exit");
    assert_eq!(ev.next_action(), Action::Exit(0));
    let ev = start("exit 42");
    assert_eq!(ev.next_action(), Action::Exit(42));
}

#[test]
fn exit_with_two_arguments_is_refused() {
    let ev = start("exit 1 2");
    assert_eq!(ev.next_action(), Action::Refused(BuiltinError::TooManyArguments));
}

#[test]
fn refused_subcommand_comes_before_anything_to_its_right() {
    let ev = start("echo (cd a b) (touch x)");
    assert_eq!(ev.next_action(), Action::Refused(BuiltinError::TooManyArguments));
}

#[test]
fn exit_rules() {
    assert_eq!(exit(&strings(&[])), Ok(0));
    assert_eq!(exit(&strings(&["abc"])), Err(BuiltinError::InvalidStatus));
    assert_eq!(exit(&strings(&["1", "2"])), Err(BuiltinError::TooManyArguments));
    assert_eq!(exit(&strings(&["255"])), Ok(255));
    assert_eq!(exit(&strings(&["256"])), Err(BuiltinError::InvalidStatus));
    assert_eq!(exit(&strings(&["007"])), Ok(7));
}

#[test]
fn status_parsing() {
    assert_eq!(parse_status("0"), Some(0));
    assert_eq!(parse_status("+12"), Some(12));
    assert_eq!(parse_status("+"), None);
    assert_eq!(parse_status(""), None);
    assert_eq!(parse_status("-1"), None);
    assert_eq!(parse_status("12a"), None);
    assert_eq!(parse_status("99999999999999999999999"), None);
    assert_eq!(parse_status("0000000000000000000000255"), Some(255));
}

#[test]
fn cd_rules() {
    assert_eq!(cd(&strings(&[])), Ok(CdTarget::Home));
    assert_eq!(cd(&strings(&["/x y"])), Ok(CdTarget::Path("/x y".to_string())));
    assert_eq!(cd(&strings(&["a", "b"])), Err(BuiltinError::TooManyArguments));
}

#[test]
fn read_reports_the_first_failing_stage() {
    assert!(matches!(read("echo '"), Err(ReadError::Tokenize(TokenizeError::UnclosedQuote))));
    assert!(matches!(
        read("echo oops("),
        Err(ReadError::Tokenize(TokenizeError::UnexpectedParenInWord))
    ));
    assert!(matches!(read("()"), Err(ReadError::Parse(ParseError::UnexpectedRightParen))));
    assert!(matches!(read(""), Err(ReadError::Parse(ParseError::EmptyCommandLine))));
    assert!(matches!(read("a (b"), Err(ReadError::Parse(ParseError::UnterminatedSubcommand))));
}
