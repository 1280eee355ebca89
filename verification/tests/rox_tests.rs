use rox::errors::Error;
use rox::grammar::Fault;
use rox::rox::Rox;
use rox::token_type::TokenType;

#[test]
fn new_interpreter_has_no_error() {
    let rox = Rox::new();
    assert!(!rox.had_error);
}

#[test]
fn error_sets_the_flag_and_gives_the_report() {
    let mut rox = Rox::new();
    let report = rox.error(12, "Unexpected Token");
    assert!(rox.had_error);
    assert_eq!(report, Error::new(12, "Unexpected Token"));
}

#[test]
fn clean_run_leaves_the_flag() {
    let mut rox = Rox::new();
    let (tokens, reports) = rox.run("print 1 + 2;");
    assert_eq!(tokens.len(), 5);
    assert!(reports.is_empty());
    assert!(!rox.had_error);
}

#[test]
fn run_reports_each_invalid_token() {
    let mut rox = Rox::new();
    let (tokens, reports) = rox.run("a @\n\"open");
    assert_eq!(tokens.len(), 3);
    assert_eq!(tokens[1].token_type, TokenType::Invalid);
    assert_eq!(tokens[2].token_type, TokenType::Invalid);
    assert_eq!(
        reports,
        vec![Error::new(1, "Unexpected Token"), Error::new(2, "Unexpected Token")]
    );
    assert!(rox.had_error);
}

#[test]
fn flag_stays_set_over_a_clean_run() {
    let mut rox = Rox::new();
    rox.run("#");
    assert!(rox.had_error);
    let (_, reports) = rox.run("ok");
    assert!(reports.is_empty());
    assert!(rox.had_error);
}

#[test]
fn fault_messages() {
    assert_eq!(Fault::UnexpectedToken.message(), "Unexpected Token");
    assert_eq!(Fault::UnterminatedString.message(), "Unterminated String");
    assert_eq!(Fault::UnterminatedComment.message(), "Unterminated comment");
}
