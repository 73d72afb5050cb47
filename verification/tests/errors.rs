use rlox::ErrorHandler;
use rlox::Scanner;
use rlox::Token;
use std::cell::RefCell;

/// Collects every reported diagnostic instead of printing it, exactly as a
/// substitute error-reporter backend may.
struct CollectingHandler {
    reports: RefCell<Vec<(u32, String, String)>>,
}

impl CollectingHandler {
    fn new() -> CollectingHandler {
        CollectingHandler { reports: RefCell::new(Vec::new()) }
    }
}

impl ErrorHandler for CollectingHandler {
    fn report(&self, line: u32, position: &str, message: &str) {
        self.reports.borrow_mut().push((line, position.to_string(), message.to_string()));
    }
}

#[test]
fn unterminated_string_reports_once_and_still_appends_eof() {
    let handler = CollectingHandler::new();
    let mut scanner = Scanner::new("\"abc", &handler);
    let tokens = scanner.scan_tokens().clone();
    assert!(scanner.had_errors());
    assert_eq!(tokens.len(), 1);
    assert_eq!(tokens[0].token, Token::EOF);
    let reports = handler.reports.borrow();
    assert_eq!(reports.len(), 1);
    assert_eq!(reports[0].0, 1);
    assert_eq!(reports[0].1, "");
    assert!(reports[0].2.contains("Unterminated string."));
}

#[test]
fn unterminated_string_line_counts_its_newlines() {
    let handler = CollectingHandler::new();
    let mut scanner = Scanner::new("\"a\nb", &handler);
    let tokens = scanner.scan_tokens().clone();
    assert!(scanner.had_errors());
    assert_eq!(tokens.len(), 1);
    let reports = handler.reports.borrow();
    assert_eq!(reports.len(), 1);
    assert_eq!(reports[0].0, 2);
}

#[test]
fn unexpected_character_is_reported_and_skipped() {
    let handler = CollectingHandler::new();
    let mut scanner = Scanner::new("@1", &handler);
    let tokens = scanner.scan_tokens().clone();
    assert!(scanner.had_errors());
    assert_eq!(tokens.len(), 2);
    assert_eq!(tokens[0].token, Token::Number("1".to_string()));
    assert_eq!(tokens[1].token, Token::EOF);
    let reports = handler.reports.borrow();
    assert_eq!(reports.len(), 1);
    assert_eq!(reports[0].0, 1);
    assert_eq!(reports[0].2, "Unexpected character @");
}

#[test]
fn each_unexpected_character_reports_one_diagnostic() {
    let handler = CollectingHandler::new();
    let mut scanner = Scanner::new("#\n$", &handler);
    let tokens = scanner.scan_tokens().clone();
    assert!(scanner.had_errors());
    assert_eq!(tokens.len(), 1);
    assert_eq!(tokens[0].token, Token::EOF);
    let reports = handler.reports.borrow();
    assert_eq!(reports.len(), 2);
    assert_eq!(reports[0], (1, String::new(), "Unexpected character #".to_string()));
    assert_eq!(reports[1], (2, String::new(), "Unexpected character $".to_string()));
}

#[test]
fn clean_input_reports_nothing() {
    let handler = CollectingHandler::new();
    let mut scanner = Scanner::new("var x = 1;", &handler);
    let tokens = scanner.scan_tokens().clone();
    assert!(!scanner.had_errors());
    assert_eq!(tokens.len(), 6);
    assert!(handler.reports.borrow().is_empty());
}
