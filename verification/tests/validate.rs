//! Advice on a unit.

use notcron::validate::{has_errors, Diagnostic, Level};

fn advice(level: Level) -> Diagnostic {
    Diagnostic { level, message: "something".into(), fix: None }
}

#[test]
fn one_error_among_warnings_is_an_error() {
    assert!(!has_errors(&[]));
    assert!(!has_errors(&[advice(Level::Warning)]));
    assert!(has_errors(&[advice(Level::Warning), advice(Level::Error)]));
}
