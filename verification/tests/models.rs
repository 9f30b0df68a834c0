use norma::models::Severity;

#[test]
fn severity_round_trips_through_its_string_form() {
    for severity in [
        Severity::Off,
        Severity::Hint,
        Severity::Info,
        Severity::Warning,
        Severity::Error,
    ] {
        assert_eq!(Severity::parse(severity.as_str()), Some(severity));
    }
}

#[test]
fn severity_parse_rejects_unknown_strings() {
    assert_eq!(Severity::parse("critical"), None);
    assert_eq!(Severity::parse(""), None);
}

#[test]
fn severity_strings_are_the_lowercase_names() {
    assert_eq!(Severity::Off.as_str(), "off");
    assert_eq!(Severity::Hint.as_str(), "hint");
    assert_eq!(Severity::Info.as_str(), "info");
    assert_eq!(Severity::Warning.as_str(), "warning");
    assert_eq!(Severity::Error.as_str(), "error");
    assert_eq!(Severity::parse("Warning"), None);
}

#[test]
fn only_warning_and_error_are_blocking() {
    assert!(!Severity::Off.is_blocking());
    assert!(!Severity::Hint.is_blocking());
    assert!(!Severity::Info.is_blocking());
    assert!(Severity::Warning.is_blocking());
    assert!(Severity::Error.is_blocking());
}
