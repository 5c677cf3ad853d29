use pyo3_stub_gen::version::{
    configure_self_import_strategy_from_requires_python, max_version, parse_minimum_python_version,
    parse_python_version_fragment, SelfImportStrategy,
};

#[test]
fn parses_minimum_python_version() {
    assert_eq!(parse_minimum_python_version(">=3.10"), Some((3, 10)));
    assert_eq!(parse_minimum_python_version(">=3.8, <3.12"), Some((3, 8)));
    assert_eq!(parse_minimum_python_version("~=3.11.0"), Some((3, 11)));
    assert_eq!(parse_minimum_python_version(""), None);
    assert_eq!(parse_minimum_python_version(">=3"), Some((3, 0)));
}

#[test]
fn configure_strategy_defaults_to_typing_when_unspecified() {
    assert_eq!(
        configure_self_import_strategy_from_requires_python(None),
        SelfImportStrategy::Typing
    );
}

#[test]
fn configure_strategy_prefers_typing_extensions_below_311() {
    assert_eq!(
        configure_self_import_strategy_from_requires_python(Some(">=3.10")),
        SelfImportStrategy::TypingExtensions
    );
}

#[test]
fn configure_strategy_prefers_typing_from_311_onwards() {
    assert_eq!(
        configure_self_import_strategy_from_requires_python(Some(">=3.11")),
        SelfImportStrategy::Typing
    );
}

#[test]
fn version_fragment_strips_decorations() {
    assert_eq!(parse_python_version_fragment("3.8"), Some((3, 8)));
    assert_eq!(parse_python_version_fragment("=v3.11.*"), Some((3, 11)));
    assert_eq!(parse_python_version_fragment("3.10rc1"), Some((3, 10)));
    assert_eq!(parse_python_version_fragment("3"), Some((3, 0)));
    assert_eq!(parse_python_version_fragment(""), None);
    assert_eq!(parse_python_version_fragment("abc"), None);
    assert_eq!(parse_python_version_fragment("999"), None);
}

#[test]
fn version_maximum_is_componentwise() {
    assert_eq!(max_version((3, 8), (3, 11)), (3, 11));
    assert_eq!(max_version((4, 0), (3, 11)), (4, 0));
    assert_eq!(max_version((3, 9), (3, 9)), (3, 9));
}

#[test]
fn unparseable_tokens_are_skipped() {
    assert_eq!(parse_minimum_python_version("<3.12, >=3.9"), Some((3, 9)));
    assert_eq!(parse_minimum_python_version("nonsense"), None);
    assert_eq!(parse_minimum_python_version("==3.7, >=3.9"), Some((3, 9)));
}
