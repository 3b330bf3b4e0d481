use frugal::policy::{
    default_profile, is_known_profile, parse_scope, set_profile, BudgetHealth, BudgetScope, PolicyError,
};

#[test]
fn profiles_are_validated() {
    assert_eq!(default_profile(), "shadow");
    for p in ["shadow", "conservative", "balanced", "aggressive", "off"] {
        assert!(is_known_profile(p));
    }
    assert!(!is_known_profile("turbo"));
    assert!(!is_known_profile("Shadow"));
    let mut profile = default_profile();
    assert!(set_profile(&mut profile, "balanced").is_ok());
    assert_eq!(profile, "balanced");
    let err = set_profile(&mut profile, "turbo").err().unwrap();
    assert_eq!(profile, "balanced");
    assert_eq!(
        err.message(),
        r#"profile must be one of ["shadow", "conservative", "balanced", "aggressive", "off"]"#
    );
}

#[test]
fn budget_scopes() {
    assert!(matches!(parse_scope("task"), Ok(BudgetScope::Task)));
    assert!(matches!(parse_scope("session"), Ok(BudgetScope::Session)));
    assert!(matches!(parse_scope("daily"), Ok(BudgetScope::Daily)));
    match parse_scope("weekly") {
        Err(e) => assert_eq!(e.message(), "scope must be task|session|daily"),
        Ok(_) => panic!("weekly is not a scope"),
    }
    assert!(matches!(parse_scope(""), Err(PolicyError::UnknownScope)));
}

#[test]
fn budget_symbols() {
    assert_eq!(BudgetHealth::Within.symbol(), '✓');
    assert_eq!(BudgetHealth::Warning.symbol(), '!');
    assert_eq!(BudgetHealth::Exceeded.symbol(), 'X');
}
