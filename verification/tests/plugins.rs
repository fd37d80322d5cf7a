use better_fetch::plugins::LoggerPlugin;

#[test]
fn logger_defaults_and_toggles() {
    let p = LoggerPlugin::new();
    assert!(p.enabled && !p.verbose);
    let p = p.verbose(true).enabled(false);
    assert!(!p.enabled && p.verbose);
    assert_eq!(LoggerPlugin::default().id(), "logger");
}
