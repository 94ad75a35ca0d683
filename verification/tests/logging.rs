use tzbuildasset::log::{init, log, statistics, Mode, Severity};

#[test]
fn normal_mode_shows_normal_tier_with_labels() {
    let mut logger = init(Mode::Normal);
    assert_eq!(
        log(&mut logger, Mode::Normal, Severity::Error, "boom").unwrap(),
        "ERROR boom"
    );
    assert_eq!(
        log(&mut logger, Mode::Normal, Severity::Warn, "careful").unwrap(),
        "WARN  careful"
    );
    assert_eq!(
        log(&mut logger, Mode::Normal, Severity::Info, "note").unwrap(),
        "INFO  note"
    );
}

#[test]
fn normal_mode_hides_other_tiers() {
    let mut logger = init(Mode::Normal);
    assert!(log(&mut logger, Mode::Verbose, Severity::Info, "detail").is_none());
    assert!(log(&mut logger, Mode::Silent, Severity::Info, "record").is_none());
}

#[test]
fn verbose_mode_shows_normal_and_verbose() {
    let mut logger = init(Mode::Verbose);
    assert!(log(&mut logger, Mode::Normal, Severity::Info, "a").is_some());
    assert!(log(&mut logger, Mode::Verbose, Severity::Info, "b").is_some());
    assert!(log(&mut logger, Mode::Silent, Severity::Info, "c").is_none());
}

#[test]
fn silent_mode_shows_silent_tier_raw() {
    let mut logger = init(Mode::Silent);
    assert_eq!(
        log(&mut logger, Mode::Silent, Severity::Error, "- <k> : msg").unwrap(),
        "- <k> : msg"
    );
    assert!(log(&mut logger, Mode::Normal, Severity::Error, "hidden").is_none());
}

#[test]
fn counters_count_even_unprinted_calls() {
    let mut logger = init(Mode::Silent);
    assert!(log(&mut logger, Mode::Normal, Severity::Error, "hidden error").is_none());
    assert!(log(&mut logger, Mode::Verbose, Severity::Warn, "hidden warning").is_none());
    assert!(log(&mut logger, Mode::Normal, Severity::Info, "hidden info").is_none());
    let stats = statistics(&logger);
    assert_eq!(stats.errors, 1);
    assert_eq!(stats.warnings, 1);
}

#[test]
fn fresh_logger_has_zero_counts() {
    let logger = init(Mode::Normal);
    let stats = statistics(&logger);
    assert_eq!(stats.errors, 0);
    assert_eq!(stats.warnings, 0);
}
