use tzbuildasset::displayprefix::with_prefix;
use tzbuildasset::locate::Asset;
use tzbuildasset::log::{init, Mode, Severity};
use tzbuildasset::orchestrator::{asset_label, log_validation_output, BuildConfig};
use tzbuildasset::trainzutil::Output;

#[test]
fn prefix_every_line() {
    let d = with_prefix(">", "one\ntwo\nthree");
    assert_eq!(d.render(), ">one\n>two\n>three");
}

#[test]
fn prefix_strips_carriage_returns() {
    let d = with_prefix("> ", "one\r\ntwo\r\n");
    assert_eq!(d.render(), "> one\n> two");
}

#[test]
fn prefix_of_empty_text() {
    let d = with_prefix(">", "");
    assert_eq!(d.render(), "");
}

fn sample_asset() -> Asset {
    Asset {
        name: "A".to_string(),
        kuid: "kuid:1:2".to_string(),
        path: vec!["x".to_string(), "y".to_string()],
    }
}

#[test]
fn label_default_is_relative_path() {
    let cfg = BuildConfig { show_config_path: false, show_kuid: false, direct_install: true, cleanup: false };
    assert_eq!(asset_label(&cfg, &sample_asset()), "[x/y]");
}

#[test]
fn label_kuid() {
    let cfg = BuildConfig { show_config_path: false, show_kuid: true, direct_install: true, cleanup: false };
    assert_eq!(asset_label(&cfg, &sample_asset()), "<kuid:1:2>");
}

#[test]
fn label_config_path() {
    let cfg = BuildConfig { show_config_path: true, show_kuid: true, direct_install: true, cleanup: false };
    assert_eq!(asset_label(&cfg, &sample_asset()), "[x/y/config.txt]");
}

#[test]
fn label_config_path_at_root() {
    let cfg = BuildConfig { show_config_path: true, show_kuid: false, direct_install: true, cleanup: false };
    let a = Asset { name: "A".to_string(), kuid: "k".to_string(), path: vec![] };
    assert_eq!(asset_label(&cfg, &a), "[config.txt]");
}

#[test]
fn validation_output_routing() {
    let stdout = "- <k> : bad\n! <k> : odd\n+ <k> : fyi\n; <k> : noise\nplain line\nOK (1 Errors, 1 Warnings)";
    let output = Output::from_stdout(stdout).unwrap();

    let mut logger = init(Mode::Verbose);
    let mut lines: Vec<String> = Vec::new();
    log_validation_output("[a]", &output, &mut logger, &mut lines);
    assert_eq!(
        lines,
        vec![
            "ERROR bad".to_string(),
            "WARN  odd".to_string(),
            "INFO  fyi".to_string(),
            "INFO  noise".to_string(),
        ]
    );
    assert_eq!(logger.stats.errors, 2);
    assert_eq!(logger.stats.warnings, 2);

    let mut silent = init(Mode::Silent);
    let mut records: Vec<String> = Vec::new();
    log_validation_output("[a]", &output, &mut silent, &mut records);
    assert_eq!(
        records,
        vec![
            "- [a] : bad".to_string(),
            "! [a] : odd".to_string(),
            "+ [a] : fyi".to_string(),
            "; [a] : noise".to_string(),
        ]
    );
}

#[test]
fn severity_values_distinct() {
    assert_ne!(Severity::Error, Severity::Warn);
    assert_ne!(Severity::Warn, Severity::Info);
}
