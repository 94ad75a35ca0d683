use tzbuildasset::locate::{locate_assets, DirTree, SubDir};
use tzbuildasset::log::{init, statistics, Logger, Mode};
use tzbuildasset::orchestrator::{
    Action, BuildConfig, BuildMachine, Event, Stage, ToolCommand,
};
use tzbuildasset::trainzutil::{Error, Output};

fn ok_output(text: &str) -> Output {
    Output::from_stdout(text).unwrap()
}

fn dir(config: Option<&str>, subdirs: Vec<(&str, DirTree)>) -> DirTree {
    DirTree {
        config: config.map(|s| s.to_string()),
        subdirs: subdirs
            .into_iter()
            .map(|(name, tree)| SubDir { name: name.to_string(), tree })
            .collect(),
    }
}

fn one_asset_tree() -> DirTree {
    dir(
        None,
        vec![("thing", dir(Some("kuid <kuid:12345:1:0>\nusername \"Test Asset\"\n"), vec![]))],
    )
}

fn direct_config() -> BuildConfig {
    BuildConfig { show_config_path: false, show_kuid: false, direct_install: true, cleanup: false }
}

fn cleanup_config() -> BuildConfig {
    BuildConfig { show_config_path: false, show_kuid: false, direct_install: true, cleanup: true }
}

/// Runs the version check and discovery, with a successful version call.
fn start(machine: &mut BuildMachine, logger: &mut Logger, tree: &DirTree) -> Vec<String> {
    assert!(matches!(
        machine.next_action(),
        Some(Action::RunTool(ToolCommand::Version))
    ));
    let mut lines = machine.step(Event::ToolDone(Ok(ok_output("v1.0\nOK (0 Errors, 0 Warnings)"))), logger);
    assert!(matches!(machine.next_action(), Some(Action::Locate)));
    let assets = locate_assets(tree, true);
    lines.extend(machine.step(Event::Located(assets), logger));
    lines
}

#[test]
fn scenario_full_success() {
    let mut logger = init(Mode::Normal);
    let mut machine = BuildMachine::new(direct_config());
    let tree = one_asset_tree();
    start(&mut machine, &mut logger, &tree);

    match machine.next_action() {
        Some(Action::RunTool(ToolCommand::InstallFromPath(p))) => assert_eq!(p, "thing"),
        other => panic!("unexpected action: {:?}", other),
    }
    machine.step(Event::ToolDone(Ok(ok_output("OK (0 Errors, 0 Warnings)"))), &mut logger);

    match machine.next_action() {
        Some(Action::RunTool(ToolCommand::Commit(k))) => assert_eq!(k, "kuid:12345:1:0"),
        other => panic!("unexpected action: {:?}", other),
    }
    machine.step(Event::ToolDone(Ok(ok_output("OK (0 Errors, 0 Warnings)"))), &mut logger);

    match machine.next_action() {
        Some(Action::RunTool(ToolCommand::Validate(k))) => assert_eq!(k, "kuid:12345:1:0"),
        other => panic!("unexpected action: {:?}", other),
    }
    let lines = machine.step(Event::ToolDone(Ok(ok_output("OK (0 Errors, 0 Warnings)"))), &mut logger);

    assert!(machine.next_action().is_none());
    let report = machine.report();
    assert_eq!(report.total, 1);
    assert_eq!(report.succeeded, 1);
    assert_eq!(report.failed, 0);
    assert!(report.ok);
    assert!(lines.contains(&"INFO  BUILD SUCCESS (1 Total, 1 Succeeded, 0 Failed)".to_string()));
    assert_eq!(statistics(&logger).errors, 0);
}

#[test]
fn scenario_validation_failure() {
    let mut logger = init(Mode::Normal);
    let mut machine = BuildMachine::new(direct_config());
    let tree = one_asset_tree();
    start(&mut machine, &mut logger, &tree);

    machine.step(Event::ToolDone(Ok(ok_output("OK (0 Errors, 0 Warnings)"))), &mut logger);
    machine.step(Event::ToolDone(Ok(ok_output("OK (0 Errors, 0 Warnings)"))), &mut logger);
    let validate_stdout =
        "- <kuid:12345:1:0> : broken mesh reference\nOK (1 Errors, 0 Warnings)";
    let lines = machine.step(Event::ToolDone(Ok(ok_output(validate_stdout))), &mut logger);

    let report = machine.report();
    assert_eq!(report.total, 1);
    assert_eq!(report.succeeded, 0);
    assert_eq!(report.failed, 1);
    assert!(!report.ok);
    // the diagnostic is routed to the error severity in the human tiers
    assert!(lines.contains(&"ERROR broken mesh reference".to_string()));
    assert!(lines.contains(&"ERROR Validation failed".to_string()));
    assert!(lines.contains(&"INFO  BUILD FAILED  (1 Total, 0 Succeeded, 1 Failed)".to_string()));
}

#[test]
fn scenario_validation_failure_silent_records() {
    let mut logger = init(Mode::Silent);
    let mut machine = BuildMachine::new(direct_config());
    let tree = one_asset_tree();
    start(&mut machine, &mut logger, &tree);

    machine.step(Event::ToolDone(Ok(ok_output("OK (0 Errors, 0 Warnings)"))), &mut logger);
    machine.step(Event::ToolDone(Ok(ok_output("OK (0 Errors, 0 Warnings)"))), &mut logger);
    let validate_stdout =
        "- <kuid:12345:1:0> : broken mesh reference\nOK (1 Errors, 0 Warnings)";
    let lines = machine.step(Event::ToolDone(Ok(ok_output(validate_stdout))), &mut logger);

    // the flattened record carries the prefix, the asset label, and the text
    assert!(lines.contains(&"- [thing] : broken mesh reference".to_string()));
    // the silent summary counts failed assets as errors
    assert!(lines.contains(&"OK (1 Errors, 0 Warnings)".to_string()));
}

#[test]
fn scenario_tool_unreachable() {
    let mut logger = init(Mode::Silent);
    let mut machine = BuildMachine::new(direct_config());
    assert!(matches!(
        machine.next_action(),
        Some(Action::RunTool(ToolCommand::Version))
    ));
    let lines = machine.step(Event::ToolDone(Err(Error::NotFound)), &mut logger);

    // the run aborts before discovery: no further action, zero assets
    assert!(machine.next_action().is_none());
    let report = machine.report();
    assert_eq!(report.total, 0);
    assert!(!report.ok);
    assert!(lines.contains(&"- <NULL> : TrainzUtil not found".to_string()));
    assert_eq!(statistics(&logger).errors, 2);
}

#[test]
fn scenario_install_failure_does_not_abort_batch() {
    let mut logger = init(Mode::Normal);
    let mut machine = BuildMachine::new(direct_config());
    let a = dir(Some("kuid <kuid:1:1>\nusername \"A\"\n"), vec![]);
    let b = dir(Some("kuid <kuid:2:2>\nusername \"B\"\n"), vec![]);
    let tree = dir(None, vec![("a", a), ("b", b)]);
    start(&mut machine, &mut logger, &tree);

    // asset A fails to install: B is still processed
    let failure = Error::Failure(ok_output("nope\nOK (1 Errors, 0 Warnings)"));
    machine.step(Event::ToolDone(Err(failure)), &mut logger);
    match machine.next_action() {
        Some(Action::RunTool(ToolCommand::InstallFromPath(p))) => assert_eq!(p, "b"),
        other => panic!("unexpected action: {:?}", other),
    }
    machine.step(Event::ToolDone(Ok(ok_output("OK (0 Errors, 0 Warnings)"))), &mut logger);
    machine.step(Event::ToolDone(Ok(ok_output("OK (0 Errors, 0 Warnings)"))), &mut logger);
    let lines = machine.step(Event::ToolDone(Ok(ok_output("OK (0 Errors, 0 Warnings)"))), &mut logger);

    let report = machine.report();
    assert_eq!(report.total, 2);
    assert_eq!(report.succeeded, 1);
    assert_eq!(report.failed, 1);
    assert!(!report.ok);
    assert!(lines.contains(&"INFO  BUILD FAILED  (2 Total, 1 Succeeded, 1 Failed)".to_string()));
}

#[test]
fn scenario_two_siblings_staged_separately() {
    let mut logger = init(Mode::Normal);
    let config = BuildConfig { show_config_path: false, show_kuid: false, direct_install: false, cleanup: false };
    let mut machine = BuildMachine::new(config);
    let a = dir(Some("kuid <kuid:1:1>\nusername \"A\"\n"), vec![]);
    let b = dir(Some("kuid <kuid:2:2>\nusername \"B\"\n"), vec![]);
    let tree = dir(None, vec![("a", a), ("b", b)]);
    start(&mut machine, &mut logger, &tree);

    // first asset is staged into its own location and installed from there
    // under the dummy identity
    assert!(matches!(machine.next_action(), Some(Action::StageAsset(0))));
    machine.step(Event::StageDone(Ok("/tmp/stage-a".to_string())), &mut logger);
    match machine.next_action() {
        Some(Action::RunTool(ToolCommand::InstallFromPath(p))) => assert_eq!(p, "/tmp/stage-a"),
        other => panic!("unexpected action: {:?}", other),
    }
    machine.step(Event::ToolDone(Ok(ok_output("OK (0 Errors, 0 Warnings)"))), &mut logger);
    match machine.next_action() {
        Some(Action::RunTool(ToolCommand::Commit(k))) => assert_eq!(k, "kuid:298469:999999"),
        other => panic!("unexpected action: {:?}", other),
    }
    machine.step(Event::ToolDone(Ok(ok_output("OK (0 Errors, 0 Warnings)"))), &mut logger);
    machine.step(Event::ToolDone(Ok(ok_output("OK (0 Errors, 0 Warnings)"))), &mut logger);

    // then the second, independently
    assert!(matches!(machine.next_action(), Some(Action::StageAsset(1))));
    machine.step(Event::StageDone(Ok("/tmp/stage-b".to_string())), &mut logger);
    match machine.next_action() {
        Some(Action::RunTool(ToolCommand::InstallFromPath(p))) => assert_eq!(p, "/tmp/stage-b"),
        other => panic!("unexpected action: {:?}", other),
    }
    machine.step(Event::ToolDone(Ok(ok_output("OK (0 Errors, 0 Warnings)"))), &mut logger);
    machine.step(Event::ToolDone(Ok(ok_output("OK (0 Errors, 0 Warnings)"))), &mut logger);
    machine.step(Event::ToolDone(Ok(ok_output("OK (0 Errors, 0 Warnings)"))), &mut logger);

    let report = machine.report();
    assert_eq!(report.total, 2);
    assert_eq!(report.succeeded, 2);
    assert!(report.ok);
}

#[test]
fn scenario_warnings_do_not_fail_validation() {
    let mut logger = init(Mode::Normal);
    let mut machine = BuildMachine::new(direct_config());
    let tree = one_asset_tree();
    start(&mut machine, &mut logger, &tree);
    machine.step(Event::ToolDone(Ok(ok_output("OK (0 Errors, 0 Warnings)"))), &mut logger);
    machine.step(Event::ToolDone(Ok(ok_output("OK (0 Errors, 0 Warnings)"))), &mut logger);
    let validate_stdout = "! <kuid:12345:1:0> : minor issue\nOK (0 Errors, 5 Warnings)";
    machine.step(Event::ToolDone(Ok(ok_output(validate_stdout))), &mut logger);
    let report = machine.report();
    assert_eq!(report.succeeded, 1);
    assert!(report.ok);
}

#[test]
fn scenario_commit_failure_fails_asset() {
    let mut logger = init(Mode::Normal);
    let mut machine = BuildMachine::new(direct_config());
    let tree = one_asset_tree();
    start(&mut machine, &mut logger, &tree);
    machine.step(Event::ToolDone(Ok(ok_output("OK (0 Errors, 0 Warnings)"))), &mut logger);
    let failure = Error::Failure(ok_output("locked\nOK (1 Errors, 0 Warnings)"));
    let lines = machine.step(Event::ToolDone(Err(failure)), &mut logger);
    assert!(lines.iter().any(|l| l.starts_with("ERROR Commit failed: ")));
    assert!(lines.contains(&"ERROR Install failed".to_string()));
    let report = machine.report();
    assert_eq!(report.failed, 1);
    assert!(!report.ok);
}

#[test]
fn scenario_verbose_shows_version_line() {
    let mut logger = init(Mode::Verbose);
    let mut machine = BuildMachine::new(direct_config());
    let lines = machine.step(
        Event::ToolDone(Ok(ok_output("TrainzUtil 2.9\nOK (0 Errors, 0 Warnings)"))),
        &mut logger,
    );
    assert_eq!(lines, vec!["INFO  TrainzUtil version: TrainzUtil 2.9".to_string()]);
}

#[test]
fn scenario_cleanup_deletes_after_validate() {
    let mut logger = init(Mode::Normal);
    let mut machine = BuildMachine::new(cleanup_config());
    let tree = one_asset_tree();
    start(&mut machine, &mut logger, &tree);
    machine.step(Event::ToolDone(Ok(ok_output("OK (0 Errors, 0 Warnings)"))), &mut logger);
    machine.step(Event::ToolDone(Ok(ok_output("OK (0 Errors, 0 Warnings)"))), &mut logger);
    machine.step(Event::ToolDone(Ok(ok_output("OK (0 Errors, 0 Warnings)"))), &mut logger);
    match machine.next_action() {
        Some(Action::RunTool(ToolCommand::Delete(k))) => assert_eq!(k, "kuid:12345:1:0"),
        other => panic!("unexpected action: {:?}", other),
    }
    machine.step(Event::ToolDone(Ok(ok_output("OK (0 Errors, 0 Warnings)"))), &mut logger);
    let report = machine.report();
    assert_eq!(report.succeeded, 1);
    assert!(report.ok);
}

#[test]
fn scenario_cleanup_failure_fails_asset() {
    let mut logger = init(Mode::Normal);
    let mut machine = BuildMachine::new(cleanup_config());
    let tree = one_asset_tree();
    start(&mut machine, &mut logger, &tree);
    machine.step(Event::ToolDone(Ok(ok_output("OK (0 Errors, 0 Warnings)"))), &mut logger);
    machine.step(Event::ToolDone(Ok(ok_output("OK (0 Errors, 0 Warnings)"))), &mut logger);
    machine.step(Event::ToolDone(Ok(ok_output("OK (0 Errors, 0 Warnings)"))), &mut logger);
    let lines = machine.step(Event::ToolDone(Err(Error::NotFound)), &mut logger);
    assert!(lines.iter().any(|l| l.starts_with("ERROR Cleanup failed: ")));
    let report = machine.report();
    assert_eq!(report.failed, 1);
    assert!(!report.ok);
}

#[test]
fn scenario_empty_batch_succeeds() {
    let mut logger = init(Mode::Silent);
    let mut machine = BuildMachine::new(direct_config());
    let tree = dir(None, vec![]);
    let lines = start(&mut machine, &mut logger, &tree);
    let report = machine.report();
    assert_eq!(report.total, 0);
    assert!(report.ok);
    assert_eq!(machine.stage, Stage::Finished);
    assert!(lines.contains(&"OK (0 Errors, 0 Warnings)".to_string()));
}

#[test]
fn scenario_protocol_violation_aborts() {
    let mut logger = init(Mode::Normal);
    let mut machine = BuildMachine::new(direct_config());
    let tree = one_asset_tree();
    start(&mut machine, &mut logger, &tree);
    machine.step(Event::ToolProtocol, &mut logger);
    assert!(machine.next_action().is_none());
    assert!(!machine.report().ok);
}
