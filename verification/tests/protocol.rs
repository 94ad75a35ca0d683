use tzbuildasset::trainzutil::{diag_line, Error, Output};

#[test]
fn parse_well_formed_output() {
    let o = Output::from_stdout("line one\r\nline two\nOK (3 Errors, 4 Warnings)\n").unwrap();
    assert_eq!(o.lines, vec!["line one".to_string(), "line two".to_string()]);
    assert_eq!(o.errors, 3);
    assert_eq!(o.warnings, 4);
}

#[test]
fn parse_summary_only() {
    let o = Output::from_stdout("OK (0 Errors, 0 Warnings)").unwrap();
    assert!(o.lines.is_empty());
    assert_eq!(o.errors, 0);
    assert_eq!(o.warnings, 0);
}

#[test]
fn parse_case_insensitive_and_spaced() {
    let o = Output::from_stdout("ok ( 12   eRRoRs ,  7 WaRNINGs )").unwrap();
    assert_eq!(o.errors, 12);
    assert_eq!(o.warnings, 7);
}

#[test]
fn parse_summary_found_anywhere_in_last_line() {
    let o = Output::from_stdout("status OK (1 Errors, 2 Warnings) end").unwrap();
    assert_eq!(o.errors, 1);
    assert_eq!(o.warnings, 2);
}

#[test]
fn parse_empty_input_fails() {
    assert!(Output::from_stdout("").is_err());
}

#[test]
fn parse_wrong_keyword_fails() {
    assert!(Output::from_stdout("FINE (0 Errors, 0 Warnings)").is_err());
}

#[test]
fn parse_non_numeric_count_fails() {
    assert!(Output::from_stdout("OK (x Errors, 0 Warnings)").is_err());
}

#[test]
fn parse_missing_comma_fails() {
    assert!(Output::from_stdout("OK (0 Errors 0 Warnings)").is_err());
}

#[test]
fn parse_missing_space_before_keyword_fails() {
    assert!(Output::from_stdout("OK (0Errors, 0 Warnings)").is_err());
}

#[test]
fn parse_overflowing_count_fails() {
    assert!(Output::from_stdout("OK (4294967296 Errors, 0 Warnings)").is_err());
}

#[test]
fn parse_largest_count() {
    let o = Output::from_stdout("OK (4294967295 Errors, 0 Warnings)").unwrap();
    assert_eq!(o.errors, u32::MAX);
}

#[test]
fn parse_only_last_line_decides() {
    assert!(Output::from_stdout("OK (1 Errors, 2 Warnings)\ntrailing garbage").is_err());
}

#[test]
fn render_round_trip() {
    let o = Output::from_stdout("alpha\nbeta\nOK (5 Errors, 6 Warnings)").unwrap();
    assert_eq!(o.render(), "alpha\nbeta\nOK (5 Errors, 6 Warnings)");
    let o2 = Output::from_stdout(&o.render()).unwrap();
    assert_eq!(o2.lines, o.lines);
    assert_eq!(o2.errors, 5);
    assert_eq!(o2.warnings, 6);
}

#[test]
fn diag_line_error_prefix() {
    let (p, kuid, msg) = diag_line("- <kuid:12345:1:0> : broken mesh reference").unwrap();
    assert_eq!(p, '-');
    assert_eq!(kuid, "kuid:12345:1:0");
    assert_eq!(msg, "broken mesh reference");
}

#[test]
fn diag_line_all_prefixes() {
    assert_eq!(diag_line("+ <k> : fine").unwrap().0, '+');
    assert_eq!(diag_line("! <k> : watch out").unwrap().0, '!');
    assert_eq!(diag_line("; <k> : chatter").unwrap().0, ';');
}

#[test]
fn diag_line_backtracks_over_inner_bracket() {
    let (_, kuid, msg) = diag_line("- <a>b> : msg").unwrap();
    assert_eq!(kuid, "a>b");
    assert_eq!(msg, "msg");
}

#[test]
fn diag_line_takes_first_viable_close() {
    let (_, kuid, msg) = diag_line("- <a> : x > y").unwrap();
    assert_eq!(kuid, "a");
    assert_eq!(msg, "x > y");
}

#[test]
fn diag_line_rejects_plain_text() {
    assert!(diag_line("just some output").is_none());
    assert!(diag_line("").is_none());
    assert!(diag_line("- no brackets here : msg").is_none());
    assert!(diag_line("- <> : empty kuid").is_none());
}

#[test]
fn error_messages() {
    assert_eq!(Error::NotFound.message(), "TrainzUtil executable was not found");
    assert_eq!(
        Error::Unknown("permission denied".to_string()).message(),
        "Unknown error: permission denied"
    );
    let o = Output::from_stdout("bad thing\nOK (1 Errors, 0 Warnings)").unwrap();
    assert_eq!(
        Error::Failure(o).message(),
        "TrainzUtil command failed with following output:\n>bad thing\n>OK (1 Errors, 0 Warnings)"
    );
}
