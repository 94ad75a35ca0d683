use tzbuildasset::kuid::{config_kuid, config_username, dummy_kuid_string, rewrite_config};

#[test]
fn kuid_basic() {
    assert_eq!(
        config_kuid("kuid <kuid:12345:1:0>\n").unwrap(),
        "kuid:12345:1:0"
    );
}

#[test]
fn kuid_two_part() {
    assert_eq!(config_kuid("kuid <kuid:411809:101505>").unwrap(), "kuid:411809:101505");
}

#[test]
fn kuid2_tag() {
    assert_eq!(config_kuid("kuid <kuid2:411809:101505:2>").unwrap(), "kuid2:411809:101505:2");
}

#[test]
fn kuid_keyword_case_insensitive() {
    assert_eq!(config_kuid("KUID <KUID2:1:2:3>").unwrap(), "KUID2:1:2:3");
}

#[test]
fn kuid_must_start_line() {
    assert!(config_kuid("  kuid <kuid:1:2>").is_none());
    assert!(config_kuid("askuid <kuid:1:2>").is_none());
}

#[test]
fn kuid_on_later_line() {
    let text = "username \"Thing\"\nkind traincar\nkuid\t<kuid:7:8>\r\nmesh body\n";
    assert_eq!(config_kuid(text).unwrap(), "kuid:7:8");
}

#[test]
fn kuid_rejects_malformed_tags() {
    assert!(config_kuid("kuid <kuid:1>").is_none());
    assert!(config_kuid("kuid <kuid:1:2:3:4>").is_none());
    assert!(config_kuid("kuid <kuid:1:2x>").is_none());
    assert!(config_kuid("kuid <quid:1:2>").is_none());
    assert!(config_kuid("kuid kuid:1:2").is_none());
    assert!(config_kuid("kuid<kuid:1:2>").is_none());
}

#[test]
fn username_basic() {
    assert_eq!(config_username("username \"Test Asset\"\n").unwrap(), "Test Asset");
}

#[test]
fn username_needs_closing_quote() {
    assert!(config_username("username \"unterminated").is_none());
}

#[test]
fn username_empty_quotes() {
    assert_eq!(config_username("username \"\"").unwrap(), "");
}

#[test]
fn username_case_insensitive() {
    assert_eq!(config_username("Username \"X\"").unwrap(), "X");
}

#[test]
fn dummy_identity_value() {
    assert_eq!(dummy_kuid_string(), "kuid:298469:999999");
}

#[test]
fn rewrite_replaces_tag_only() {
    let text = "kind traincar\nkuid <kuid:12345:1:0> trailing\nusername \"T\"\n";
    let rewritten = rewrite_config(text);
    assert_eq!(
        rewritten,
        "kind traincar\nkuid <kuid:298469:999999> trailing\nusername \"T\"\n"
    );
}

#[test]
fn rewrite_without_match_is_identity() {
    let text = "no identity here\n";
    assert_eq!(rewrite_config(text), text);
}

#[test]
fn rewrite_is_idempotent() {
    let text = "kuid <kuid2:9:8:7>\nusername \"A\"\n";
    let once = rewrite_config(text);
    let twice = rewrite_config(&once);
    assert_eq!(once, twice);
    assert_eq!(config_kuid(&once).unwrap(), "kuid:298469:999999");
}

#[test]
fn rewrite_touches_first_matching_line_only() {
    let text = "kuid <kuid:1:2>\nkuid <kuid:3:4>\n";
    assert_eq!(rewrite_config(text), "kuid <kuid:298469:999999>\nkuid <kuid:3:4>\n");
}
