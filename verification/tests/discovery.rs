use tzbuildasset::locate::{locate_assets, DirTree, SubDir};

fn dir(config: Option<&str>, subdirs: Vec<(&str, DirTree)>) -> DirTree {
    DirTree {
        config: config.map(|s| s.to_string()),
        subdirs: subdirs
            .into_iter()
            .map(|(name, tree)| SubDir { name: name.to_string(), tree })
            .collect(),
    }
}

#[test]
fn root_asset_found_without_recursion() {
    let tree = dir(Some("kuid <kuid:12345:1:0>\nusername \"Test Asset\"\n"), vec![]);
    let assets = locate_assets(&tree, false);
    assert_eq!(assets.len(), 1);
    assert_eq!(assets[0].name, "Test Asset");
    assert_eq!(assets[0].kuid, "kuid:12345:1:0");
    assert!(assets[0].path.is_empty());
}

#[test]
fn nonrecursive_without_marker_is_empty() {
    let child = dir(Some("kuid <kuid:1:2>"), vec![]);
    let tree = dir(None, vec![("a", child)]);
    assert!(locate_assets(&tree, false).is_empty());
}

#[test]
fn matched_root_is_never_searched_further() {
    let nested = dir(Some("kuid <kuid:9:9>"), vec![]);
    let inner = dir(None, vec![("deep", nested)]);
    let root = dir(Some("kuid <kuid:1:2>"), vec![("inner", inner)]);
    let assets = locate_assets(&root, true);
    assert_eq!(assets.len(), 1);
    assert_eq!(assets[0].kuid, "kuid:1:2");
}

#[test]
fn marker_without_identity_stops_descent() {
    let child = dir(Some("kuid <kuid:1:2>"), vec![]);
    let root = dir(Some("no identity in this file"), vec![("a", child)]);
    assert!(locate_assets(&root, true).is_empty());
}

#[test]
fn version_control_directories_are_skipped() {
    let hidden = dir(Some("kuid <kuid:5:5>"), vec![]);
    let hidden2 = dir(Some("kuid <kuid:6:6>"), vec![]);
    let visible = dir(Some("kuid <kuid:7:7>"), vec![]);
    let root = dir(None, vec![(".git", hidden), (".hg", hidden2), ("asset", visible)]);
    let assets = locate_assets(&root, true);
    assert_eq!(assets.len(), 1);
    assert_eq!(assets[0].kuid, "kuid:7:7");
    assert_eq!(assets[0].path, vec!["asset".to_string()]);
}

#[test]
fn siblings_found_in_enumeration_order() {
    let a = dir(Some("kuid <kuid:1:1>\nusername \"A\"\n"), vec![]);
    let b = dir(Some("kuid <kuid:2:2>\nusername \"B\"\n"), vec![]);
    let root = dir(None, vec![("a", a), ("b", b)]);
    let assets = locate_assets(&root, true);
    assert_eq!(assets.len(), 2);
    assert_eq!(assets[0].name, "A");
    assert_eq!(assets[0].path, vec!["a".to_string()]);
    assert_eq!(assets[1].name, "B");
    assert_eq!(assets[1].path, vec!["b".to_string()]);
}

#[test]
fn name_falls_back_to_bracketed_identity() {
    let tree = dir(Some("kuid <kuid:3:4>\n"), vec![]);
    let assets = locate_assets(&tree, false);
    assert_eq!(assets[0].name, "<kuid:3:4>");
    let tree2 = dir(Some("kuid <kuid:3:4>\nusername \"\"\n"), vec![]);
    let assets2 = locate_assets(&tree2, false);
    assert_eq!(assets2[0].name, "<kuid:3:4>");
}

#[test]
fn deep_nesting_yields_full_relative_path() {
    let leaf = dir(Some("kuid <kuid:8:8>"), vec![]);
    let mid = dir(None, vec![("inner", leaf)]);
    let root = dir(None, vec![("outer", mid)]);
    let assets = locate_assets(&root, true);
    assert_eq!(assets.len(), 1);
    assert_eq!(assets[0].path, vec!["outer".to_string(), "inner".to_string()]);
}
