use project_picker::item::{
    decimal_digits_of, decimal_string, no_results_item, normalize_workspace_path, Icon, Item,
    PathParts, Workspace,
};

fn workspace(id: i64, paths: &str) -> Workspace {
    Workspace { workspace_id: id, local_paths: paths.to_string() }
}

fn parts(text: Option<&str>, name: Option<&str>) -> PathParts {
    PathParts { text: text.map(|s| s.to_string()), file_name: name.map(|s| s.to_string()) }
}

#[test]
fn icon_new_is_a_file_icon() {
    let icon = Icon::new("/home/u/proj".to_string());
    assert_eq!(icon.path, "/home/u/proj");
    assert_eq!(icon.kind, "file");
}

#[test]
fn remote_workspace_path_gives_title_proj() {
    let item = Item::from(workspace(7, "vscode-remote://wsl/home/u/proj"));
    assert_eq!(item.title, "proj");
    assert_eq!(item.uid, "7");
    assert_eq!(item.subtitle, "//wsl/home/u/proj");
    assert_eq!(item.arg, "//wsl/home/u/proj");
    assert_eq!(item.icon.path, "//wsl/home/u/proj");
    assert_eq!(item.icon.kind, "file");
    assert_eq!(item.valid, None);
}

#[test]
fn prefix_before_first_slash_is_dropped() {
    let item = Item::from(workspace(42, "wsl/home/u/proj"));
    assert_eq!(item.title, "proj");
    assert_eq!(item.subtitle, "/home/u/proj");
    assert_eq!(item.arg, "/home/u/proj");
    assert_eq!(item.icon.path, "/home/u/proj");
}

#[test]
fn plain_workspace_path_is_kept() {
    let item = Item::from_workspace(&workspace(1, "/home/u/code/alpha"));
    assert_eq!(item.title, "alpha");
    assert_eq!(item.subtitle, "/home/u/code/alpha");
}

#[test]
fn workspace_path_without_slash_is_empty() {
    let (title, path) = normalize_workspace_path("no-slash-here");
    assert_eq!(title, "");
    assert_eq!(path, "");
}

#[test]
fn trailing_slashes_are_left_out_of_the_title() {
    let (title, path) = normalize_workspace_path("file:/srv/data///");
    assert_eq!(title, "data");
    assert_eq!(path, "/srv/data///");
}

#[test]
fn root_path_has_empty_title() {
    let (title, path) = normalize_workspace_path("/");
    assert_eq!(title, "");
    assert_eq!(path, "/");
}

#[test]
fn empty_workspace_path() {
    let (title, path) = normalize_workspace_path("");
    assert_eq!(title, "");
    assert_eq!(path, "");
}

#[test]
fn non_ascii_workspace_path() {
    let (title, path) = normalize_workspace_path("ssh\u{e9}:/home/\u{fc}ser/caf\u{e9}/");
    assert_eq!(title, "caf\u{e9}");
    assert_eq!(path, "/home/\u{fc}ser/caf\u{e9}/");
}

#[test]
fn uid_is_the_number_in_decimal() {
    assert_eq!(Item::from(workspace(0, "/a")).uid, "0");
    assert_eq!(Item::from(workspace(1234567890, "/a")).uid, "1234567890");
    assert_eq!(Item::from(workspace(-15, "/a")).uid, "-15");
    assert_eq!(Item::from(workspace(i64::MAX, "/a")).uid, "9223372036854775807");
    assert_eq!(Item::from(workspace(i64::MIN, "/a")).uid, "-9223372036854775808");
}

#[test]
fn item_from_path() {
    let item = Item::from_path(&parts(Some("/home/u/code/alpha"), Some("alpha"))).unwrap();
    assert_eq!(item.uid, "/home/u/code/alpha");
    assert_eq!(item.title, "alpha");
    assert_eq!(item.subtitle, "/home/u/code/alpha");
    assert_eq!(item.arg, "/home/u/code/alpha");
    assert_eq!(item.icon.path, "/home/u/code/alpha");
    assert_eq!(item.icon.kind, "file");
    assert_eq!(item.valid, None);
}

#[test]
fn no_item_without_text_or_name() {
    assert!(Item::from_path(&parts(None, Some("alpha"))).is_none());
    assert!(Item::from_path(&parts(Some("/"), None)).is_none());
    assert!(Item::from_path(&parts(None, None)).is_none());
}

#[test]
fn placeholder_item() {
    let item = no_results_item();
    assert_eq!(item.uid, "no-results");
    assert_eq!(item.title, "No results found");
    assert_eq!(item.subtitle, "Try a different search term");
    assert_eq!(item.icon.path, "icon.png");
    assert_eq!(item.icon.kind, "");
    assert_eq!(item.arg, "");
    assert_eq!(item.valid, Some(false));
}

#[test]
fn decimal_numerals() {
    assert_eq!(decimal_digits_of(0), "0");
    assert_eq!(decimal_digits_of(9), "9");
    assert_eq!(decimal_digits_of(10), "10");
    assert_eq!(decimal_digits_of(1234567890), "1234567890");
    assert_eq!(decimal_digits_of(u64::MAX), "18446744073709551615");
    assert_eq!(decimal_string(-1), "-1");
    assert_eq!(decimal_string(i64::MIN), "-9223372036854775808");
    assert_eq!(decimal_string(i64::MAX), "9223372036854775807");
    assert_eq!(decimal_string(0), "0");
    assert_eq!(decimal_string(-100), "-100");
}
