use project_picker::filter::{filter_items, matches_lowered_text};
use project_picker::history::{history_database_path, Failure};
use project_picker::item::{Item, PathParts, Workspace};
use project_picker::listing::{
    collect_items, is_hidden, list_directories, list_recent_projects, sort_by_title, DirEntry,
};
use project_picker::response::{assemble, directory_response, parse_args, recent_response, Mode};
use project_picker::roots::{expand_roots, expand_tilde};

fn dir(path: &str) -> DirEntry {
    let name = path.rsplit('/').next().unwrap().to_string();
    DirEntry { path: PathParts { text: Some(path.to_string()), file_name: Some(name) }, is_dir: true }
}

fn file(path: &str) -> DirEntry {
    let mut e = dir(path);
    e.is_dir = false;
    e
}

fn titled(title: &str, subtitle: &str) -> Item {
    let mut item = Item::from_path(&PathParts {
        text: Some(subtitle.to_string()),
        file_name: Some(title.to_string()),
    })
    .unwrap();
    item.uid = format!("{title}@{subtitle}");
    item
}

fn titles(items: &Vec<Item>) -> Vec<String> {
    items.iter().map(|i| i.title.clone()).collect()
}

fn uids(items: &Vec<Item>) -> Vec<String> {
    items.iter().map(|i| i.uid.clone()).collect()
}

fn row(id: i64, path: &str) -> Option<Workspace> {
    Some(Workspace { workspace_id: id, local_paths: path.to_string() })
}

fn strings(v: &[&str]) -> Vec<String> {
    v.iter().map(|s| s.to_string()).collect()
}

#[test]
fn query_pro_keeps_proj_and_project2() {
    let items = vec![titled("proj", "/x/1"), titled("Project2", "/x/2"), titled("other", "/x/3")];
    let out = filter_items(items, Some("pro".to_string()));
    assert_eq!(titles(&out), vec!["proj", "Project2"]);
}

#[test]
fn query_in_upper_case_matches() {
    let items = vec![titled("proj", "/x/1"), titled("Project2", "/x/2"), titled("other", "/x/3")];
    let out = filter_items(items, Some("PRO".to_string()));
    assert_eq!(titles(&out), vec!["proj", "Project2"]);
}

#[test]
fn query_matches_subtitle() {
    let items = vec![titled("a", "/home/u/Work/a"), titled("b", "/srv/b")];
    let out = filter_items(items, Some("work".to_string()));
    assert_eq!(titles(&out), vec!["a"]);
}

#[test]
fn query_that_matches_nothing() {
    let items = vec![titled("proj", "/x/1"), titled("other", "/x/3")];
    let out = filter_items(items, Some("zzz".to_string()));
    assert!(out.is_empty());
}

#[test]
fn no_query_and_empty_query_keep_all() {
    let items = vec![titled("proj", "/x/1"), titled("other", "/x/3")];
    assert_eq!(titles(&filter_items(items, None)), vec!["proj", "other"]);
    let items = vec![titled("proj", "/x/1"), titled("other", "/x/3")];
    assert_eq!(titles(&filter_items(items, Some(String::new()))), vec!["proj", "other"]);
}

#[test]
fn filtering_twice_is_filtering_once() {
    let items = vec![
        titled("proj", "/x/1"),
        titled("Project2", "/x/2"),
        titled("other", "/pro/3"),
        titled("none", "/x/4"),
    ];
    let once = filter_items(items, Some("Pro".to_string()));
    let first = uids(&once);
    let twice = filter_items(once, Some("Pro".to_string()));
    assert_eq!(uids(&twice), first);
    assert_eq!(titles(&twice), vec!["proj", "Project2", "other"]);
}

#[test]
fn lowered_match_is_substring_containment() {
    assert!(matches_lowered_text("project", "/x", "jec"));
    assert!(matches_lowered_text("a", "/home/work", "me/w"));
    assert!(!matches_lowered_text("project", "/x", "pjt"));
    assert!(!matches_lowered_text("project", "/x", "Pro"));
    assert!(matches_lowered_text("", "", ""));
}

#[test]
fn item_matches_lowered_query() {
    let item = titled("Project2", "/X/2");
    assert!(item.matches("project"));
    assert!(item.matches("/x/"));
    assert!(!item.matches("other"));
}

#[test]
fn banana_and_apple_are_sorted_without_regard_to_case() {
    let entries = vec![dir("/r/Banana"), dir("/r/apple")];
    let out = list_directories(&entries, None);
    assert_eq!(titles(&out), vec!["apple", "Banana"]);
}

#[test]
fn equal_titles_keep_their_order() {
    let entries = vec![
        dir("/r1/beta"),
        dir("/r1/Alpha"),
        dir("/r2/alpha"),
        dir("/r3/ALPHA"),
        dir("/r2/Beta"),
    ];
    let out = list_directories(&entries, None);
    assert_eq!(
        uids(&out),
        vec!["/r1/Alpha", "/r2/alpha", "/r3/ALPHA", "/r1/beta", "/r2/Beta"]
    );
}

#[test]
fn sort_orders_by_code_point() {
    let items = vec![titled("b", "1"), titled("a", "2"), titled("ab", "3"), titled("", "4"),
        titled("\u{e9}", "5"), titled("Z", "6"), titled("a", "7")];
    let out = sort_by_title(items);
    assert_eq!(uids(&out), vec!["@4", "a@2", "a@7", "ab@3", "b@1", "Z@6", "\u{e9}@5"]);
}

#[test]
fn sort_of_nothing() {
    assert!(sort_by_title(Vec::new()).is_empty());
}

#[test]
fn hidden_directories_are_left_out() {
    let entries = vec![dir("/r/.git"), dir("/r/src"), dir("/r/.config"), file("/r/notes")];
    assert_eq!(titles(&list_directories(&entries, None)), vec!["src"]);
    assert!(list_directories(&entries, Some("git".to_string())).is_empty());
    assert!(list_directories(&entries, Some(".".to_string())).is_empty());
    assert_eq!(titles(&collect_items(&entries)), vec!["src"]);
}

#[test]
fn hidden_names() {
    assert!(is_hidden(&PathParts { text: None, file_name: Some(".git".to_string()) }));
    assert!(!is_hidden(&PathParts { text: None, file_name: Some("git.".to_string()) }));
    assert!(!is_hidden(&PathParts { text: None, file_name: Some(String::new()) }));
    assert!(!is_hidden(&PathParts { text: None, file_name: None }));
}

#[test]
fn entries_without_text_are_dropped() {
    let entries = vec![
        DirEntry { path: PathParts { text: None, file_name: Some("a".to_string()) }, is_dir: true },
        DirEntry { path: PathParts { text: Some("/r/..".to_string()), file_name: None }, is_dir: true },
        dir("/r/b"),
    ];
    assert_eq!(titles(&list_directories(&entries, None)), vec!["b"]);
}

#[test]
fn listing_is_sorted_then_filtered() {
    let entries = vec![dir("/r/web-Zeta"), dir("/r/api"), dir("/r/Web-alpha")];
    let out = list_directories(&entries, Some("WEB".to_string()));
    assert_eq!(titles(&out), vec!["Web-alpha", "web-Zeta"]);
}

#[test]
fn home_root_and_subdirectory() {
    let roots = expand_roots("~/code", "/home/u");
    assert_eq!(roots, vec!["/home/u/code"]);
    let entries = vec![dir("/home/u/code/alpha")];
    let out = list_directories(&entries, None);
    assert_eq!(out.len(), 1);
    assert_eq!(out[0].title, "alpha");
    assert_eq!(out[0].arg, "/home/u/code/alpha");
    assert_eq!(out[0].uid, "/home/u/code/alpha");
}

#[test]
fn roots_are_trimmed_and_blank_lines_skipped() {
    let roots = expand_roots("  /srv/a \r\n\n   \n~/b\n~\n/c/~/d\n", "/home/u");
    assert_eq!(roots, vec!["/srv/a", "/home/u/b", "/home/u", "/c/~/d"]);
}

#[test]
fn no_roots() {
    assert!(expand_roots("", "/home/u").is_empty());
    assert!(expand_roots("\n \n", "/home/u").is_empty());
}

#[test]
fn tilde_with_empty_home() {
    assert_eq!(expand_tilde("~/code", ""), "/code");
    assert_eq!(expand_tilde("~~", "/h"), "/h~");
    assert_eq!(expand_tilde("/a/~", "/h"), "/a/~");
    assert_eq!(expand_tilde("", "/h"), "");
}

#[test]
fn recent_projects_keep_their_order() {
    let rows = vec![row(3, "file:/w/zeta"), row(1, "/w/alpha"), row(2, "/w/mid")];
    let out = list_recent_projects(&rows, None);
    assert_eq!(uids(&out), vec!["3", "1", "2"]);
    assert_eq!(titles(&out), vec!["zeta", "alpha", "mid"]);
    let out = list_recent_projects(&rows, Some("A".to_string()));
    assert_eq!(uids(&out), vec!["3", "1"]);
}

#[test]
fn rows_that_were_not_decoded_are_skipped() {
    let rows = vec![None, row(3, "/w/zeta"), None, None, row(1, "/w/alpha"), None];
    assert_eq!(uids(&list_recent_projects(&rows, None)), vec!["3", "1"]);
    assert_eq!(uids(&list_recent_projects(&rows, Some("ALPHA".to_string()))), vec!["1"]);
    assert!(list_recent_projects(&vec![None, None], None).is_empty());
    let response = recent_response(&vec![None], None);
    assert_eq!(uids(&response.items), vec!["no-results"]);
}

#[test]
fn empty_result_gives_the_placeholder() {
    let rows = vec![row(1, "/w/alpha")];
    let response = recent_response(&rows, Some("zzz".to_string()));
    assert_eq!(response.items.len(), 1);
    assert_eq!(response.items[0].uid, "no-results");
    assert_eq!(response.items[0].valid, Some(false));
    let response = directory_response(&Vec::new(), None);
    assert_eq!(response.items.len(), 1);
    assert_eq!(response.items[0].uid, "no-results");
    assert_eq!(response.items[0].valid, Some(false));
}

#[test]
fn results_carry_no_valid_field() {
    let rows = vec![row(1, "/w/alpha"), row(2, "/w/beta")];
    let response = recent_response(&rows, Some("w".to_string()));
    assert_eq!(response.items.len(), 2);
    assert!(response.items.iter().all(|i| i.valid.is_none()));
    let response = directory_response(&vec![dir("/r/b"), dir("/r/a")], None);
    assert_eq!(titles(&response.items), vec!["a", "b"]);
    assert!(response.items.iter().all(|i| i.valid.is_none()));
}

#[test]
fn assemble_keeps_given_items() {
    let response = assemble(vec![titled("a", "/a")]);
    assert_eq!(titles(&response.items), vec!["a"]);
    let response = assemble(Vec::new());
    assert_eq!(titles(&response.items), vec!["No results found"]);
}

#[test]
fn arguments() {
    let inv = parse_args(&strings(&["prog"]));
    assert_eq!(inv.mode, Mode::Recent);
    assert_eq!(inv.query, None);
    let inv = parse_args(&strings(&["prog", "foo", "bar"]));
    assert_eq!(inv.mode, Mode::Recent);
    assert_eq!(inv.query, Some("foo".to_string()));
    let inv = parse_args(&strings(&["prog", "--dirs"]));
    assert_eq!(inv.mode, Mode::Dirs);
    assert_eq!(inv.query, None);
    let inv = parse_args(&strings(&["prog", "--dirs", "foo"]));
    assert_eq!(inv.mode, Mode::Dirs);
    assert_eq!(inv.query, Some("foo".to_string()));
    let inv = parse_args(&strings(&["prog", "foo", "--dirs"]));
    assert_eq!(inv.mode, Mode::Recent);
    assert_eq!(inv.query, Some("foo".to_string()));
    let inv = parse_args(&strings(&[]));
    assert_eq!(inv.mode, Mode::Recent);
    assert_eq!(inv.query, None);
}

#[test]
fn database_path_below_the_configuration_directory() {
    let path = history_database_path(Some("/home/u/.config".to_string()));
    assert_eq!(path.unwrap(), "/home/u/.config/Zed/db/0-stable/db.sqlite");
    assert!(matches!(history_database_path(None), Err(Failure::ConfigUnavailable)));
}

#[test]
fn failure_messages() {
    assert_eq!(Failure::ConfigUnavailable.message(), "configuration directory not found");
    assert_eq!(
        Failure::StorageUnavailable("no such file".to_string()).message(),
        "history unavailable: no such file"
    );
    assert_eq!(
        Failure::Serialization("broken pipe".to_string()).message(),
        "cannot write the result: broken pipe"
    );
}
