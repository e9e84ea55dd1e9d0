use indexref::sources_config::SourcesConfig;
use indexref::watcher::{any_change, concerns_file, EventKind, FileEvent, SyncSupervisor, WatchAction, WatchedPaths};

fn strings(v: &[&str]) -> Vec<String> {
    v.iter().map(|s| s.to_string()).collect()
}

fn event(kind: EventKind, path: &str) -> FileEvent {
    FileEvent { kind, path: path.to_string() }
}

#[test]
fn watch_plan_reaches_the_new_directories() {
    let mut w = WatchedPaths::new();
    w.insert("/a");
    w.insert("/b");
    w.insert("/a");
    let plan = w.plan_update(&strings(&["/b", "/c", "/c"]));
    assert_eq!(plan.to_delete, vec!["/a"]);
    assert_eq!(plan.to_add, vec!["/c"]);
    for p in &plan.to_delete {
        w.remove(p);
    }
    for p in &plan.to_add {
        w.insert(p);
    }
    assert!(!w.contains("/a"));
    assert!(w.contains("/b"));
    assert!(w.contains("/c"));
    let again = w.plan_update(&strings(&["/c", "/b"]));
    assert!(again.to_delete.is_empty());
    assert!(again.to_add.is_empty());
}

#[test]
fn file_events_concern_the_file_when_settled() {
    let events = vec![event(EventKind::AnyContinuous, "/cfg/config.json"), event(EventKind::Any, "/cfg/other.json")];
    assert!(!concerns_file(&events, "/cfg/config.json"));
    let events = vec![event(EventKind::Any, "/cfg//config.json")];
    assert!(concerns_file(&events, "/cfg/config.json"));
    assert!(any_change(&events));
    assert!(!any_change(&vec![event(EventKind::AnyContinuous, "/x")]));
    assert!(!any_change(&vec![]));
}

#[test]
fn supervisor_restarts_sync_on_changes() {
    let mut s = SyncSupervisor::new();
    let sources = SourcesConfig::new(strings(&["/t"]), vec![], strings(&["/b"]), vec![]);
    let first = s.on_config(&sources);
    assert_eq!(first.len(), 2);
    assert!(matches!(first[0], WatchAction::StartSync));
    match &first[1] {
        WatchAction::WatchDirs(d) => assert_eq!(d, &strings(&["/t", "/b"])),
        other => panic!("unexpected {other:?}"),
    }
    assert!(s.on_files_changed(&vec![event(EventKind::AnyContinuous, "/t/x")]).is_empty());
    let again = s.on_files_changed(&vec![event(EventKind::Any, "/t/x")]);
    assert!(matches!(again.as_slice(), [WatchAction::AbortSync, WatchAction::StartSync]));
    let reload = s.on_config(&sources);
    assert_eq!(reload.len(), 3);
    assert!(matches!(reload[0], WatchAction::AbortSync));
}

#[test]
fn watched_directories_compare_as_paths() {
    let mut w = WatchedPaths::new();
    w.insert("/a/b");
    assert!(w.contains("/a/b/"));
    assert!(w.contains("/a/./b"));
    assert!(w.contains("/a//b"));
    assert!(!w.contains("/a/c"));
    let plan = w.plan_update(&strings(&["/a/b/"]));
    assert!(plan.to_delete.is_empty());
    assert!(plan.to_add.is_empty());
    w.insert("/a/b/");
    let plan = w.plan_update(&strings(&[]));
    assert_eq!(plan.to_delete, vec!["/a/b"]);
    w.remove("/a/./b");
    assert!(!w.contains("/a/b"));
}

#[test]
fn failed_calls_leave_their_directories_as_they_were() {
    let mut w = WatchedPaths::new();
    w.insert("/a");
    w.insert("/b");
    let plan = w.plan_update(&strings(&["/b", "/c", "/d", "/c/"]));
    assert_eq!(plan.to_delete, vec!["/a"]);
    assert_eq!(plan.to_add, vec!["/c", "/d"]);
    // unwatching /a fails, watching /c succeeds and watching /d fails
    w.insert("/c");
    assert!(w.contains("/a"));
    assert!(w.contains("/b"));
    assert!(w.contains("/c"));
    assert!(!w.contains("/d"));
}
