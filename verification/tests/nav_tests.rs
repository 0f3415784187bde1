use remote_fetch::state::AppState;
use remote_fetch::state::EntryKind;
use remote_fetch::state::InputEvent;
use remote_fetch::state::LogEntry;
use remote_fetch::state::NavAction;
use remote_fetch::transfer::Progress;
use remote_fetch::transfer::ProgressEvent;

fn b(s: &str) -> Vec<u8> {
    s.as_bytes().to_vec()
}

fn path(segs: &[&str]) -> Vec<Vec<u8>> {
    segs.iter().map(|s| b(s)).collect()
}

fn dir(name: &str) -> remote_fetch::state::RemoteEntry {
    remote_fetch::state::RemoteEntry { name: b(name), kind: EntryKind::Directory }
}

fn file(name: &str, size: u64) -> remote_fetch::state::RemoteEntry {
    remote_fetch::state::RemoteEntry { name: b(name), kind: EntryKind::File { size } }
}

#[test]
fn joining_segments_inserts_single_slashes() {
    assert_eq!(
        remote_fetch::bytes::join_path(&b("."), &path(&["sub", "f.txt"])),
        b("./sub/f.txt")
    );
    assert_eq!(remote_fetch::bytes::join_path(&b("/"), &path(&["a"])), b("/a"));
    assert_eq!(remote_fetch::bytes::join_path(&b("base"), &path(&[])), b("base"));
    assert_eq!(remote_fetch::bytes::join_path(&b(""), &path(&["a", "b"])), b("/a/b"));
}

#[test]
fn listing_order_below_root_has_parent_then_dirs_then_files() {
    let mut st = AppState::new(path(&["a"]));
    st.on_refresh_completed(vec![
        file("zeta.txt", 3),
        dir("beta"),
        file("alpha.txt", 1),
        dir("delta"),
    ]);
    let names: Vec<Vec<u8>> = st.items.iter().map(|e| e.name.clone()).collect();
    assert_eq!(st.items[0].kind, EntryKind::ParentLink);
    assert_eq!(names[0], b(".."));
    assert_eq!(names[1], b("beta"));
    assert_eq!(names[2], b("delta"));
    assert_eq!(names[3], b("alpha.txt"));
    assert_eq!(names[4], b("zeta.txt"));
    assert_eq!(st.selected, Some(0));
    assert_eq!(st.logs.last().unwrap(), &LogEntry::FetchCompleted { count: 5 });
}

#[test]
fn listing_order_at_root_has_no_parent() {
    let mut st = AppState::new(path(&[]));
    st.on_refresh_completed(vec![file("b.txt", 2), dir("a")]);
    assert_eq!(st.items.len(), 2);
    assert_eq!(st.items[0].name, b("a"));
    assert_eq!(st.items[0].kind, EntryKind::Directory);
    assert_eq!(st.items[1].name, b("b.txt"));
    assert_eq!(st.selected, Some(0));
}

#[test]
fn empty_listing_at_root_clears_selection() {
    let mut st = AppState::new(path(&[]));
    st.on_refresh_completed(vec![]);
    assert!(st.items.is_empty());
    assert_eq!(st.selected, None);
}

#[test]
fn selection_wraps_moving_down() {
    let mut st = AppState::new(path(&[]));
    st.on_refresh_completed(vec![file("a", 1), file("b", 1), file("c", 1)]);
    assert_eq!(st.selected, Some(0));
    st.select_next();
    assert_eq!(st.selected, Some(1));
    st.select_next();
    assert_eq!(st.selected, Some(2));
    st.select_next();
    assert_eq!(st.selected, Some(0));
}

#[test]
fn selection_wraps_moving_up() {
    let mut st = AppState::new(path(&[]));
    st.on_refresh_completed(vec![file("a", 1), file("b", 1), file("c", 1)]);
    st.select_previous();
    assert_eq!(st.selected, Some(2));
    st.select_previous();
    assert_eq!(st.selected, Some(1));
}

#[test]
fn five_moves_down_from_one_on_three_items_is_zero() {
    // (1 + 5) mod 3 == 0
    let mut st = AppState::new(path(&[]));
    st.on_refresh_completed(vec![file("a", 1), file("b", 1), file("c", 1)]);
    st.select_next();
    assert_eq!(st.selected, Some(1));
    for _ in 0..5 {
        st.select_next();
    }
    assert_eq!(st.selected, Some(0));
}

#[test]
fn moves_on_empty_list_do_nothing() {
    let mut st = AppState::new(path(&["a"]));
    st.select_next();
    st.select_previous();
    assert_eq!(st.selected, None);
}

#[test]
fn activating_parent_link_pops_path_and_asks_one_refresh() {
    let mut st = AppState::new(path(&["a", "b"]));
    st.on_refresh_completed(vec![file("x", 1)]);
    assert_eq!(st.selected, Some(0));
    // the parent link is the selected row
    assert_eq!(st.items[0].kind, EntryKind::ParentLink);
    let action = st.activate(false);
    assert_eq!(action, NavAction::Refresh);
    assert_eq!(st.current_path, path(&["a"]));
}

#[test]
fn activating_directory_pushes_segment_and_asks_refresh() {
    let mut st = AppState::new(path(&[]));
    st.on_refresh_completed(vec![dir("sub")]);
    let action = st.activate(false);
    assert_eq!(action, NavAction::Refresh);
    assert_eq!(st.current_path, path(&["sub"]));
}

#[test]
fn activating_directory_with_modifier_requests_recursive_download() {
    let mut st = AppState::new(path(&["top"]));
    st.on_refresh_completed(vec![dir("sub")]);
    st.select_next();
    // selected row is now the directory behind the parent link
    let action = st.activate(true);
    match action {
        NavAction::DownloadDir { path: p, name } => {
            assert_eq!(p, path(&["top", "sub"]));
            assert_eq!(name, b("sub"));
        }
        other => panic!("expected DownloadDir, got {:?}", other),
    }
    // the path did not change
    assert_eq!(st.current_path, path(&["top"]));
    assert_eq!(st.logs.last().unwrap(), &LogEntry::EnumerationStarted { name: b("sub") });
}

#[test]
fn activating_file_requests_download_and_fills_visible_slot() {
    let mut st = AppState::new(path(&[]));
    st.on_refresh_completed(vec![file("notes.txt", 42)]);
    let action = st.activate(false);
    match action {
        NavAction::DownloadFile { path: p, name, size } => {
            assert_eq!(p, path(&["notes.txt"]));
            assert_eq!(name, b("notes.txt"));
            assert_eq!(size, 42);
        }
        other => panic!("expected DownloadFile, got {:?}", other),
    }
    let slot = st.download_status.as_ref().unwrap();
    assert_eq!(slot.name, b("notes.txt"));
    assert_eq!(slot.progress, Progress::Started);
    assert_eq!(st.logs.last().unwrap(), &LogEntry::DownloadStarted { name: b("notes.txt") });
}

#[test]
fn failed_refresh_keeps_view_and_logs_reason() {
    let mut st = AppState::new(path(&[]));
    st.on_refresh_completed(vec![file("a", 1)]);
    let items_before = st.items.clone();
    st.on_refresh_failed(b("connection reset"));
    assert_eq!(st.items, items_before);
    assert_eq!(st.selected, Some(0));
    assert_eq!(st.logs.last().unwrap(), &LogEntry::ListFailed { reason: b("connection reset") });
}

#[test]
fn quit_event_raises_exit_flag() {
    let mut st = AppState::new(path(&[]));
    let action = st.on_input(InputEvent::Quit);
    assert_eq!(action, NavAction::Idle);
    assert!(st.exit);
}

#[test]
fn input_events_dispatch_to_the_matching_transition() {
    let mut st = AppState::new(path(&[]));
    st.on_refresh_completed(vec![dir("sub"), file("a", 1)]);
    assert_eq!(st.on_input(InputEvent::MoveDown), NavAction::Idle);
    assert_eq!(st.selected, Some(1));
    assert_eq!(st.on_input(InputEvent::MoveUp), NavAction::Idle);
    assert_eq!(st.selected, Some(0));
    let action = st.on_input(InputEvent::Activate { recursive: false });
    assert_eq!(action, NavAction::Refresh);
    assert_eq!(st.current_path, path(&["sub"]));
}

#[test]
fn progress_event_fills_slot_without_logging() {
    let mut st = AppState::new(path(&[]));
    let logs_before = st.logs.len();
    st.update_progress(ProgressEvent {
        name: b("f"),
        progress: Progress::InProgress { done: 3, total: 9 },
    });
    let slot = st.download_status.as_ref().unwrap();
    assert_eq!(slot.progress, Progress::InProgress { done: 3, total: 9 });
    assert_eq!(st.logs.len(), logs_before);
}

#[test]
fn completed_event_logs_and_clears_slot() {
    let mut st = AppState::new(path(&[]));
    st.update_progress(ProgressEvent {
        name: b("f"),
        progress: Progress::InProgress { done: 3, total: 9 },
    });
    st.update_progress(ProgressEvent { name: b("f"), progress: Progress::Completed });
    assert!(st.download_status.is_none());
    assert_eq!(st.logs.last().unwrap(), &LogEntry::DownloadCompleted { name: b("f") });
}

#[test]
fn failed_event_logs_reason_and_clears_slot() {
    let mut st = AppState::new(path(&[]));
    st.update_progress(ProgressEvent {
        name: b("f"),
        progress: Progress::Failed { reason: b("read error") },
    });
    assert!(st.download_status.is_none());
    assert_eq!(
        st.logs.last().unwrap(),
        &LogEntry::DownloadFailed { name: b("f"), reason: b("read error") }
    );
}
