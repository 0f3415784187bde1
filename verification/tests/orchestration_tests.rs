use remote_fetch::enumerate::EnumCommand;
use remote_fetch::enumerate::Enumerator;
use remote_fetch::launch::LaunchCommand;
use remote_fetch::launch::Launcher;
use remote_fetch::state::AppState;
use remote_fetch::state::EntryKind;
use remote_fetch::state::LogEntry;
use remote_fetch::state::RemoteEntry;
use remote_fetch::transfer::Progress;
use remote_fetch::transfer::ProgressEvent;
use remote_fetch::transfer::TransferTask;
use remote_fetch::LAUNCH_DELAY_MS;

fn b(s: &str) -> Vec<u8> {
    s.as_bytes().to_vec()
}

fn path(segs: &[&str]) -> Vec<Vec<u8>> {
    segs.iter().map(|s| b(s)).collect()
}

fn dir(name: &str) -> RemoteEntry {
    RemoteEntry { name: b(name), kind: EntryKind::Directory }
}

fn file(name: &str, size: u64) -> RemoteEntry {
    RemoteEntry { name: b(name), kind: EntryKind::File { size } }
}

#[test]
fn launches_come_one_per_file_in_order_with_the_fixed_delay() {
    let files = {
        let mut e = Enumerator::new(path(&["d"]));
        assert_eq!(e.step(), EnumCommand::ListDir { path: path(&["d"]) });
        e.on_listed(vec![file("x", 1), file("y", 2)]);
        assert_eq!(e.step(), EnumCommand::Finished);
        e.into_result().unwrap()
    };
    let mut launcher = Launcher::new(files);
    match launcher.next_launch() {
        LaunchCommand::Spawn { file, delay_ms } => {
            assert_eq!(file.path, path(&["d", "x"]));
            assert_eq!(delay_ms, LAUNCH_DELAY_MS);
        }
        other => panic!("expected a spawn, got {:?}", other),
    }
    match launcher.next_launch() {
        LaunchCommand::Spawn { file, delay_ms } => {
            assert_eq!(file.path, path(&["d", "y"]));
            assert_eq!(delay_ms, LAUNCH_DELAY_MS);
        }
        other => panic!("expected a spawn, got {:?}", other),
    }
    assert_eq!(launcher.next_launch(), LaunchCommand::Finished);
}

/// The end-to-end scenario: `/data` holds `a.txt` (10 bytes) and `sub/`
/// holding `b.txt` (5 bytes); a recursive download of `/data` transfers both
/// files whole, paces the two launches, and the log shows two completions.
#[test]
fn recursive_download_of_data_completes_both_files() {
    let mut st = AppState::new(path(&[]));

    // discovery: the enumerator walks /data
    let mut e = Enumerator::new(path(&["data"]));
    assert_eq!(e.step(), EnumCommand::ListDir { path: path(&["data"]) });
    e.on_listed(vec![file("a.txt", 10), dir("sub")]);
    assert_eq!(e.step(), EnumCommand::ListDir { path: path(&["data", "sub"]) });
    e.on_listed(vec![file("b.txt", 5)]);
    assert_eq!(e.step(), EnumCommand::Finished);
    let found = e.into_result().unwrap();
    assert_eq!(found.len(), 2);
    st.log(LogEntry::EnumerationCompleted { count: found.len() });

    // download phase: one worker per file, launches paced by the fixed delay
    let mut launcher = Launcher::new(found);
    let mut delays: Vec<u64> = Vec::new();
    loop {
        let cmd = launcher.next_launch();
        let (file, delay_ms) = match cmd {
            LaunchCommand::Spawn { file, delay_ms } => (file, delay_ms),
            LaunchCommand::Finished => break,
        };
        delays.push(delay_ms);
        let name = file.path.last().unwrap().clone();
        let size = file.size;
        let mut task = TransferTask::new(file.path, name, size);
        st.update_progress(task.start());
        // the worker copies in fixed-size chunks; these files fit in one
        let mut left = size;
        while left > 0 {
            let chunk = left.min(remote_fetch::CHUNK_SIZE as u64);
            st.update_progress(task.on_chunk(chunk as usize));
            left -= chunk;
        }
        assert_eq!(task.bytes_done, size);
        st.update_progress(task.on_eof());
    }

    // both launches carried the configured inter-launch delay
    assert_eq!(delays, vec![LAUNCH_DELAY_MS, LAUNCH_DELAY_MS]);

    // the aggregator logged exactly two completions, and cleared the slot
    let completions: Vec<&LogEntry> = st
        .logs
        .iter()
        .filter(|l| matches!(l, LogEntry::DownloadCompleted { .. }))
        .collect();
    assert_eq!(completions.len(), 2);
    assert_eq!(completions[0], &LogEntry::DownloadCompleted { name: b("a.txt") });
    assert_eq!(completions[1], &LogEntry::DownloadCompleted { name: b("b.txt") });
    assert!(st.download_status.is_none());
}

#[test]
fn one_failed_listing_aborts_the_request_but_logs_only_once() {
    let mut st = AppState::new(path(&[]));
    let mut e = Enumerator::new(path(&["data"]));
    assert_eq!(e.step(), EnumCommand::ListDir { path: path(&["data"]) });
    e.on_list_failed(b("no route to host"));
    match e.into_result() {
        Err(reason) => st.log(LogEntry::EnumerationFailed { reason }),
        Ok(_) => panic!("enumeration should have failed"),
    }
    let failures = st
        .logs
        .iter()
        .filter(|l| matches!(l, LogEntry::EnumerationFailed { .. }))
        .count();
    assert_eq!(failures, 1);
}

#[test]
fn updating_progress_emits_in_progress_events_with_running_totals() {
    let mut st = AppState::new(path(&[]));
    st.update_progress(ProgressEvent {
        name: b("a.txt"),
        progress: Progress::InProgress { done: 4, total: 10 },
    });
    st.update_progress(ProgressEvent {
        name: b("a.txt"),
        progress: Progress::InProgress { done: 10, total: 10 },
    });
    let slot = st.download_status.as_ref().unwrap();
    assert_eq!(slot.progress, Progress::InProgress { done: 10, total: 10 });
}
