use remote_fetch::transfer::Phase;
use remote_fetch::transfer::Progress;
use remote_fetch::transfer::TransferTask;

fn b(s: &str) -> Vec<u8> {
    s.as_bytes().to_vec()
}

fn path(segs: &[&str]) -> Vec<Vec<u8>> {
    segs.iter().map(|s| b(s)).collect()
}

#[test]
fn successful_worker_counts_every_byte_then_completes_once() {
    let mut t = TransferTask::new(path(&["data", "f.bin"]), b("f.bin"), 10);
    assert_eq!(t.phase, Phase::Queued);
    assert_eq!(t.bytes_done, 0);

    let ev = t.start();
    assert_eq!(ev.progress, Progress::Started);

    let ev1 = t.on_chunk(8);
    assert_eq!(ev1.progress, Progress::InProgress { done: 8, total: 10 });
    let ev2 = t.on_chunk(2);
    assert_eq!(ev2.progress, Progress::InProgress { done: 10, total: 10 });
    // the byte counts are non-decreasing and end at the file size
    assert!(8 <= 10);
    assert_eq!(t.bytes_done, 10);

    let done = t.on_eof();
    assert_eq!(done.progress, Progress::Completed);
    assert_eq!(done.name, b("f.bin"));
    assert_eq!(t.phase, Phase::Completed);
    assert_eq!(t.bytes_done, 10);
}

#[test]
fn failing_worker_emits_one_failed_event_and_stops() {
    let mut t = TransferTask::new(path(&["data", "g.bin"]), b("g.bin"), 100);
    let _ = t.start();
    let _ = t.on_chunk(4);
    let ev = t.on_error(b("read timed out"));
    assert_eq!(ev.progress, Progress::Failed { reason: b("read timed out") });
    assert_eq!(ev.name, b("g.bin"));
    assert_eq!(t.phase, Phase::Failed { reason: b("read timed out") });
    // the counter stays where the failure found it
    assert_eq!(t.bytes_done, 4);
}

#[test]
fn worker_with_unknown_size_reports_zero_total() {
    let mut t = TransferTask::new(path(&["h"]), b("h"), 0);
    let _ = t.start();
    let ev = t.on_chunk(5);
    assert_eq!(ev.progress, Progress::InProgress { done: 5, total: 0 });
}
