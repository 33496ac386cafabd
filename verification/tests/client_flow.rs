use beam::board::{too_large_notice, QueuedFile, UploadBoard};
use beam::browser::{delete_question, notice, RenameDialog};
use beam::client::{PinPad, CHUNK_SIZE};
use beam::transfer::{ChunkUpload, TransferStep};

fn queued(path: &str, size: u64) -> QueuedFile {
    let name = path.rsplit('/').next().unwrap().to_string();
    QueuedFile { path: path.to_string(), name, size }
}

#[test]
fn empty_file_completes_after_opening() {
    let mut up = ChunkUpload::new(0, 5);
    assert!(matches!(up.opened(Ok(())), TransferStep::Complete));
}

#[test]
fn refused_opening_fails_without_cancel() {
    let mut up = ChunkUpload::new(10, 5);
    match up.opened(Err("Insufficient storage".to_string())) {
        TransferStep::Fail { message, cancel } => {
            assert_eq!(message, "Insufficient storage");
            assert!(!cancel);
        }
        _ => panic!("expected a failure"),
    }
}

#[test]
fn chunks_cover_the_file_in_order() {
    let size = 2 * CHUNK_SIZE + 5;
    let mut up = ChunkUpload::new(size, 5);
    assert!(matches!(up.opened(Ok(())), TransferStep::Send { start: 0, end } if end == CHUNK_SIZE));
    assert!(matches!(up.chunk_answered(Ok(())), TransferStep::Send { start, end } if start == CHUNK_SIZE && end == 2 * CHUNK_SIZE));
    assert!(matches!(up.chunk_answered(Ok(())), TransferStep::Send { start, end } if start == 2 * CHUNK_SIZE && end == size));
    assert!(matches!(up.chunk_answered(Ok(())), TransferStep::Complete));
    assert_eq!(up.position_now(), size);
}

#[test]
fn failed_chunk_is_retried_with_growing_waits_then_fails() {
    let mut up = ChunkUpload::new(100, 2);
    up.opened(Ok(()));
    match up.chunk_answered(Err("HTTP 500".to_string())) {
        TransferStep::Retry { attempt, max_retries, delay_ms, start, end } => {
            assert_eq!((attempt, max_retries, delay_ms, start, end), (1, 2, 1000, 0, 100));
        }
        _ => panic!("expected a retry"),
    }
    assert!(matches!(up.chunk_answered(Err("HTTP 500".to_string())), TransferStep::Retry { attempt: 2, delay_ms: 2000, .. }));
    match up.chunk_answered(Err("HTTP 502".to_string())) {
        TransferStep::Fail { message, cancel } => {
            assert_eq!(message, "Chunk upload failed: HTTP 502");
            assert!(cancel);
        }
        _ => panic!("expected a failure"),
    }
}

#[test]
fn not_found_on_retry_means_complete() {
    let mut up = ChunkUpload::new(100, 3);
    up.opened(Ok(()));
    // A first "404" is an ordinary failure.
    assert!(matches!(up.chunk_answered(Err("HTTP 404".to_string())), TransferStep::Retry { attempt: 1, .. }));
    assert!(matches!(up.chunk_answered(Err("HTTP 404".to_string())), TransferStep::Complete));
    assert_eq!(up.position_now(), 100);
}

#[test]
fn unreadable_chunk_fails() {
    let mut up = ChunkUpload::new(100, 3);
    up.opened(Ok(()));
    assert!(matches!(up.read_failed("Slice failed".to_string()), TransferStep::Fail { cancel: false, .. }));
}

#[test]
fn picking_files_keeps_those_within_the_limit() {
    let mut board = UploadBoard::new();
    let (start, big) = board.select(vec![queued("a.txt", 10), queued("dir/b.bin", 2000), queued("c.txt", 1000)], Some(1000), true);
    assert!(start);
    assert_eq!(big, vec!["b.bin".to_string()]);
    let paths: Vec<&str> = board.queued().iter().map(|f| f.path.as_str()).collect();
    assert_eq!(paths, vec!["a.txt", "c.txt"]);
    let (start, big) = board.select(vec![queued("x", 21474836481)], None, false);
    assert!(!start);
    assert_eq!(big, vec!["x".to_string()]);
    assert!(board.queued().is_empty());
}

#[test]
fn batch_ends_when_every_upload_finished() {
    let mut board = UploadBoard::new();
    board.select(vec![queued("a.txt", 10), queued("b.txt", 20)], None, false);
    assert!(board.start());
    assert!(board.is_uploading());
    assert!(!board.start());
    board.initialized("a.txt");
    board.progress("a.txt", 5, "uploading...".to_string(), None);
    assert!(!board.completed("a.txt"));
    assert!(board.is_uploading());
    assert!(board.failed("b.txt", "boom"));
    assert!(!board.is_uploading());
    assert!(board.queued().is_empty());
}

#[test]
fn empty_queue_does_not_start() {
    let mut board = UploadBoard::new();
    assert!(!board.start());
    assert!(!board.is_uploading());
}

#[test]
fn too_large_notice_lists_names() {
    let names = vec!["a.iso".to_string(), "b.iso".to_string()];
    assert_eq!(too_large_notice("Too large:", &names, 2 * 1073741824), "Too large: 2 (max 2 GB): a.iso, b.iso");
    assert_eq!(too_large_notice("Too large:", &names[..1].to_vec(), 5 * 1048576), "Too large: 1 (max 5 MB): a.iso");
}

#[test]
fn rename_dialog_confirms_trimmed_name() {
    let mut d = RenameDialog::new();
    assert!(!d.is_open());
    d.start("docs/a.txt".to_string(), "a.txt".to_string());
    assert_eq!(d.input_text(), "a.txt");
    d.input_changed("   ".to_string());
    assert!(d.confirm().is_none());
    assert!(d.is_open());
    d.input_changed("  b.txt ".to_string());
    assert_eq!(d.confirm(), Some(("docs/a.txt".to_string(), "b.txt".to_string())));
    assert!(!d.is_open());
    assert!(d.confirm().is_none());
    d.finished();
    assert_eq!(d.input_text(), "");
}

#[test]
fn rename_dialog_cancel_forgets_input() {
    let mut d = RenameDialog::new();
    d.start("x".to_string(), "x".to_string());
    d.cancel();
    assert!(!d.is_open());
    assert_eq!(d.input_text(), "");
}

#[test]
fn delete_question_names_last_part() {
    assert_eq!(delete_question("Delete \"", "docs/2024/report.pdf", "\"?"), "Delete \"report.pdf\"?");
    assert_eq!(notice("Deleted: ", "a.txt"), "Deleted: a.txt");
}

#[test]
fn refused_pin_locks_or_resets() {
    let mut pad = PinPad::new(4);
    pad.paste("12");
    pad.refused("");
    assert_eq!(pad.pin(), "12");
    pad.refused("Invalid PIN");
    assert_eq!(pad.pin(), "");
    pad.paste("1234");
    pad.refused("Too many attempts. Please try again later.");
    assert_eq!(pad.pin(), "1234");
    assert!(!pad.input(0, "5").redraw);
    assert_eq!(pad.pin(), "1234");
}
