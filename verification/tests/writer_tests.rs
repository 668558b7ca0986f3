use chat_core::writer::DatabaseWriter;
use chat_core::writer::Persistence;
use chat_core::writer::QueueError;
use chat_core::writer::WriteOp;

/// A collaborator that records every call it receives, in order, and
/// reports the success it was built with.
struct Recorder {
    calls: Vec<String>,
    succeed: bool,
}

impl Recorder {
    fn new(succeed: bool) -> Recorder {
        Recorder { calls: Vec::new(), succeed }
    }
}

impl Persistence for Recorder {
    fn persist_transcription(
        &mut self,
        guild_id: u64,
        channel_id: u64,
        user_id: u64,
        content: &str,
        username: &str,
        duration_ms: u64,
    ) -> bool {
        self.calls.push(format!(
            "t:{}:{}:{}:{}:{}:{}",
            guild_id, channel_id, user_id, content, username, duration_ms
        ));
        self.succeed
    }

    fn persist_generic(&mut self, table: &str, data: &str) -> bool {
        self.calls.push(format!("g:{}:{}", table, data));
        self.succeed
    }
}

#[test]
fn fresh_queue_has_nothing_pending() {
    let w = DatabaseWriter::new();
    assert_eq!(w.pending_writes(), 0);
}

#[test]
fn drain_delivers_in_submission_order_exactly_once() {
    let mut w = DatabaseWriter::new();
    assert!(w
        .queue_transcription(1, 2, 3, "hello".to_string(), "alice".to_string(), 1500)
        .is_ok());
    assert!(w.queue_write("stats".to_string(), "{\"n\":1}".to_string()).is_ok());
    assert!(w
        .queue_transcription(4, 5, 6, "bye".to_string(), "bob".to_string(), 700)
        .is_ok());
    assert_eq!(w.pending_writes(), 3);

    let mut rec = Recorder::new(true);
    let done = w.process_writes(&mut rec);

    assert_eq!(done.len(), 3);
    assert_eq!(
        rec.calls,
        vec![
            "t:1:2:3:hello:alice:1500".to_string(),
            "g:stats:{\"n\":1}".to_string(),
            "t:4:5:6:bye:bob:700".to_string(),
        ]
    );
    assert_eq!(w.pending_writes(), 0);
}

#[test]
fn drain_of_empty_queue_does_nothing() {
    let mut w = DatabaseWriter::new();
    let mut rec = Recorder::new(true);
    let done = w.process_writes(&mut rec);
    assert!(done.is_empty());
    assert!(rec.calls.is_empty());
    assert_eq!(w.pending_writes(), 0);
}

#[test]
fn enqueue_after_close_is_a_hard_error() {
    let mut w = DatabaseWriter::new();
    w.close();
    assert_eq!(
        w.queue_write("t".to_string(), "{}".to_string()),
        Err(QueueError::WorkerStopped)
    );
    assert_eq!(
        w.queue_transcription(1, 2, 3, "x".to_string(), "y".to_string(), 0),
        Err(QueueError::WorkerStopped)
    );
    assert_eq!(w.pending_writes(), 0);
}

#[test]
fn close_keeps_earlier_writes_for_the_drain() {
    let mut w = DatabaseWriter::new();
    assert!(w.queue_write("a".to_string(), "1".to_string()).is_ok());
    assert!(w.queue_write("b".to_string(), "2".to_string()).is_ok());
    w.close();
    assert_eq!(w.pending_writes(), 2);

    let mut rec = Recorder::new(true);
    let done = w.process_writes(&mut rec);
    assert_eq!(done.len(), 2);
    assert_eq!(rec.calls, vec!["g:a:1".to_string(), "g:b:2".to_string()]);
    assert_eq!(w.pending_writes(), 0);
}

#[test]
fn failing_collaborator_does_not_stop_the_drain() {
    let mut w = DatabaseWriter::new();
    assert!(w.queue_write("a".to_string(), "1".to_string()).is_ok());
    assert!(w.queue_write("b".to_string(), "2".to_string()).is_ok());
    let mut rec = Recorder::new(false);
    let done = w.process_writes(&mut rec);
    assert_eq!(done.len(), 2);
    assert_eq!(rec.calls.len(), 2);
    assert_eq!(w.pending_writes(), 0);
}

#[test]
fn delivered_operations_carry_their_fields() {
    let mut w = DatabaseWriter::new();
    assert!(w
        .queue_transcription(10, 20, 30, "words".to_string(), "carol".to_string(), 2500)
        .is_ok());
    let mut rec = Recorder::new(true);
    let done = w.process_writes(&mut rec);
    assert_eq!(done.len(), 1);
    match &done[0] {
        WriteOp::Transcription {
            guild_id,
            channel_id,
            user_id,
            content,
            username,
            duration_ms,
        } => {
            assert_eq!(*guild_id, 10);
            assert_eq!(*channel_id, 20);
            assert_eq!(*user_id, 30);
            assert_eq!(content, "words");
            assert_eq!(username, "carol");
            assert_eq!(*duration_ms, 2500);
        }
        other => panic!("unexpected operation: {:?}", other),
    }
}

#[test]
fn second_drain_after_close_finds_nothing() {
    let mut w = DatabaseWriter::new();
    assert!(w.queue_write("a".to_string(), "1".to_string()).is_ok());
    w.close();
    let mut rec = Recorder::new(true);
    let first = w.process_writes(&mut rec);
    assert_eq!(first.len(), 1);
    let second = w.process_writes(&mut rec);
    assert!(second.is_empty());
    assert_eq!(rec.calls.len(), 1);
}
