use zellij_server::pty_writer::{
    PendingWrites, PtyWriteContext, PtyWriteInstruction, WriteOutcome, MAX_PENDING_BYTES,
};

fn drain(writes: &mut PendingWrites<()>, tid: u32, take: usize) -> Vec<u8> {
    let mut out = Vec::new();
    while let Some(chunk) = writes.next_chunk(tid) {
        let n = take.min(chunk.len());
        out.extend_from_slice(&chunk[..n]);
        if !writes.record_write(tid, WriteOutcome::Written(n)) {
            break;
        }
    }
    out
}

#[test]
fn writes_reach_the_terminal_in_order() {
    let mut writes: PendingWrites<()> = PendingWrites::new();
    assert!(!writes.queue_write(1, b"hello ".to_vec(), None));
    assert!(!writes.queue_write(1, b"world".to_vec(), None));
    assert!(writes.has_pending());
    assert_eq!(drain(&mut writes, 1, 4), b"hello world".to_vec());
    assert_eq!(writes.next_chunk(1), None);
}

#[test]
fn a_partial_write_leaves_the_rest_of_the_chunk() {
    let mut writes: PendingWrites<()> = PendingWrites::new();
    writes.queue_write(7, b"abcdef".to_vec(), None);
    assert_eq!(writes.next_chunk(7), Some(b"abcdef".to_vec()));
    assert!(writes.record_write(7, WriteOutcome::Written(2)));
    assert_eq!(writes.next_chunk(7), Some(b"cdef".to_vec()));
}

#[test]
fn a_write_that_takes_nothing_stops_for_now() {
    let mut writes: PendingWrites<()> = PendingWrites::new();
    writes.queue_write(3, b"xyz".to_vec(), None);
    assert!(writes.next_chunk(3).is_some());
    assert!(!writes.record_write(3, WriteOutcome::Written(0)));
    assert_eq!(writes.next_chunk(3), Some(b"xyz".to_vec()));
}

#[test]
fn a_failed_terminal_loses_its_queue() {
    let mut writes: PendingWrites<()> = PendingWrites::new();
    writes.queue_write(3, b"xyz".to_vec(), None);
    writes.queue_write(4, b"keep".to_vec(), None);
    assert!(writes.next_chunk(3).is_some());
    assert!(!writes.record_write(3, WriteOutcome::Failed));
    assert_eq!(writes.next_chunk(3), None);
    assert_eq!(writes.next_chunk(4), Some(b"keep".to_vec()));
}

#[test]
fn an_oversized_queue_is_dropped_with_the_write() {
    let mut writes: PendingWrites<()> = PendingWrites::new();
    assert!(!writes.queue_write(5, vec![b'a'; MAX_PENDING_BYTES - 1], None));
    assert!(!writes.queue_write(5, vec![b'b'; 1], None));
    assert!(writes.queue_write(5, vec![b'c'; 1], None));
    assert_eq!(writes.next_chunk(5), None);
    assert!(!writes.queue_write(5, b"again".to_vec(), None));
    assert_eq!(writes.next_chunk(5), Some(b"again".to_vec()));
}

#[test]
fn empty_queues_are_forgotten() {
    let mut writes: PendingWrites<()> = PendingWrites::new();
    writes.queue_write(1, b"a".to_vec(), None);
    writes.queue_write(2, b"b".to_vec(), None);
    assert_eq!(writes.terminal_ids(), vec![1, 2]);
    assert_eq!(drain(&mut writes, 1, 10), b"a".to_vec());
    writes.retain_nonempty();
    assert_eq!(writes.terminal_ids(), vec![2]);
    assert!(writes.has_pending());
}

#[test]
fn instructions_map_to_their_context() {
    let w: PtyWriteInstruction<()> = PtyWriteInstruction::Write(vec![1], 2, None);
    assert_eq!(PtyWriteContext::from_instruction(&w), PtyWriteContext::Write);
    let r: PtyWriteInstruction<()> = PtyWriteInstruction::ResizePty(1, 80, 24, None, None);
    assert_eq!(PtyWriteContext::from_instruction(&r), PtyWriteContext::ResizePty);
    let e: PtyWriteInstruction<()> = PtyWriteInstruction::Exit;
    assert_eq!(PtyWriteContext::from_instruction(&e), PtyWriteContext::Exit);
}

#[test]
fn interleaved_writes_and_queueing_keep_the_stream() {
    let mut writes: PendingWrites<()> = PendingWrites::new();
    writes.queue_write(2, b"abc".to_vec(), None);
    let mut out = Vec::new();
    let chunk = writes.next_chunk(2).unwrap();
    out.extend_from_slice(&chunk[..2]);
    assert!(writes.record_write(2, WriteOutcome::Written(2)));
    writes.queue_write(2, b"de".to_vec(), None);
    out.extend(drain(&mut writes, 2, 1));
    assert_eq!(out, b"abcde".to_vec());
    assert_eq!(writes.next_chunk(2), None);
}
