use vqueue::consumer::Consumer;
use vqueue::queue::Queue;
use vqueue::record::{ErrorQueue, Mode, MsgType, HEADER_SIZE};

fn open_fresh_queue() -> Queue {
    Queue::open(String::from("/tmp/q"), String::from("main"), Mode::Default, None).unwrap()
}

fn fresh_consumer(name: &str) -> Consumer {
    Consumer::new(String::from("/tmp/q"), String::from(name), String::from("main"), None).unwrap()
}

#[test]
fn scenario_push_pop_commit() {
    let mut q = open_fresh_queue();
    let body = b"hello".to_vec();
    let pos = q.push(&body, MsgType::String).unwrap();
    assert_eq!(pos, 0);
    assert_eq!(q.count_pushed, 1);

    let mut c = fresh_consumer("c1");
    assert!(c.pop_header(q.log_bytes()));
    let header = c.header.unwrap();
    assert_eq!(header.msg_length, 5);
    assert!(matches!(header.msg_type, MsgType::String));
    let got = c.pop_body(q.log_bytes()).unwrap();
    assert_eq!(got, b"hello".to_vec());
    assert!(c.commit());
    assert_eq!(c.count_popped, 1);
    assert_eq!(c.position, (HEADER_SIZE + 5) as u64);
}

#[test]
fn scenario_empty_queue() {
    let q = open_fresh_queue();
    let mut c = fresh_consumer("c1");
    assert!(!c.pop_header(q.log_bytes()));
    assert_eq!(c.get_batch_size(q.log_bytes()), 0);
    assert_eq!(c.count_popped, 0);
}

#[test]
fn scenario_torn_tail() {
    let mut q = open_fresh_queue();
    let body = vec![7u8; 1000];
    q.push(&body, MsgType::Object).unwrap();

    // Only the header and 400 of the 1000 body bytes are durable when the
    // reader scans.
    let durable: Vec<u8> = q.log_bytes()[..HEADER_SIZE + 400].to_vec();
    let mut c = fresh_consumer("c1");
    assert!(c.pop_header(&durable));
    let res = c.pop_body(&durable);
    assert_eq!(res.unwrap_err(), ErrorQueue::FailReadTailMessage);
    assert!(!c.corrupted);
    // The torn record is not counted and nothing was consumed.
    assert_eq!(c.get_batch_size(&durable), 0);
    assert_eq!(c.position, 0);

    // Once the rest of the body is durable the same read succeeds.
    assert_eq!(c.pop_body(q.log_bytes()).unwrap(), body);
    assert!(c.commit());
}

#[test]
fn scenario_two_independent_consumers() {
    let mut q = open_fresh_queue();
    q.push(&b"one".to_vec(), MsgType::String).unwrap();
    q.push(&b"two".to_vec(), MsgType::String).unwrap();

    let mut first = fresh_consumer("alpha");
    let mut second = fresh_consumer("beta");
    for expected in [b"one".to_vec(), b"two".to_vec()] {
        assert!(first.pop_header(q.log_bytes()));
        assert_eq!(first.pop_body(q.log_bytes()).unwrap(), expected);
        assert!(first.commit());
    }
    assert_eq!(first.count_popped, 2);
    assert_eq!(second.count_popped, 0);
    assert_eq!(second.position, 0);
    for expected in [b"one".to_vec(), b"two".to_vec()] {
        assert!(second.pop_header(q.log_bytes()));
        assert_eq!(second.pop_body(q.log_bytes()).unwrap(), expected);
        assert!(second.commit());
    }
    assert_eq!(second.count_popped, 2);
    assert_eq!(first.position, second.position);
}

#[test]
fn monotonic_positions() {
    let mut q = open_fresh_queue();
    let mut last: Option<u64> = None;
    for n in 0..5usize {
        let body = vec![n as u8; n];
        let pos = q.push(&body, MsgType::String).unwrap();
        if let Some(prev) = last {
            assert!(pos > prev);
        }
        last = Some(pos);
    }
    assert_eq!(q.count_pushed, 5);
}

#[test]
fn batch_size_counts_whole_records_only() {
    let mut q = open_fresh_queue();
    let c = fresh_consumer("c1");
    assert_eq!(c.get_batch_size(q.log_bytes()), 0);
    for n in 1..=4u8 {
        q.push(&vec![n; n as usize], MsgType::String).unwrap();
        assert_eq!(c.get_batch_size(q.log_bytes()), n as u64);
    }
    // A torn tail does not raise the batch size.
    let mut torn = q.log_bytes().clone();
    torn.push(0xA7);
    torn.push(83);
    torn.push(9);
    assert_eq!(c.get_batch_size(&torn), 4);
}

#[test]
fn reopen_queue_resumes_positions() {
    let mut q = open_fresh_queue();
    let p0 = q.push(&b"first".to_vec(), MsgType::String).unwrap();
    let durable = q.log_bytes().clone();

    let mut q2 =
        Queue::open(String::from("/tmp/q"), String::from("main"), Mode::ReadWrite, Some(durable))
            .unwrap();
    assert!(q2.is_ready);
    assert_eq!(q2.count_pushed, 0);
    let p1 = q2.push(&b"second".to_vec(), MsgType::String).unwrap();
    // Nothing lost, nothing duplicated: the next record starts exactly
    // where the durable log ended.
    assert_eq!(p1, (HEADER_SIZE + 5) as u64);
    assert!(p1 > p0);

    let mut c = fresh_consumer("c1");
    assert!(c.pop_header(q2.log_bytes()));
    assert_eq!(c.pop_body(q2.log_bytes()).unwrap(), b"first".to_vec());
    assert!(c.commit());
    assert!(c.pop_header(q2.log_bytes()));
    assert_eq!(c.pop_body(q2.log_bytes()).unwrap(), b"second".to_vec());
}

#[test]
fn reopen_consumer_after_commit_resumes() {
    let mut q = open_fresh_queue();
    q.push(&b"one".to_vec(), MsgType::String).unwrap();
    q.push(&b"two".to_vec(), MsgType::String).unwrap();

    let mut c = fresh_consumer("c1");
    assert!(c.pop_header(q.log_bytes()));
    c.pop_body(q.log_bytes()).unwrap();
    assert!(c.commit());
    let persisted = c.position;

    let mut reopened = Consumer::new(
        String::from("/tmp/q"),
        String::from("c1"),
        String::from("main"),
        Some(persisted),
    )
    .unwrap();
    assert_eq!(reopened.position, persisted);
    assert!(reopened.pop_header(q.log_bytes()));
    assert_eq!(reopened.pop_body(q.log_bytes()).unwrap(), b"two".to_vec());
}

#[test]
fn uncommitted_read_replays_after_reopen() {
    let mut q = open_fresh_queue();
    q.push(&b"payload".to_vec(), MsgType::Object).unwrap();

    let mut c = fresh_consumer("c1");
    assert!(c.pop_header(q.log_bytes()));
    let first_header = c.header.unwrap();
    let first_body = c.pop_body(q.log_bytes()).unwrap();
    // The process stops before commit: nothing was persisted, so the
    // reopened cursor starts from the same stored position (none).
    let mut reopened = fresh_consumer("c1");
    assert!(reopened.pop_header(q.log_bytes()));
    assert_eq!(reopened.header.unwrap(), first_header);
    assert_eq!(reopened.pop_body(q.log_bytes()).unwrap(), first_body);
}

#[test]
fn read_mode_rules() {
    // A missing log cannot be opened read-only.
    let missing = Queue::open(String::from("/tmp/q"), String::from("main"), Mode::Read, None);
    assert!(matches!(missing, Err(ErrorQueue::NotFound)));

    // An existing log can, but the handle may not append.
    let mut ro = Queue::open(
        String::from("/tmp/q"),
        String::from("main"),
        Mode::Read,
        Some(Vec::new()),
    )
    .unwrap();
    assert!(!ro.is_ready);
    assert_eq!(ro.push(&b"x".to_vec(), MsgType::String).unwrap_err(), ErrorQueue::NotReady);
    assert_eq!(ro.count_pushed, 0);

    // A missing cursor cannot be opened read-only either.
    let c = Consumer::new_with_mode(
        String::from("/tmp/q"),
        String::from("c1"),
        String::from("main"),
        Mode::Read,
        None,
    );
    assert!(matches!(c, Err(ErrorQueue::NotFound)));
    // With stored state it can.
    let c = Consumer::new_with_mode(
        String::from("/tmp/q"),
        String::from("c1"),
        String::from("main"),
        Mode::Read,
        Some(23),
    )
    .unwrap();
    assert_eq!(c.position, 23);
}

#[test]
fn protocol_misuse_is_refused() {
    let mut q = open_fresh_queue();
    q.push(&b"data".to_vec(), MsgType::String).unwrap();
    let mut c = fresh_consumer("c1");

    // Body before header is refused.
    assert_eq!(c.pop_body(q.log_bytes()).unwrap_err(), ErrorQueue::NoPendingHeader);
    // Nothing read: nothing to commit.
    assert!(!c.commit());
    // A peeked header alone is not committable; only a fully read record is.
    assert!(c.pop_header(q.log_bytes()));
    assert!(!c.commit());
    assert_eq!(c.position, 0);
    c.pop_body(q.log_bytes()).unwrap();
    assert!(c.commit());
    assert_eq!(c.count_popped, 1);
}

#[test]
fn corrupt_log_is_reported() {
    let mut q = open_fresh_queue();
    q.push(&b"data".to_vec(), MsgType::String).unwrap();
    let mut bytes = q.log_bytes().clone();
    // Break the magic byte of the first record.
    bytes[0] ^= 0xFF;

    // Opening over the corrupt bytes is refused, not repaired.
    let reopened =
        Queue::open(String::from("/tmp/q"), String::from("main"), Mode::ReadWrite, Some(bytes.clone()));
    assert!(matches!(reopened, Err(ErrorQueue::MalformedRecord)));

    // A cursor reports corruption instead of mistaking it for data.
    let mut c = fresh_consumer("c1");
    assert!(!c.pop_header(&bytes));
    assert!(c.corrupted);
    assert_eq!(c.get_batch_size(&bytes), 0);
}

#[test]
fn disagreeing_length_copies_are_corruption() {
    let mut q = open_fresh_queue();
    q.push(&b"data".to_vec(), MsgType::String).unwrap();
    let mut bytes = q.log_bytes().clone();
    // The two length copies no longer agree.
    bytes[2] ^= 0x01;
    let mut c = fresh_consumer("c1");
    assert!(!c.pop_header(&bytes));
    assert!(c.corrupted);
}

#[test]
fn two_named_cursors_drain_to_the_same_count() {
    let mut q = open_fresh_queue();
    let bodies = [b"one".to_vec(), b"two".to_vec(), b"three".to_vec()];
    for body in &bodies {
        q.push(body, MsgType::String).unwrap();
    }

    let mut first = fresh_consumer("alpha");
    let mut second = fresh_consumer("beta");
    let got_first = first.drain(q.log_bytes());
    let got_second = second.drain(q.log_bytes());

    assert_eq!(got_first, bodies.to_vec());
    assert_eq!(got_second, bodies.to_vec());
    assert_eq!(first.count_popped, 3);
    assert_eq!(second.count_popped, 3);
    assert_eq!(first.position, q.log_bytes().len() as u64);
    assert_eq!(second.position, first.position);
    assert_eq!(first.get_batch_size(q.log_bytes()), 0);
}
