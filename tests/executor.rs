use echo_bridge::chunk::{ConnectionId, DataChunk};
use echo_bridge::executor::{Delivery, Executor};
use echo_bridge::task::{EchoTask, TaskPhase};

fn chunk(payload: &[u8], end_stream: bool) -> DataChunk {
    DataChunk::new(payload.to_vec(), end_stream)
}

fn written(d: Delivery) -> (u64, Vec<u8>, bool) {
    match d {
        Delivery::Resumed(w) => (w.connection.id, w.chunk.payload, w.chunk.end_stream),
        other => panic!("expected a write, got {:?}", other),
    }
}

#[test]
fn write_echoes_chunk_and_task_keeps_awaiting() {
    let x = ConnectionId::new(1);
    let mut ex = Executor::new();
    ex.register(x);
    assert_eq!(ex.phase(x), Some(TaskPhase::Awaiting));
    let d = ex.deliver(x, chunk(b"hi", false));
    assert_eq!(written(d), (1, b"hi".to_vec(), false));
    assert_eq!(ex.phase(x), Some(TaskPhase::Awaiting));
    assert!(ex.is_registered(x));
}

#[test]
fn end_of_stream_is_written_then_cancel_removes_task() {
    let x = ConnectionId::new(7);
    let mut ex = Executor::new();
    ex.register(x);
    let d = ex.deliver(x, chunk(b"bye", true));
    assert_eq!(written(d), (7, b"bye".to_vec(), true));
    assert_eq!(ex.phase(x), Some(TaskPhase::Awaiting));
    assert!(ex.cancel(x));
    assert!(!ex.is_registered(x));
    assert_eq!(ex.len(), 0);
}

#[test]
fn delivery_to_one_connection_leaves_the_other_alone() {
    let x = ConnectionId::new(1);
    let y = ConnectionId::new(2);
    let mut ex = Executor::new();
    ex.register(x);
    ex.register(y);
    let d = ex.deliver(y, chunk(b"to y", false));
    assert_eq!(written(d), (2, b"to y".to_vec(), false));
    assert_eq!(ex.phase(x), Some(TaskPhase::Awaiting));
    assert_eq!(ex.len(), 2);
}

#[test]
fn deliver_after_cancel_has_no_effect() {
    let x = ConnectionId::new(3);
    let mut ex = Executor::new();
    ex.register(x);
    assert!(ex.cancel(x));
    assert!(matches!(ex.deliver(x, chunk(b"late", false)), Delivery::Stale));
    assert!(!ex.is_registered(x));
    assert_eq!(ex.len(), 0);
    assert!(!ex.cancel(x));
}

#[test]
fn chunks_are_echoed_in_order_unchanged() {
    let x = ConnectionId::new(9);
    let mut ex = Executor::new();
    ex.register(x);
    let inputs: Vec<(&[u8], bool)> = vec![(b"a", false), (b"", false), (b"bc", false), (b"end", true)];
    let mut out = Vec::new();
    for (p, e) in inputs.iter() {
        out.push(written(ex.deliver(x, chunk(p, *e))));
    }
    let expected: Vec<(u64, Vec<u8>, bool)> =
        inputs.iter().map(|(p, e)| (9, p.to_vec(), *e)).collect();
    assert_eq!(out, expected);
}

#[test]
fn delivery_after_end_of_stream_shows_as_a_later_write() {
    let x = ConnectionId::new(4);
    let mut ex = Executor::new();
    ex.register(x);
    let mut log = Vec::new();
    log.push(written(ex.deliver(x, chunk(b"last", true))));
    log.push(written(ex.deliver(x, chunk(b"more", false))));
    log.push(written(ex.deliver(x, chunk(b"", true))));
    assert_eq!(
        log,
        vec![(4, b"last".to_vec(), true), (4, b"more".to_vec(), false), (4, Vec::new(), true)]
    );
    let first_end = log.iter().position(|w| w.2).unwrap();
    assert!(first_end + 1 < log.len());
    assert_eq!(ex.phase(x), Some(TaskPhase::Awaiting));
}

#[test]
fn deliver_to_unknown_connection_is_stale() {
    let mut ex = Executor::new();
    assert!(matches!(ex.deliver(ConnectionId::new(5), chunk(b"x", false)), Delivery::Stale));
    assert_eq!(ex.phase(ConnectionId::new(5)), None);
    assert_eq!(ex.len(), 0);
}

#[test]
fn interleaved_connections_each_get_their_own_chunks() {
    let a = ConnectionId::new(10);
    let b = ConnectionId::new(11);
    let c = ConnectionId::new(12);
    let mut ex = Executor::new();
    ex.register(a);
    ex.register(b);
    ex.register(c);
    assert_eq!(written(ex.deliver(a, chunk(b"a1", false))), (10, b"a1".to_vec(), false));
    assert_eq!(written(ex.deliver(c, chunk(b"c1", true))), (12, b"c1".to_vec(), true));
    assert_eq!(written(ex.deliver(a, chunk(b"a2", false))), (10, b"a2".to_vec(), false));
    assert_eq!(ex.phase(b), Some(TaskPhase::Awaiting));
    assert_eq!(ex.phase(a), Some(TaskPhase::Awaiting));
    assert_eq!(ex.phase(c), Some(TaskPhase::Awaiting));
    assert!(ex.cancel(c));
    assert_eq!(written(ex.deliver(b, chunk(b"b1", false))), (11, b"b1".to_vec(), false));
    assert_eq!(ex.len(), 2);
}

#[test]
fn cancel_discards_a_task_that_has_not_ended() {
    let x = ConnectionId::new(6);
    let mut ex = Executor::new();
    ex.register(x);
    written(ex.deliver(x, chunk(b"mid", false)));
    assert!(ex.cancel(x));
    assert_eq!(ex.phase(x), None);
}

#[test]
fn task_resume_writes_to_its_own_connection() {
    let task = EchoTask::start(ConnectionId::new(42));
    assert_eq!(task.connection(), ConnectionId::new(42));
    assert_eq!(task.phase, TaskPhase::Awaiting);
    let (next, w) = task.resume(chunk(&[0, 255, 7], false));
    assert_eq!(next.phase, TaskPhase::Awaiting);
    assert_eq!(w.connection.id, 42);
    assert_eq!(w.chunk.payload, vec![0, 255, 7]);
    let (last, w) = next.resume(chunk(b"", true));
    assert!(w.chunk.end_stream);
    assert_eq!(last.phase, TaskPhase::Awaiting);
    assert_eq!(last.connection(), ConnectionId::new(42));
}

#[test]
fn interleaving_does_not_change_what_each_connection_gets() {
    let x = ConnectionId::new(20);
    let y = ConnectionId::new(21);
    let z = ConnectionId::new(22);
    let script: Vec<(ConnectionId, &[u8], bool)> = vec![
        (x, b"x1", false),
        (y, b"y1", false),
        (z, b"z1", false),
        (x, b"x2", false),
        (y, b"y2", true),
        (x, b"x3", true),
    ];
    let mut mixed = Executor::new();
    mixed.register(x);
    mixed.register(y);
    let mut mixed_log = Vec::new();
    for (c, p, e) in script.iter() {
        if let Delivery::Resumed(w) = mixed.deliver(*c, chunk(p, *e)) {
            mixed_log.push((w.connection.id, w.chunk.payload));
        }
    }
    for who in [x, y, z] {
        let mut solo = Executor::new();
        if mixed.is_registered(who) {
            solo.register(who);
        }
        let mut solo_log = Vec::new();
        for (c, p, e) in script.iter().filter(|d| d.0 == who) {
            if let Delivery::Resumed(w) = solo.deliver(*c, chunk(p, *e)) {
                solo_log.push((w.connection.id, w.chunk.payload));
            }
        }
        let from_mixed: Vec<(u64, Vec<u8>)> =
            mixed_log.iter().filter(|w| w.0 == who.id).cloned().collect();
        assert_eq!(from_mixed, solo_log);
    }
    assert_eq!(mixed_log.len(), 5);
}
