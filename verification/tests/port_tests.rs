use query_core::block::{Column, ColumnType, DataBlock, DataField};
use query_core::error::ErrorCode;
use query_core::port::Port;

fn one_row_block(v: u64) -> DataBlock {
    let fields = vec![DataField::new(String::from("v"), ColumnType::UInt64)];
    let columns = vec![Column::UInt64(vec![v])];
    DataBlock::create(fields, columns, 1).unwrap()
}

#[test]
fn fresh_port_is_empty_and_open() {
    let p = Port::create();
    assert!(!p.has_data());
    assert!(!p.is_finished());
    assert!(!p.can_push());
}

#[test]
fn need_data_then_push_hands_the_batch_over() {
    // A port with no pending data: the consumer asks, the producer pushes,
    // and the consumer's next look sees exactly that batch.
    let mut p = Port::create();
    p.set_need_data();
    assert!(p.can_push());
    p.push_data(Ok(one_row_block(7)));
    assert!(p.has_data());
    let pulled = p.pull_data().unwrap().unwrap();
    assert_eq!(pulled.num_rows(), 1);
    match pulled.column(0) {
        Column::UInt64(vals) => assert_eq!(vals[0], 7),
        _ => panic!("wrong column type"),
    }
    assert!(!p.has_data());
}

#[test]
fn finish_with_pending_data_keeps_the_batch_readable() {
    // The producer finishes mid-stream with unread data pending: the port
    // does not report finished until the batch is drained, so nothing is
    // silently dropped.
    let mut p = Port::create();
    p.set_need_data();
    p.push_data(Ok(one_row_block(3)));
    p.finish();
    assert!(p.has_data());
    assert!(!p.is_finished());
    let pulled = p.pull_data().unwrap().unwrap();
    match pulled.column(0) {
        Column::UInt64(vals) => assert_eq!(vals[0], 3),
        _ => panic!("wrong column type"),
    }
    assert!(p.is_finished());
}

#[test]
fn data_and_finished_never_hold_at_once() {
    let mut p = Port::create();
    p.set_need_data();
    p.push_data(Ok(one_row_block(1)));
    p.finish();
    assert!(!(p.has_data() && p.is_finished()));
    assert!(!p.can_push());
    let _ = p.pull_data();
    assert!(!(p.has_data() && p.is_finished()));
}

#[test]
fn finish_is_idempotent_and_terminal() {
    let mut p = Port::create();
    p.finish();
    assert!(p.is_finished());
    p.finish();
    assert!(p.is_finished());
    p.set_need_data();
    assert!(p.is_finished());
    assert!(!p.can_push());
}

#[test]
fn push_carries_a_terminal_error() {
    let mut p = Port::create();
    p.set_need_data();
    p.push_data(Err(ErrorCode::Overflow(String::from("too large"))));
    match p.pull_data() {
        Some(Err(ErrorCode::Overflow(m))) => assert_eq!(m, "too large"),
        _ => panic!("expected the error signal"),
    }
}
