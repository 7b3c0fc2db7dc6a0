use rapid_net::writer::{WriteBatcher, WriteOp, MAX_BATCH_LEN, MAX_CHUNK_SIZE};

fn bytes_of(ops: &[WriteOp]) -> Vec<u8> {
    let mut out = Vec::new();
    for op in ops {
        if let WriteOp::Write(b) = op {
            out.extend_from_slice(b);
        }
    }
    out
}

fn shape(ops: &[WriteOp]) -> Vec<Option<usize>> {
    ops.iter()
        .map(|op| match op {
            WriteOp::Write(b) => Some(b.len()),
            WriteOp::Flush => None,
        })
        .collect()
}

#[test]
fn small_messages_are_collected() {
    let mut w = WriteBatcher::new();
    assert!(w.accept(vec![1, 2, 3]).is_empty());
    assert!(w.accept(vec![4]).is_empty());
    assert_eq!(w.len(), 2);
    let ops = w.finish_batch();
    assert_eq!(shape(&ops), vec![Some(3), Some(1)]);
    assert_eq!(bytes_of(&ops), vec![1, 2, 3, 4]);
    assert_eq!(w.len(), 0);
}

#[test]
fn large_message_is_chunked_and_flushed() {
    let data: Vec<u8> = (0..200_000u32).map(|i| (i % 251) as u8).collect();
    let mut w = WriteBatcher::new();
    let ops = w.accept(data.clone());
    assert_eq!(
        shape(&ops),
        vec![Some(65536), None, Some(65536), None, Some(65536), None, Some(3392), None]
    );
    assert_eq!(bytes_of(&ops), data);
    assert_eq!(w.len(), 0);
}

#[test]
fn large_message_goes_after_collected_ones() {
    let mut w = WriteBatcher::new();
    assert!(w.accept(vec![7; 10]).is_empty());
    let big = vec![8u8; MAX_CHUNK_SIZE + 1];
    let ops = w.accept(big.clone());
    assert_eq!(shape(&ops), vec![Some(10), None, Some(MAX_CHUNK_SIZE), None, Some(1), None]);
    let mut expected = vec![7u8; 10];
    expected.extend_from_slice(&big);
    assert_eq!(bytes_of(&ops), expected);
}

#[test]
fn message_of_exactly_chunk_size_is_collected() {
    let mut w = WriteBatcher::new();
    assert!(w.accept(vec![0; MAX_CHUNK_SIZE]).is_empty());
    assert_eq!(w.len(), 1);
}

#[test]
fn idle_writes_and_flushes_only_when_something_is_collected() {
    let mut w = WriteBatcher::new();
    assert!(w.on_idle().is_empty());
    w.accept(vec![5, 6]);
    let ops = w.on_idle();
    assert_eq!(shape(&ops), vec![Some(2), None]);
    assert!(w.on_idle().is_empty());
}

#[test]
fn batch_full_after_ten() {
    let mut w = WriteBatcher::new();
    for i in 0..MAX_BATCH_LEN {
        assert!(!w.batch_full());
        w.accept(vec![i as u8]);
    }
    assert!(w.batch_full());
    let ops = w.finish_batch();
    assert_eq!(bytes_of(&ops), (0..10u8).collect::<Vec<_>>());
}

#[test]
fn flush_due_after_interval() {
    assert!(!WriteBatcher::flush_due(49));
    assert!(WriteBatcher::flush_due(50));
    assert!(WriteBatcher::flush_due(1000));
}

#[test]
fn write_order_is_arrival_order() {
    let mut w = WriteBatcher::new();
    let mut wire = Vec::new();
    let mut sent = Vec::new();
    let msgs: Vec<Vec<u8>> = vec![
        vec![1; 3],
        vec![2; 70_000],
        vec![3; 5],
        vec![4; 6],
        vec![5; 140_000],
        vec![6; 1],
    ];
    for (i, m) in msgs.into_iter().enumerate() {
        sent.extend_from_slice(&m);
        let ops = w.accept(m);
        for op in &ops {
            if let WriteOp::Write(b) = op {
                assert!(b.len() <= MAX_CHUNK_SIZE);
            }
        }
        wire.extend(bytes_of(&ops));
        if i == 3 {
            wire.extend(bytes_of(&w.finish_batch()));
        }
    }
    wire.extend(bytes_of(&w.on_idle()));
    assert_eq!(wire, sent);
}
