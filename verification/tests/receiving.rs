use udp_mqtt_bridge::decoder::decode_datagram;
use udp_mqtt_bridge::receiver::{
    classify_receive, collect_batch, copy_datagram, new_pool, ReceiveOutcome, DATAGRAM_CAPACITY,
    MAX_DATAGRAMS,
};

/// Writes a datagram into a slot, as a receive call would.
fn fill(pool: &mut Vec<Vec<u8>>, slot: usize, bytes: &[u8]) -> usize {
    pool[slot][..bytes.len()].copy_from_slice(bytes);
    bytes.len()
}

#[test]
fn pool_has_the_configured_shape() {
    let pool = new_pool(MAX_DATAGRAMS, DATAGRAM_CAPACITY);
    assert_eq!(MAX_DATAGRAMS, 10);
    assert_eq!(DATAGRAM_CAPACITY, 1500);
    assert_eq!(pool.len(), 10);
    for slot in &pool {
        assert_eq!(slot.len(), 1500);
        assert!(slot.iter().all(|b| *b == 0));
    }
}

#[test]
fn empty_pool_and_empty_slots() {
    assert!(new_pool(0, 8).is_empty());
    let pool = new_pool(3, 0);
    assert_eq!(pool.len(), 3);
    assert!(pool.iter().all(|slot| slot.is_empty()));
}

#[test]
fn classify_counts_datagrams() {
    assert_eq!(classify_receive(0, false), ReceiveOutcome::Batch { count: 0 });
    assert_eq!(classify_receive(3, false), ReceiveOutcome::Batch { count: 3 });
    assert_eq!(classify_receive(10, true), ReceiveOutcome::Batch { count: 10 });
    assert_eq!(
        classify_receive(i32::MAX, false),
        ReceiveOutcome::Batch { count: 2147483647 }
    );
}

#[test]
fn classify_no_data_is_not_an_error() {
    assert_eq!(classify_receive(-1, true), ReceiveOutcome::NoData);
    assert_eq!(classify_receive(i32::MIN, true), ReceiveOutcome::NoData);
}

#[test]
fn classify_socket_error() {
    assert_eq!(classify_receive(-1, false), ReceiveOutcome::Failed);
}

#[test]
fn copy_takes_the_received_prefix() {
    let slot = vec![1u8, 2, 3, 4, 5];
    assert_eq!(copy_datagram(&slot, 0), Vec::<u8>::new());
    assert_eq!(copy_datagram(&slot, 2), vec![1u8, 2]);
    assert_eq!(copy_datagram(&slot, 5), vec![1u8, 2, 3, 4, 5]);
}

#[test]
fn batch_holds_one_datagram_per_reported_slot() {
    let mut pool = new_pool(MAX_DATAGRAMS, DATAGRAM_CAPACITY);
    let mut lengths = vec![0usize; MAX_DATAGRAMS];
    lengths[0] = fill(&mut pool, 0, b"sensors/temp:21.5");
    lengths[1] = fill(&mut pool, 1, b"a:b:c");
    lengths[2] = fill(&mut pool, 2, b"");
    lengths[3] = fill(&mut pool, 3, b"left over from an earlier batch");
    for count in 0..=3usize {
        let batch = collect_batch(&pool, &lengths, count).unwrap();
        assert_eq!(batch.len(), count);
    }
    let batch = collect_batch(&pool, &lengths, 3).unwrap();
    assert_eq!(batch[0], b"sensors/temp:21.5".to_vec());
    assert_eq!(batch[1], b"a:b:c".to_vec());
    assert_eq!(batch[2], Vec::<u8>::new());
}

#[test]
fn full_batch() {
    let mut pool = new_pool(MAX_DATAGRAMS, DATAGRAM_CAPACITY);
    let mut lengths = vec![0usize; MAX_DATAGRAMS];
    for slot in 0..MAX_DATAGRAMS {
        let text = format!("topic/{}:{}", slot, slot * slot);
        lengths[slot] = fill(&mut pool, slot, text.as_bytes());
    }
    let batch = collect_batch(&pool, &lengths, MAX_DATAGRAMS).unwrap();
    assert_eq!(batch.len(), MAX_DATAGRAMS);
    for (slot, datagram) in batch.iter().enumerate() {
        let message = decode_datagram(datagram).unwrap();
        assert_eq!(message.topic, Some(format!("topic/{}", slot)));
        assert_eq!(message.payload, Some(format!("{}", slot * slot)));
    }
}

#[test]
fn datagram_may_fill_its_slot() {
    let mut pool = new_pool(2, 4);
    let lengths = vec![fill(&mut pool, 0, b"a:bc"), 0];
    let batch = collect_batch(&pool, &lengths, 1).unwrap();
    assert_eq!(batch, vec![b"a:bc".to_vec()]);
}

#[test]
fn batch_is_independent_of_the_one_before() {
    let mut pool = new_pool(2, 16);
    let mut lengths = vec![0usize; 2];
    lengths[0] = fill(&mut pool, 0, b"first:batch");
    lengths[1] = fill(&mut pool, 1, b"\xff\xfe");
    let earlier = collect_batch(&pool, &lengths, 2).unwrap();
    assert!(decode_datagram(&earlier[1]).is_err());
    lengths[0] = fill(&mut pool, 0, b"next:one");
    let later = collect_batch(&pool, &lengths, 1).unwrap();
    assert_eq!(later, vec![b"next:one".to_vec()]);
    assert_eq!(earlier[0], b"first:batch".to_vec());
}

#[test]
fn batch_that_does_not_fit_is_refused() {
    let pool = new_pool(2, 4);
    assert!(collect_batch(&pool, &vec![0, 0], 3).is_none());
    assert!(collect_batch(&pool, &vec![0], 2).is_none());
    assert!(collect_batch(&pool, &vec![4, 5], 2).is_none());
    assert!(collect_batch(&pool, &vec![5, 0], 1).is_none());
    assert!(collect_batch(&pool, &vec![4, 5], 1).is_some());
    assert!(collect_batch(&pool, &vec![], 0).is_some());
}
