use snapmirror::queue::{ChunkQueue, Push};

fn is_queued(p: &Push) -> bool {
    matches!(p, Push::Queued)
}

#[test]
fn chunks_leave_in_the_order_they_came() {
    let mut q = ChunkQueue::new(3);
    assert!(is_queued(&q.push(vec![1])));
    assert!(is_queued(&q.push(vec![2, 2])));
    assert!(is_queued(&q.push(vec![])));
    assert_eq!(q.len(), 3);
    assert_eq!(q.pop(), Some(vec![1]));
    assert_eq!(q.pop(), Some(vec![2, 2]));
    assert_eq!(q.pop(), Some(vec![]));
    assert_eq!(q.pop(), None);
    assert_eq!(q.len(), 0);
}

#[test]
fn full_queue_hands_the_chunk_back() {
    let mut q = ChunkQueue::new(2);
    assert!(is_queued(&q.push(vec![1])));
    assert!(is_queued(&q.push(vec![2])));
    match q.push(vec![3]) {
        Push::Full(back) => assert_eq!(back, vec![3]),
        _ => panic!("the queue took a chunk beyond its capacity"),
    }
    assert_eq!(q.len(), 2);
    assert_eq!(q.pop(), Some(vec![1]));
    assert!(is_queued(&q.push(vec![3])));
    assert_eq!(q.len(), 2);
}

#[test]
fn queue_never_holds_more_than_its_capacity() {
    let mut q = ChunkQueue::new(10);
    for round in 0..100u32 {
        for i in 0..(round % 7) {
            let _ = q.push(vec![i as u8]);
            assert!(q.len() <= 10);
        }
        if round % 3 == 0 {
            let _ = q.pop();
        }
        assert!(q.len() <= 10);
    }
    for i in 0..20u8 {
        let _ = q.push(vec![i]);
    }
    assert_eq!(q.len(), 10);
}

#[test]
fn closed_queue_takes_nothing_and_can_be_drained() {
    let mut q = ChunkQueue::new(2);
    assert!(!q.is_closed());
    assert!(is_queued(&q.push(vec![7])));
    q.close();
    assert!(q.is_closed());
    match q.push(vec![8]) {
        Push::Closed(back) => assert_eq!(back, vec![8]),
        _ => panic!("a closed queue took a chunk"),
    }
    assert_eq!(q.pop(), Some(vec![7]));
    assert_eq!(q.pop(), None);
}

#[test]
fn queue_without_room_is_always_full() {
    let mut q = ChunkQueue::new(0);
    match q.push(vec![1]) {
        Push::Full(back) => assert_eq!(back, vec![1]),
        _ => panic!("a queue without room took a chunk"),
    }
    assert_eq!(q.pop(), None);
}
