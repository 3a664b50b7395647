use mvis::queue::FrameQueue;

#[test]
fn new_queue_is_empty() {
    let queue: FrameQueue<Vec<u64>> = FrameQueue::new(3);
    assert_eq!(queue.capacity(), 3);
    assert_eq!(queue.len(), 0);
    assert!(queue.is_empty());
    assert!(!queue.is_full());
}

#[test]
fn frames_come_out_in_the_order_they_went_in() {
    let mut queue = FrameQueue::new(4);
    for frame in 1..=4u64 {
        assert_eq!(queue.push(vec![frame, frame * 10]), Ok(()));
    }
    for frame in 1..=4u64 {
        assert_eq!(queue.pop(), Some(vec![frame, frame * 10]));
    }
    assert_eq!(queue.pop(), None);
}

#[test]
fn full_queue_hands_the_frame_back() {
    let mut queue = FrameQueue::new(2);
    assert_eq!(queue.push(1), Ok(()));
    assert_eq!(queue.push(2), Ok(()));
    assert!(queue.is_full());
    assert_eq!(queue.push(3), Err(3));
    assert_eq!(queue.len(), 2);
    assert_eq!(queue.pop(), Some(1));
    assert_eq!(queue.push(3), Ok(()));
    assert_eq!(queue.pop(), Some(2));
    assert_eq!(queue.pop(), Some(3));
}

#[test]
fn empty_queue_gives_nothing() {
    let mut queue: FrameQueue<u8> = FrameQueue::new(2);
    assert_eq!(queue.pop(), None);
    assert_eq!(queue.len(), 0);
    assert_eq!(queue.push(7), Ok(()));
    assert_eq!(queue.pop(), Some(7));
    assert_eq!(queue.pop(), None);
}

#[test]
fn queue_without_capacity_takes_nothing() {
    let mut queue = FrameQueue::new(0);
    assert!(queue.is_full());
    assert!(queue.is_empty());
    assert_eq!(queue.push(1), Err(1));
    assert_eq!(queue.pop(), None);
}

#[test]
fn order_is_kept_while_producer_and_consumer_take_turns() {
    let mut queue = FrameQueue::new(3);
    let mut produced = 0u32;
    let mut consumed = 0u32;
    while consumed < 100 {
        // The producer fills the queue, then the consumer takes two frames.
        while produced < 100 && queue.push(produced).is_ok() {
            produced += 1;
        }
        for _ in 0..2 {
            if let Some(frame) = queue.pop() {
                assert_eq!(frame, consumed);
                consumed += 1;
            }
        }
        assert!(queue.len() <= queue.capacity());
    }
    assert_eq!(produced, 100);
    assert!(queue.is_empty());
}
