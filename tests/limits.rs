use anonnet::circuit::{CircuitId, CircuitPurpose};
use anonnet::framing::FrameError;
use anonnet::stats::MessageCodec;
use anonnet::flow::{ReceiveOutcome, StreamFlow, SENDME_BATCH, STREAM_WINDOW};
use anonnet::node_id::NodeId;
use anonnet::pool::CircuitPool;
use anonnet::rate_limit::{RateLimiter, TokenBucket};
use anonnet::stats::{CircuitPoolConfig, CircuitPoolError, RateLimitConfig, RateLimitError};
use anonnet::types::Timestamp;

fn t(s: u64) -> Timestamp {
    Timestamp::from_secs(s)
}

#[test]
fn test_add_and_release_circuit() {
    let mut pool = CircuitPool::new(CircuitPoolConfig::new());
    pool.add_circuit_at(CircuitId(1), CircuitPurpose::General, t(100));
    assert_eq!(pool.acquire_circuit_at(CircuitPurpose::General, t(102)), Err(CircuitPoolError::NoCircuitsAvailable));
    assert_eq!(pool.acquire_circuit_at(CircuitPurpose::General, t(105)), Ok(CircuitId(1)));
    assert_eq!(pool.acquire_circuit_at(CircuitPurpose::General, t(200)), Err(CircuitPoolError::NoCircuitsAvailable));
    pool.release_circuit_at(CircuitId(1), CircuitPurpose::General, t(200));
    assert_eq!(pool.acquire_circuit_at(CircuitPurpose::General, t(205)), Ok(CircuitId(1)));
    let stats = pool.stats();
    assert_eq!(stats.total_circuits, 1);
    assert_eq!(stats.in_use_circuits, 1);
    assert_eq!(stats.available_circuits, 0);
}

#[test]
fn pool_hands_out_the_oldest_idle_circuit() {
    let mut pool = CircuitPool::new(CircuitPoolConfig::new());
    pool.add_circuit_at(CircuitId(1), CircuitPurpose::Rendezvous, t(100));
    pool.add_circuit_at(CircuitId(2), CircuitPurpose::General, t(101));
    pool.add_circuit_at(CircuitId(3), CircuitPurpose::General, t(102));
    assert_eq!(pool.acquire_circuit_at(CircuitPurpose::General, t(110)), Ok(CircuitId(2)));
    assert_eq!(pool.acquire_circuit_at(CircuitPurpose::General, t(110)), Ok(CircuitId(3)));
}

#[test]
fn test_cleanup_old_circuits() {
    let mut pool = CircuitPool::new(CircuitPoolConfig::new());
    pool.add_circuit_at(CircuitId(1), CircuitPurpose::General, t(0));
    pool.add_circuit_at(CircuitId(2), CircuitPurpose::General, t(500));
    pool.cleanup_at(t(700));
    assert_eq!(pool.stats().total_circuits, 1);
    assert_eq!(pool.acquire_circuit_at(CircuitPurpose::General, t(700)), Ok(CircuitId(2)));
}

#[test]
fn test_rate_limit_consumption() {
    let mut limiter = RateLimiter::new(RateLimitConfig::new());
    let node = NodeId::from_bytes([1; 32]);
    assert_eq!(limiter.check_and_consume_at(node, 1024, t(0)), Ok(()));
    let status = limiter.get_status_at(&node, t(0)).unwrap();
    assert_eq!(status.available_tokens, 10485760 - 1024);
    assert!(!status.is_penalized);
}

#[test]
fn test_burst_limit() {
    let mut limiter = RateLimiter::new(RateLimitConfig::new());
    let node = NodeId::from_bytes([2; 32]);
    assert_eq!(limiter.check_and_consume_at(node, 6 * 1024 * 1024, t(0)), Err(RateLimitError::BurstLimitExceeded));
    assert_eq!(limiter.check_and_consume_at(node, 10, t(30)), Err(RateLimitError::NodePenalized));
    assert_eq!(limiter.check_and_consume_at(node, 10, t(60)), Ok(()));
    let stats = limiter.get_stats_at(t(60));
    assert_eq!(stats.total_nodes, 1);
    assert_eq!(stats.total_violations, 1);
    assert_eq!(stats.penalized_nodes, 0);
}

#[test]
fn test_token_refill() {
    let mut bucket = TokenBucket::new_at(100, 10, t(0));
    assert!(bucket.try_consume_at(100, t(0)));
    assert!(!bucket.try_consume_at(1, t(0)));
    assert!(bucket.try_consume_at(30, t(3)));
    bucket.refill_at(t(1000));
    assert_eq!(bucket.tokens, 100);
}

#[test]
fn test_rate_limiter_creation() {
    let limiter = RateLimiter::new(RateLimitConfig::new());
    assert_eq!(limiter.get_stats_at(t(0)).total_nodes, 0);
    assert!(limiter.get_status_at(&NodeId::from_bytes([0; 32]), t(0)).is_none());
}

#[test]
fn stream_window_blocks_and_reopens() {
    let mut sender = StreamFlow::new(1);
    for expected in 0..STREAM_WINDOW {
        assert_eq!(sender.on_send(), Some(expected));
    }
    assert!(!sender.can_send());
    assert_eq!(sender.on_send(), None);
    sender.on_sendme();
    assert_eq!(sender.send_window, SENDME_BATCH);
    let mut receiver = StreamFlow::new(1);
    assert_eq!(receiver.on_receive(1), ReceiveOutcome::Discard);
    for seq in 0..SENDME_BATCH - 1 {
        assert_eq!(receiver.on_receive(seq), ReceiveOutcome::Accept);
    }
    assert_eq!(receiver.on_receive(SENDME_BATCH - 1), ReceiveOutcome::AcceptAndSendme);
    assert_eq!(receiver.next_recv_seq, SENDME_BATCH);
}

#[test]
fn test_send_receive_message() {
    let frame = MessageCodec::frame(b"hello").unwrap();
    assert_eq!(frame, vec![5, 0, 0, 0, b'h', b'e', b'l', b'l', b'o']);
    let mut stream = frame.clone();
    stream.extend_from_slice(&[1, 2, 3]);
    let (payload, used) = MessageCodec::read_frame(&stream).unwrap();
    assert_eq!(payload, b"hello".to_vec());
    assert_eq!(used, 9);
    assert_eq!(MessageCodec::read_frame(&frame[..6]), Err(FrameError::Incomplete));
    assert_eq!(MessageCodec::read_frame(&[1, 2]), Err(FrameError::Incomplete));
    assert!(matches!(MessageCodec::read_frame(&[0, 0, 0xa1, 0]), Err(FrameError::TooLarge(_))));
    let big = vec![0u8; 10 * 1024 * 1024 + 1];
    assert_eq!(MessageCodec::frame(&big), Err(FrameError::TooLarge(big.len())));
}
