use std::sync::Arc;

use reactor_core::chunk::{ChunkIterator, SocketChannelHandler};

fn fresh_iterator() -> ChunkIterator {
    ChunkIterator::new(Arc::new(SocketChannelHandler::new()))
}

#[test]
fn starts_empty() {
    let mut it = fresh_iterator();
    assert_eq!(it.committed_count(), 0);
    assert_eq!(it.pending_count(), 0);
    let chunk = it.next();
    assert!(chunk.is_empty());
    assert_eq!(chunk.size(), 0);
}

#[test]
fn next_yields_whole_range() {
    let mut it = fresh_iterator();
    it.enqueue(vec![10, 20, 30]);
    assert_eq!(it.pending_count(), 3);
    let chunk = it.next();
    assert!(!chunk.is_empty());
    assert_eq!(chunk.size(), 3);
    assert_eq!(chunk.bytes().as_slice(), &[10, 20, 30]);
}

#[test]
fn partial_commit_resumes_at_remainder() {
    let mut it = fresh_iterator();
    it.enqueue(b"hello, world".to_vec());
    let chunk = it.next();
    assert_eq!(chunk.size(), 12);
    it.commit(5);
    assert_eq!(it.committed_count(), 5);
    assert_eq!(it.pending_count(), 7);
    let rest = it.next();
    assert_eq!(rest.size(), 7);
    assert_eq!(rest.bytes().as_slice(), b", world");
    it.commit(7);
    assert_eq!(it.committed_count(), 12);
    let done = it.next();
    assert!(done.is_empty());
}

#[test]
fn commit_crosses_range_boundary() {
    let mut it = fresh_iterator();
    it.enqueue(vec![1, 2]);
    it.enqueue(vec![3]);
    let first = it.next();
    assert_eq!(first.bytes().as_slice(), &[1, 2]);
    it.commit(2);
    let second = it.next();
    assert_eq!(second.bytes().as_slice(), &[3]);
    it.commit(1);
    assert!(it.next().is_empty());
    assert_eq!(it.committed_count(), 3);
}

#[test]
fn enqueue_empty_changes_nothing() {
    let mut it = fresh_iterator();
    it.enqueue(Vec::new());
    assert_eq!(it.pending_count(), 0);
    assert!(it.next().is_empty());
    it.enqueue(vec![9]);
    it.enqueue(Vec::new());
    assert_eq!(it.pending_count(), 1);
    assert_eq!(it.next().bytes().as_slice(), &[9]);
}

#[test]
fn discard_keeps_committed_prefix() {
    let mut it = fresh_iterator();
    it.enqueue(vec![1, 2, 3, 4]);
    it.enqueue(vec![5, 6]);
    it.next();
    it.commit(3);
    it.discard_pending();
    assert_eq!(it.committed_count(), 3);
    assert_eq!(it.pending_count(), 0);
    assert!(it.next().is_empty());
}

#[test]
fn enqueue_after_drain_replenishes() {
    let mut it = fresh_iterator();
    it.enqueue(vec![7, 8]);
    it.next();
    it.commit(2);
    assert!(it.next().is_empty());
    it.enqueue(vec![9]);
    let chunk = it.next();
    assert_eq!(chunk.bytes().as_slice(), &[9]);
}
