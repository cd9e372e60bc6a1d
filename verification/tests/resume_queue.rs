//! Prompts that wait for a conversation.

use hyperpanes_core::resume_queue::{enqueue, is_empty, list, take_for, QueuedPrompt};

/// The size of a file that holds `queue`: an empty list takes two bytes.
fn size(queue: &[QueuedPrompt]) -> Option<u64> {
    Some(2 + 60 * queue.len() as u64)
}

#[test]
fn enqueue_take_roundtrip_is_fifo_and_deliver_once() {
    let mut q: Vec<QueuedPrompt> = Vec::new();
    assert!(is_empty(None));
    assert!(is_empty(size(&q)));
    enqueue(&mut q, "deadbeef-0000", true, "first", 1).unwrap();
    enqueue(&mut q, "deadbeef-0000", true, "second", 2).unwrap();
    enqueue(&mut q, "cafecafe-1111", true, "other session", 3).unwrap();
    assert!(!is_empty(size(&q)));

    let taken = take_for(&mut q, "deadbeef-0000");
    assert_eq!(
        taken.iter().map(|p| p.text.as_str()).collect::<Vec<_>>(),
        vec!["first", "second"]
    );
    assert!(take_for(&mut q, "deadbeef-0000").is_empty());
    assert_eq!(take_for(&mut q, "cafecafe-1111").len(), 1);
    assert!(is_empty(size(&q)));
}

#[test]
fn rejects_invalid_ids_and_empty_text() {
    let mut q: Vec<QueuedPrompt> = Vec::new();
    assert!(enqueue(&mut q, "$(boom)", false, "hi", 1).is_err());
    assert!(enqueue(&mut q, "deadbeef-0000", true, "   ", 1).is_err());
    assert!(q.is_empty());
    assert!(is_empty(size(&q)));
}

#[test]
fn listing_takes_nothing() {
    let mut q: Vec<QueuedPrompt> = Vec::new();
    enqueue(&mut q, "deadbeef-0000", true, "one", 1).unwrap();
    enqueue(&mut q, "cafecafe-1111", true, "two", 2).unwrap();
    let texts: Vec<String> = list(&q).into_iter().map(|p| p.text).collect();
    assert_eq!(texts, vec!["one", "two"]);
    assert_eq!(q.len(), 2);
    assert_eq!(list(&q)[1].queued_at, 2);
}
