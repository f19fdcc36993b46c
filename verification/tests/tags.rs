use uppercut::tags::TagMap;
use uppercut::timer::TaskQueue;
use uppercut::runtime::Entry;
use uppercut::api::Envelope;
use uppercut::text::{contains_at_sign, find_at_sign};

#[test]
fn test_tag_map_insert_get_remove() {
    let mut m: TagMap<u32> = TagMap::new();
    let a = "a".to_string();
    let b = "b".to_string();
    m.insert(a.clone(), 1);
    m.insert(b.clone(), 2);
    m.insert(a.clone(), 3);
    assert_eq!(m.len(), 2);
    assert_eq!(m.get(&a), Some(&3));
    assert!(m.contains_key(&b));
    assert_eq!(m.remove(&b), Some(2));
    assert_eq!(m.remove(&b), None);
    assert_eq!(m.len(), 1);
    let all = m.drain();
    assert_eq!(all, vec![(a.clone(), 3)]);
    assert_eq!(m.len(), 0);
    assert_eq!(m.get(&a), None);
}

#[test]
fn test_task_queue_orders_by_time() {
    let mut q: TaskQueue<u8> = TaskQueue::new();
    let e = |at: u64, m: u8| Entry { at, tag: "t".to_string(), envelope: Envelope::of(m) };
    q.push(e(5, 1));
    q.push(e(2, 2));
    q.push(e(5, 3));
    q.push(e(9, 4));
    assert_eq!(q.first_at(), Some(2));
    assert_eq!(q.len(), 4);
    let due: Vec<u8> = q.pop_due(5).into_iter().map(|e| e.envelope.message).collect();
    assert_eq!(due, vec![2, 1, 3]);
    assert_eq!(q.first_at(), Some(9));
    assert!(q.pop_due(8).is_empty());
}

#[test]
fn test_at_sign_search() {
    assert_eq!(find_at_sign(b"ab@c@"), 2);
    assert_eq!(find_at_sign(b"abc"), 3);
    assert!(contains_at_sign("x@y"));
    assert!(!contains_at_sign("xy€"));
}
