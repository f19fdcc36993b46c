use uppercut::api::Envelope;
use uppercut::mailbox::Mailbox;

const THROUGHPUT: usize = 4;
const CAPACITY: usize = 16;

fn make_envelope() -> Envelope<i32> {
    Envelope::of(42i32).to("Bob").from("Alice")
}

#[test]
fn test_put_and_get() {
    const N: usize = 10;
    let mut mbox = Mailbox::new(THROUGHPUT, CAPACITY);
    let queue = (0..N).map(|_| make_envelope()).collect::<Vec<_>>();

    mbox.put(queue);
    assert_eq!(N, mbox.len());

    let taken = mbox.get();
    assert_eq!(THROUGHPUT, taken.len());
    assert_eq!(N - THROUGHPUT * 1, mbox.len());

    let taken = mbox.get();
    assert_eq!(THROUGHPUT, taken.len());
    assert_eq!(N - THROUGHPUT * 2, mbox.len());

    let taken = mbox.get();
    assert_eq!(2, taken.len());
    assert_eq!(0, mbox.len());
}

#[test]
fn test_mailbox_keeps_order_across_batches() {
    let mut mbox = Mailbox::new(3, 0);
    mbox.put(vec![1, 2, 3, 4]);
    mbox.put(vec![5]);
    assert_eq!(mbox.get(), vec![1, 2, 3]);
    assert_eq!(mbox.get(), vec![4, 5]);
    assert!(mbox.is_empty());
    assert_eq!(mbox.get(), Vec::<i32>::new());
}

#[test]
fn test_mailbox_zero_throughput_hands_out_nothing() {
    let mut mbox = Mailbox::new(0, 4);
    mbox.put(vec![7, 8]);
    assert!(mbox.get().is_empty());
    assert_eq!(mbox.len(), 2);
}

#[test]
fn test_envelope_addresses() {
    let e = Envelope::of("hi").to("Bob").from("Alice");
    assert_eq!(e.message, "hi");
    assert_eq!(e.to, "Bob");
    assert_eq!(e.from, "Alice");
    let e = Envelope::of(1u8);
    assert_eq!(e.to, "");
    assert_eq!(e.from, "");
}
