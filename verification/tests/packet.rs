use parsed::stream::ByteStream;
use uppercut::remote::client::split_address;
use uppercut::remote::packet::Packet;
use uppercut::remote::server::{connection_tag, keep_open, PACKET_SIZE_LIMIT};
use uppercut::remote::choose_host;

fn sample() -> Packet {
    Packet::new("echo".to_string(), "spy".to_string(), b"Answer is 42.".to_vec(), 20001)
}

#[test]
fn test_packet_wire_format() {
    let bytes = sample().to_bytes().to_vec();
    let mut expected = vec![0, 0, 0, 4, 0, 0, 0, 3, 0, 0, 0, 13, 0x4e, 0x21];
    expected.extend_from_slice(b"echo");
    expected.extend_from_slice(b"spy");
    expected.extend_from_slice(b"Answer is 42.");
    assert_eq!(bytes, expected);
}

#[test]
fn test_packet_round_trip() {
    let p = Packet::new("é@x".to_string(), "from".to_string(), vec![1, 2, 3], 65535);
    let mut stream = ByteStream::wrap(p.to_bytes().to_vec());
    assert!(Packet::can_decode(&stream, PACKET_SIZE_LIMIT));
    let q = Packet::from_bytes(&mut stream, PACKET_SIZE_LIMIT).unwrap().unwrap();
    assert_eq!(q.to, "é@x");
    assert_eq!(q.from, "from");
    assert_eq!(q.payload, vec![1, 2, 3]);
    assert_eq!(q.port, 65535);
    assert_eq!(stream.len(), 0);
    assert_eq!(stream.pos(), 0);
}

#[test]
fn test_two_packets_in_one_stream() {
    let mut all = sample().to_bytes().to_vec();
    all.extend(Packet::new("a".to_string(), "b".to_string(), vec![], 1).to_bytes().to_vec());
    let mut stream = ByteStream::wrap(all);
    let first = Packet::from_bytes(&mut stream, PACKET_SIZE_LIMIT).unwrap().unwrap();
    assert_eq!(first.payload, b"Answer is 42.".to_vec());
    assert!(Packet::can_decode(&stream, PACKET_SIZE_LIMIT));
    let second = Packet::from_bytes(&mut stream, PACKET_SIZE_LIMIT).unwrap().unwrap();
    assert_eq!((second.to.as_str(), second.from.as_str(), second.port), ("a", "b", 1));
    assert_eq!(stream.len(), 0);
}

#[test]
fn test_short_stream_waits() {
    let bytes = sample().to_bytes().to_vec();
    let mut stream = ByteStream::wrap(bytes[..10].to_vec());
    assert!(Packet::from_bytes(&mut stream, PACKET_SIZE_LIMIT).unwrap().is_none());
    assert_eq!(stream.pos(), 0);
    // a bare header (nothing after it) also waits
    let mut header = ByteStream::wrap(vec![0; 14]);
    assert!(Packet::from_bytes(&mut header, PACKET_SIZE_LIMIT).unwrap().is_none());
    assert_eq!(header.pos(), 0);
}

#[test]
fn test_incomplete_packet_reads_past_header() {
    let bytes = sample().to_bytes().to_vec();
    let mut stream = ByteStream::wrap(bytes[..20].to_vec());
    assert!(Packet::from_bytes(&mut stream, PACKET_SIZE_LIMIT).unwrap().is_none());
    assert_eq!(stream.pos(), 14);
    assert_eq!(stream.len(), 20);
}

#[test]
fn test_oversized_packet_is_rejected() {
    let p = Packet::new("t".to_string(), "f".to_string(), vec![0; 5000], 1);
    let mut stream = ByteStream::wrap(p.to_bytes().to_vec());
    assert!(Packet::from_bytes(&mut stream, PACKET_SIZE_LIMIT).is_err());
    assert_eq!(stream.pos(), 14);
}

#[test]
fn test_invalid_utf8_is_not_decodable() {
    let mut bytes = vec![0, 0, 0, 1, 0, 0, 0, 1, 0, 0, 0, 0, 0, 1];
    bytes.push(0xff);
    bytes.push(b'a');
    let stream = ByteStream::wrap(bytes);
    assert!(!Packet::can_decode(&stream, PACKET_SIZE_LIMIT));
}

#[test]
fn test_split_address() {
    assert_eq!(
        split_address("echo@127.0.0.1:20002".to_string()),
        ("echo".to_string(), "127.0.0.1:20002".to_string())
    );
    assert_eq!(split_address("local".to_string()), ("local".to_string(), String::new()));
    assert_eq!(split_address("a@b@c".to_string()), ("a".to_string(), "b".to_string()));
    assert_eq!(split_address("@h".to_string()), (String::new(), "h".to_string()));
    assert_eq!(split_address("x@".to_string()), ("x".to_string(), String::new()));
    assert_eq!(split_address("é€@ü".to_string()), ("é€".to_string(), "ü".to_string()));
}

#[test]
fn test_keep_open() {
    assert_eq!(keep_open(true, true), (true, false));
    assert_eq!(keep_open(true, false), (true, false));
    assert_eq!(keep_open(false, false), (true, false));
    assert_eq!(keep_open(false, true), (false, true));
}

#[test]
fn test_choose_host() {
    assert_eq!(choose_host(vec![]), "127.0.0.1");
    assert_eq!(choose_host(vec![(true, "127.0.0.1".to_string())]), "127.0.0.1");
    assert_eq!(
        choose_host(vec![
            (true, "127.0.0.1".to_string()),
            (false, "192.168.1.2".to_string()),
            (false, "10.0.0.1".to_string())
        ]),
        "192.168.1.2"
    );
}

#[test]
fn test_connection_tag() {
    assert_eq!(connection_tag("$SERVER", 7), "$SERVER#000000000007");
    assert_eq!(connection_tag("$SERVER", 0), "$SERVER#000000000000");
    assert_eq!(connection_tag("s", 1234567890123), "s#1234567890123");
    for id in [1usize, 10, 99, 100, 999_999_999_999, usize::MAX] {
        assert_eq!(connection_tag("é", id), format!("{}#{:012}", "é", id));
    }
}
