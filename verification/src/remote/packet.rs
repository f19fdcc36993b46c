use vstd::prelude::*;
use vstd::utf8::*;
use bytes::{BufMut, Bytes, BytesMut};
use parsed::stream::ByteStream;

verus! {

/// `bytes::BytesMut`, a growable byte buffer, known to Verus only by name.
#[verifier::external_type_specification]
#[verifier::external_body]
pub struct ExBytesMut(BytesMut);

/// `bytes::Bytes`, an immutable byte buffer, known to Verus only by name.
#[verifier::external_type_specification]
#[verifier::external_body]
pub struct ExBytes(Bytes);

/// `parsed::stream::ByteStream`, a byte buffer with a read position, known to
/// Verus only by name.
#[verifier::external_type_specification]
#[verifier::external_body]
pub struct ExByteStream(ByteStream);

/// The bytes written so far into a `BytesMut`.
pub uninterp spec fn buffer_bytes(b: BytesMut) -> Seq<u8>;

/// The bytes that a `Bytes` holds.
pub uninterp spec fn frozen_bytes(b: Bytes) -> Seq<u8>;

/// Everything a `ByteStream` holds, read or not.
pub uninterp spec fn stream_bytes(s: ByteStream) -> Seq<u8>;

/// How many bytes of a `ByteStream` have been read.
pub uninterp spec fn stream_pos(s: ByteStream) -> nat;

/// The big-endian bytes of a `u32`.
pub open spec fn be_u32(x: u32) -> Seq<u8> {
    seq![
        (x / 0x1000000) as u8,
        ((x / 0x10000) % 0x100) as u8,
        ((x / 0x100) % 0x100) as u8,
        (x % 0x100) as u8,
    ]
}

/// The big-endian bytes of a `u16`.
pub open spec fn be_u16(x: u16) -> Seq<u8> {
    seq![(x / 0x100) as u8, (x % 0x100) as u8]
}

/// The `u32` that four big-endian bytes stand for.
pub open spec fn read_be_u32(b: Seq<u8>) -> u32 {
    (b[0] * 0x1000000 + b[1] * 0x10000 + b[2] * 0x100 + b[3]) as u32
}

/// The `u16` that two big-endian bytes stand for.
pub open spec fn read_be_u16(b: Seq<u8>) -> u16 {
    (b[0] * 0x100 + b[1]) as u16
}

/// Calls `BytesMut::with_capacity`, which gives an empty buffer; it panics
/// only when the capacity exceeds `isize::MAX` bytes.
#[verifier::external_body]
fn buffer_with_capacity(cap: usize) -> (b: BytesMut)
    requires
        cap <= isize::MAX,
    ensures
        buffer_bytes(b) == Seq::<u8>::empty(),
{
    BytesMut::with_capacity(cap)
}

/// Calls `BufMut::put_u32` on a `BytesMut`, which appends the big-endian bytes
/// of `n`; it panics only when the buffer would outgrow `isize::MAX` bytes.
#[verifier::external_body]
fn buffer_put_u32(b: &mut BytesMut, n: u32)
    requires
        buffer_bytes(*old(b)).len() + 4 <= isize::MAX,
    ensures
        buffer_bytes(*final(b)) == buffer_bytes(*old(b)) + be_u32(n),
{
    b.put_u32(n)
}

/// Calls `BufMut::put_u16` on a `BytesMut`, which appends the big-endian bytes
/// of `n`; it panics only when the buffer would outgrow `isize::MAX` bytes.
#[verifier::external_body]
fn buffer_put_u16(b: &mut BytesMut, n: u16)
    requires
        buffer_bytes(*old(b)).len() + 2 <= isize::MAX,
    ensures
        buffer_bytes(*final(b)) == buffer_bytes(*old(b)) + be_u16(n),
{
    b.put_u16(n)
}

/// Calls `BufMut::put` on a `BytesMut` with a byte slice, which appends the
/// slice; it panics only when the buffer would outgrow `isize::MAX` bytes.
#[verifier::external_body]
fn buffer_put(b: &mut BytesMut, src: &[u8])
    requires
        buffer_bytes(*old(b)).len() + src@.len() <= isize::MAX,
    ensures
        buffer_bytes(*final(b)) == buffer_bytes(*old(b)) + src@,
{
    b.put(src)
}

/// Calls `BytesMut::freeze`, which keeps the bytes written.
#[verifier::external_body]
fn buffer_freeze(b: BytesMut) -> (r: Bytes)
    ensures
        frozen_bytes(r) == buffer_bytes(b),
{
    b.freeze()
}

/// Calls `ByteStream::len`: the number of bytes held, read or not.
#[verifier::external_body]
fn stream_len(s: &ByteStream) -> (n: usize)
    ensures
        n == stream_bytes(*s).len(),
{
    s.len()
}

/// Calls `<ByteStream as AsRef<[u8]>>::as_ref`: the bytes not read yet.
#[verifier::external_body]
fn stream_unread(s: &ByteStream) -> (r: &[u8])
    requires
        stream_pos(*s) <= stream_bytes(*s).len(),
    ensures
        r@ == stream_bytes(*s).skip(stream_pos(*s) as int),
{
    s.as_ref()
}

/// Calls `ByteStream::get`: reads the next `n` bytes when that many are
/// held past the read position, else reads nothing.
#[verifier::external_body]
fn stream_get(s: &mut ByteStream, n: usize) -> (r: Option<Vec<u8>>)
    requires
        stream_pos(*old(s)) <= stream_bytes(*old(s)).len(),
        stream_pos(*old(s)) + n <= usize::MAX,
    ensures
        stream_bytes(*final(s)) == stream_bytes(*old(s)),
        stream_pos(*old(s)) + n <= stream_bytes(*old(s)).len() ==> {
            &&& r is Some
            &&& r->0@ == stream_bytes(*old(s)).subrange(
                stream_pos(*old(s)) as int,
                stream_pos(*old(s)) + n,
            )
            &&& stream_pos(*final(s)) == stream_pos(*old(s)) + n
        },
        stream_pos(*old(s)) + n > stream_bytes(*old(s)).len() ==> {
            &&& r is None
            &&& stream_pos(*final(s)) == stream_pos(*old(s))
        },
{
    s.get(n)
}

/// Calls `ByteStream::get_u32`: reads the next four bytes as a big-endian
/// number when that many are held past the read position, else reads nothing.
#[verifier::external_body]
fn stream_get_u32(s: &mut ByteStream) -> (r: Option<u32>)
    requires
        stream_pos(*old(s)) <= stream_bytes(*old(s)).len(),
        stream_pos(*old(s)) + 4 <= usize::MAX,
    ensures
        stream_bytes(*final(s)) == stream_bytes(*old(s)),
        stream_pos(*old(s)) + 4 <= stream_bytes(*old(s)).len() ==> {
            &&& r == Some(read_be_u32(stream_bytes(*old(s)).skip(stream_pos(*old(s)) as int)))
            &&& stream_pos(*final(s)) == stream_pos(*old(s)) + 4
        },
        stream_pos(*old(s)) + 4 > stream_bytes(*old(s)).len() ==> {
            &&& r is None
            &&& stream_pos(*final(s)) == stream_pos(*old(s))
        },
{
    s.get_u32()
}

/// Calls `ByteStream::get_u16`: reads the next two bytes as a big-endian
/// number when that many are held past the read position, else reads nothing.
#[verifier::external_body]
fn stream_get_u16(s: &mut ByteStream) -> (r: Option<u16>)
    requires
        stream_pos(*old(s)) <= stream_bytes(*old(s)).len(),
        stream_pos(*old(s)) + 2 <= usize::MAX,
    ensures
        stream_bytes(*final(s)) == stream_bytes(*old(s)),
        stream_pos(*old(s)) + 2 <= stream_bytes(*old(s)).len() ==> {
            &&& r == Some(read_be_u16(stream_bytes(*old(s)).skip(stream_pos(*old(s)) as int)))
            &&& stream_pos(*final(s)) == stream_pos(*old(s)) + 2
        },
        stream_pos(*old(s)) + 2 > stream_bytes(*old(s)).len() ==> {
            &&& r is None
            &&& stream_pos(*final(s)) == stream_pos(*old(s))
        },
{
    s.get_u16()
}

/// Calls `ByteStream::pull`: drops the bytes already read, unless nothing
/// was read or nothing is held.
#[verifier::external_body]
fn stream_pull(s: &mut ByteStream)
    requires
        stream_pos(*old(s)) <= stream_bytes(*old(s)).len(),
    ensures
        stream_pos(*old(s)) > 0 && stream_bytes(*old(s)).len() > 0 ==> {
            &&& stream_bytes(*final(s)) == stream_bytes(*old(s)).skip(stream_pos(*old(s)) as int)
            &&& stream_pos(*final(s)) == 0
        },
        !(stream_pos(*old(s)) > 0 && stream_bytes(*old(s)).len() > 0) ==> *final(s) == *old(s),
{
    s.pull()
}

/// Calls `String::from_utf8`, which accepts exactly the valid UTF-8 byte
/// sequences and decodes them.
#[verifier::external_body]
fn utf8_string(bytes: Vec<u8>) -> (r: Option<String>)
    ensures
        r is Some <==> valid_utf8(bytes@),
        r is Some ==> r->0@ == decode_utf8(bytes@),
{
    match String::from_utf8(bytes) {
        Ok(s) => Some(s),
        Err(_) => None,
    }
}

/// The length of the fixed header: three `u32` lengths and the `u16` port.
pub const HEADER_LEN: usize = 14;

/// A message to a remote actor: its address there, the address of the
/// sender, the bytes of the message, and the port at which the sending
/// system accepts replies.
pub struct Packet {
    pub to: String,
    pub from: String,
    pub payload: Vec<u8>,
    pub port: u16,
}

/// The abstract content of a packet.
pub struct PacketView {
    pub to: Seq<char>,
    pub from: Seq<char>,
    pub payload: Seq<u8>,
    pub port: u16,
}

impl View for Packet {
    type V = PacketView;

    open spec fn view(&self) -> PacketView {
        PacketView { to: self.to@, from: self.from@, payload: self.payload@, port: self.port }
    }
}

/// The number of bytes a packet takes on the wire.
pub open spec fn wire_len(p: PacketView) -> int {
    HEADER_LEN + encode_utf8(p.to).len() + encode_utf8(p.from).len() + p.payload.len()
}

/// A packet on the wire: the byte lengths of the receiver address, the sender
/// address and the payload, each as a big-endian `u32` (cut to 32 bits), the
/// port as a big-endian `u16`, then the two addresses in UTF-8 and the payload.
pub open spec fn wire(p: PacketView) -> Seq<u8> {
    frame(encode_utf8(p.to), encode_utf8(p.from), p.payload, p.port)
}

/// Three byte strings and a port framed as a packet: a header of their
/// lengths (as big-endian `u32`s cut to 32 bits) and the port (big-endian),
/// then the three strings.
pub open spec fn frame(to: Seq<u8>, from: Seq<u8>, payload: Seq<u8>, port: u16) -> Seq<u8> {
    be_u32(to.len() as u32) + be_u32(from.len() as u32) + be_u32(payload.len() as u32) + be_u16(port)
        + to + from + payload
}

/// The `i`-th length field of the header that starts at `pos`.
pub open spec fn field_len(b: Seq<u8>, pos: int, i: int) -> int {
    read_be_u32(b.skip(pos + 4 * i)) as int
}

/// The number of bytes of the packet whose header starts at `pos`.
pub open spec fn packet_total(b: Seq<u8>, pos: int) -> int {
    HEADER_LEN + field_len(b, pos, 0) + field_len(b, pos, 1) + field_len(b, pos, 2)
}

/// What reading a packet from a stream holding `b`, read up to `pos`, gives:
/// nothing yet while the stream holds at most a header's worth of bytes or
/// less than the packet announced by the header at `pos`, an error when that
/// packet would be longer than `limit`, else the packet.
pub open spec fn decode(b: Seq<u8>, pos: int, limit: int) -> Result<Option<PacketView>, ()> {
    let total = packet_total(b, pos);
    let t = field_len(b, pos, 0);
    let f = field_len(b, pos, 1);
    let l = field_len(b, pos, 2);
    let start = pos + HEADER_LEN;
    if b.len() <= HEADER_LEN {
        Ok(None)
    } else if total > limit {
        Err(())
    } else if b.len() < total {
        Ok(None)
    } else {
        Ok(
            Some(
                PacketView {
                    to: decode_utf8(b.subrange(start, start + t)),
                    from: decode_utf8(b.subrange(start + t, start + t + f)),
                    payload: b.subrange(start + t + f, start + t + f + l),
                    port: read_be_u16(b.skip(pos + 12)),
                },
            ),
        )
    }
}

/// What the stream holds, and its read position, after reading a packet:
/// untouched when it held at most a header's worth of bytes, read past the
/// header when no packet came out, and emptied of the packet and everything
/// before it when one did.
pub open spec fn decode_rest(b: Seq<u8>, pos: int, limit: int) -> (Seq<u8>, int) {
    let total = packet_total(b, pos);
    if b.len() <= HEADER_LEN {
        (b, pos)
    } else if total > limit || b.len() < total {
        (b, pos + HEADER_LEN)
    } else {
        (b.skip(pos + total), 0)
    }
}

/// Reading a packet does not fail on this stream: the header lies within it,
/// the announced length is a machine number, and a packet that is taken out
/// lies within the stream with both addresses in valid UTF-8.
pub open spec fn decodable(b: Seq<u8>, pos: int, limit: int) -> bool {
    let total = packet_total(b, pos);
    let t = field_len(b, pos, 0);
    let f = field_len(b, pos, 1);
    let start = pos + HEADER_LEN;
    b.len() <= HEADER_LEN || {
        &&& pos + HEADER_LEN <= b.len()
        &&& total <= usize::MAX
        &&& total <= limit && total <= b.len() ==> {
            &&& pos + total <= b.len()
            &&& valid_utf8(b.subrange(start, start + t))
            &&& valid_utf8(b.subrange(start + t, start + t + f))
        }
    }
}

/// The `u32` stored big-endian at `b[i..i + 4]`.
fn read_u32_at(b: &[u8], i: usize) -> (r: u32)
    requires
        i + 4 <= b@.len(),
    ensures
        r == read_be_u32(b@.skip(i as int)),
{
    let x: u64 = (b[i] as u64) * 0x1000000 + (b[i + 1] as u64) * 0x10000 + (b[i + 2] as u64) * 0x100
        + (b[i + 3] as u64);
    x as u32
}

/// A copy of `b[start..end]`.
fn copy_range(b: &[u8], start: usize, end: usize) -> (r: Vec<u8>)
    requires
        start <= end <= b@.len(),
    ensures
        r@ == b@.subrange(start as int, end as int),
{
    vstd::slice::slice_to_vec(vstd::slice::slice_subrange(b, start, end))
}

impl Packet {
    /// A packet from its parts.
    pub fn new(to: String, from: String, payload: Vec<u8>, port: u16) -> (p: Self)
        ensures
            p.to == to,
            p.from == from,
            p.payload == payload,
            p.port == port,
    {
        Packet { to, from, payload, port }
    }

    /// The packet as it goes on the wire.
    pub fn to_bytes(&self) -> (b: Bytes)
        requires
            wire_len(self@) <= isize::MAX,
        ensures
            frozen_bytes(b) == wire(self@),
    {
        let to = self.to.as_str().as_bytes();
        let from = self.from.as_str().as_bytes();
        let cap: usize = HEADER_LEN + self.payload.len() + to.len() + from.len();
        let mut bytes = buffer_with_capacity(cap);
        buffer_put_u32(&mut bytes, to.len() as u32);
        buffer_put_u32(&mut bytes, from.len() as u32);
        buffer_put_u32(&mut bytes, self.payload.len() as u32);
        buffer_put_u16(&mut bytes, self.port);
        buffer_put(&mut bytes, to);
        buffer_put(&mut bytes, from);
        buffer_put(&mut bytes, self.payload.as_slice());
        let r = buffer_freeze(bytes);
        assert(frozen_bytes(r) =~= wire(self@));
        r
    }

    /// Whether `from_bytes` can read from this stream without failing.
    pub fn can_decode(stream: &ByteStream, limit: usize) -> (b: bool)
        requires
            stream_pos(*stream) <= stream_bytes(*stream).len(),
        ensures
            b == decodable(stream_bytes(*stream), stream_pos(*stream) as int, limit as int),
    {
        let ghost bs = stream_bytes(*stream);
        let ghost pos = stream_pos(*stream) as int;
        let len = stream_len(stream);
        if len <= HEADER_LEN {
            return true;
        }
        let rest = stream_unread(stream);
        if rest.len() < HEADER_LEN {
            return false;
        }
        let t = read_u32_at(rest, 0);
        let f = read_u32_at(rest, 4);
        let l = read_u32_at(rest, 8);
        proof {
            assert(rest@.skip(0) =~= bs.skip(pos));
            assert(rest@.skip(4) =~= bs.skip(pos + 4));
            assert(rest@.skip(8) =~= bs.skip(pos + 8));
        }
        let total: u64 = 14 + t as u64 + f as u64 + l as u64;
        if total > usize::MAX as u64 {
            return false;
        }
        let total = total as usize;
        if total > limit || total > len {
            return true;
        }
        if rest.len() < total {
            return false;
        }
        let start = HEADER_LEN;
        let to_ok = match utf8_string(copy_range(rest, start, start + t as usize)) {
            Some(_) => true,
            None => false,
        };
        let from_ok = match utf8_string(copy_range(rest, start + t as usize, start + t as usize + f as usize)) {
            Some(_) => true,
            None => false,
        };
        proof {
            let s = pos + 14;
            assert(rest@.subrange(14, 14 + t) =~= bs.subrange(s, s + t));
            assert(rest@.subrange(14 + t, 14 + t + f) =~= bs.subrange(s + t, s + t + f));
        }
        to_ok && from_ok
    }

    /// Reads the next packet from a stream of received bytes, as `decode` and
    /// `decode_rest` describe.
    pub fn from_bytes(stream: &mut ByteStream, limit: usize) -> (r: Result<Option<Packet>, ()>)
        requires
            stream_pos(*old(stream)) <= stream_bytes(*old(stream)).len(),
            decodable(stream_bytes(*old(stream)), stream_pos(*old(stream)) as int, limit as int),
        ensures
            ({
                let d = decode(stream_bytes(*old(stream)), stream_pos(*old(stream)) as int, limit as int);
                match r {
                    Ok(Some(p)) => d == Ok::<Option<PacketView>, ()>(Some(p@)),
                    Ok(None) => d == Ok::<Option<PacketView>, ()>(None),
                    Err(_) => d == Err::<Option<PacketView>, ()>(()),
                }
            }),
            stream_bytes(*final(stream)) == decode_rest(
                stream_bytes(*old(stream)),
                stream_pos(*old(stream)) as int,
                limit as int,
            ).0,
            stream_pos(*final(stream)) == decode_rest(
                stream_bytes(*old(stream)),
                stream_pos(*old(stream)) as int,
                limit as int,
            ).1,
    {
        let ghost bs = stream_bytes(*stream);
        let ghost pos = stream_pos(*stream) as int;
        let min: usize = HEADER_LEN;
        if stream_len(stream) <= min {
            return Ok(None);
        }
        let to_len = stream_get_u32(stream).unwrap() as usize;
        let from_len = stream_get_u32(stream).unwrap() as usize;
        let payload_len = stream_get_u32(stream).unwrap() as usize;
        let port = stream_get_u16(stream).unwrap();
        proof {
            assert(bs.skip(pos + 4) == bs.skip(pos + 4 * 1));
            assert(bs.skip(pos + 8) == bs.skip(pos + 4 * 2));
            assert(bs.skip(pos) == bs.skip(pos + 4 * 0));
        }
        let total = min + to_len + from_len + payload_len;
        if total > limit {
            return Err(());
        }
        if stream_len(stream) < total {
            return Ok(None);
        }
        let to = utf8_string(stream_get(stream, to_len).unwrap()).unwrap();
        let from = utf8_string(stream_get(stream, from_len).unwrap()).unwrap();
        let payload = stream_get(stream, payload_len).unwrap();
        stream_pull(stream);
        Ok(Some(Packet { to, from, payload, port }))
    }
}

/// Reading back the big-endian bytes of a number gives the number.
pub proof fn lemma_be_round_trip(x: u32, y: u16)
    ensures
        read_be_u32(be_u32(x)) == x,
        read_be_u16(be_u16(y)) == y,
{
    let xi = x as int;
    assert(xi == (xi / 0x1000000) * 0x1000000 + ((xi / 0x10000) % 0x100) * 0x10000 + ((xi / 0x100)
        % 0x100) * 0x100 + xi % 0x100) by (nonlinear_arith)
        requires
            0 <= xi < 0x100000000,
    ;
    let yi = y as int;
    assert(yi == (yi / 0x100) * 0x100 + yi % 0x100) by (nonlinear_arith)
        requires
            0 <= yi < 0x10000,
    ;
}

/// The header of a frame reads back as the lengths and the port, and the
/// strings follow it.
proof fn lemma_frame(to: Seq<u8>, from: Seq<u8>, payload: Seq<u8>, port: u16)
    requires
        to.len() <= u32::MAX,
        from.len() <= u32::MAX,
        payload.len() <= u32::MAX,
    ensures
        ({
            let w = frame(to, from, payload, port);
            let tl = to.len() as int;
            let fl = from.len() as int;
            let pl = payload.len() as int;
            &&& w.len() == 14 + tl + fl + pl
            &&& field_len(w, 0, 0) == tl
            &&& field_len(w, 0, 1) == fl
            &&& field_len(w, 0, 2) == pl
            &&& read_be_u16(w.skip(12)) == port
            &&& w.subrange(14, 14 + tl) == to
            &&& w.subrange(14 + tl, 14 + tl + fl) == from
            &&& w.subrange(14 + tl + fl, 14 + tl + fl + pl) == payload
        }),
{
    let w = frame(to, from, payload, port);
    let t = to.len() as u32;
    let f = from.len() as u32;
    let l = payload.len() as u32;
    let hdr = be_u32(t) + be_u32(f) + be_u32(l) + be_u16(port);
    let body = to + from + payload;
    assert(w =~= hdr + body);
    lemma_be_round_trip(t, port);
    lemma_be_round_trip(f, port);
    lemma_be_round_trip(l, port);
    let s0 = w.skip(0);
    let s1 = w.skip(4int * 1);
    let s2 = w.skip(4int * 2);
    let s3 = w.skip(12);
    assert(s0[0] == be_u32(t)[0] && s0[1] == be_u32(t)[1] && s0[2] == be_u32(t)[2] && s0[3] == be_u32(t)[3]);
    assert(s1[0] == be_u32(f)[0] && s1[1] == be_u32(f)[1] && s1[2] == be_u32(f)[2] && s1[3] == be_u32(f)[3]);
    assert(s2[0] == be_u32(l)[0] && s2[1] == be_u32(l)[1] && s2[2] == be_u32(l)[2] && s2[3] == be_u32(l)[3]);
    assert(s3[0] == be_u16(port)[0] && s3[1] == be_u16(port)[1]);
    let tl = to.len() as int;
    let fl = from.len() as int;
    let pl = payload.len() as int;
    assert(w.subrange(14, 14 + tl) =~= to);
    assert(w.subrange(14 + tl, 14 + tl + fl) =~= from);
    assert(w.subrange(14 + tl + fl, 14 + tl + fl + pl) =~= payload);
}

/// A packet survives the wire: reading the bytes of a packet from a fresh
/// stream gives back the same packet and leaves the stream empty. (A packet
/// of a bare header, with both addresses and the payload empty, is never
/// read back: a stream holding only a header's worth of bytes waits for more.)
pub proof fn law_packet_round_trip(p: PacketView, limit: int)
    requires
        encode_utf8(p.to).len() <= u32::MAX,
        encode_utf8(p.from).len() <= u32::MAX,
        p.payload.len() <= u32::MAX,
        HEADER_LEN < wire_len(p) <= limit,
        wire_len(p) <= usize::MAX,
    ensures
        wire(p).len() == wire_len(p),
        decodable(wire(p), 0, limit),
        decode(wire(p), 0, limit) == Ok::<Option<PacketView>, ()>(Some(p)),
        decode_rest(wire(p), 0, limit) == (Seq::<u8>::empty(), 0int),
{
    let to = encode_utf8(p.to);
    let from = encode_utf8(p.from);
    let w = wire(p);
    lemma_frame(to, from, p.payload, p.port);
    encode_utf8_valid_utf8(p.to);
    encode_utf8_valid_utf8(p.from);
    encode_utf8_decode_utf8(p.to);
    encode_utf8_decode_utf8(p.from);
    assert(w.skip(w.len() as int) =~= Seq::<u8>::empty());
}

/// Packets that arrive back to back are read one at a time: a stream that
/// holds the bytes of a packet followed by any further bytes can be read
/// without failing, gives that packet, and keeps exactly the bytes that
/// follow it, to be read from their start.
pub proof fn law_packet_then_rest(p: PacketView, rest: Seq<u8>, limit: int)
    requires
        encode_utf8(p.to).len() <= u32::MAX,
        encode_utf8(p.from).len() <= u32::MAX,
        p.payload.len() <= u32::MAX,
        HEADER_LEN < wire_len(p) <= limit,
        wire_len(p) <= usize::MAX,
    ensures
        decodable(wire(p) + rest, 0, limit),
        decode(wire(p) + rest, 0, limit) == Ok::<Option<PacketView>, ()>(Some(p)),
        decode_rest(wire(p) + rest, 0, limit) == (rest, 0int),
{
    let to = encode_utf8(p.to);
    let from = encode_utf8(p.from);
    let w = wire(p);
    let b = w + rest;
    lemma_frame(to, from, p.payload, p.port);
    encode_utf8_valid_utf8(p.to);
    encode_utf8_valid_utf8(p.from);
    encode_utf8_decode_utf8(p.to);
    encode_utf8_decode_utf8(p.from);
    let tl = to.len() as int;
    let fl = from.len() as int;
    let pl = p.payload.len() as int;
    assert forall|k: int| 0 <= k < w.len() implies b[k] == w[k] by {}
    assert(b.skip(0)[0] == w.skip(0)[0] && b.skip(0)[1] == w.skip(0)[1]);
    assert(b.skip(0)[2] == w.skip(0)[2] && b.skip(0)[3] == w.skip(0)[3]);
    assert(field_len(b, 0, 0) == tl);
    assert(b.skip(4int * 1)[0] == w.skip(4int * 1)[0] && b.skip(4int * 1)[1] == w.skip(4int * 1)[1]);
    assert(b.skip(4int * 1)[2] == w.skip(4int * 1)[2] && b.skip(4int * 1)[3] == w.skip(4int * 1)[3]);
    assert(field_len(b, 0, 1) == fl);
    assert(b.skip(4int * 2)[0] == w.skip(4int * 2)[0] && b.skip(4int * 2)[1] == w.skip(4int * 2)[1]);
    assert(b.skip(4int * 2)[2] == w.skip(4int * 2)[2] && b.skip(4int * 2)[3] == w.skip(4int * 2)[3]);
    assert(field_len(b, 0, 2) == pl);
    assert(b.skip(12)[0] == w.skip(12)[0] && b.skip(12)[1] == w.skip(12)[1]);
    assert(read_be_u16(b.skip(0int + 12)) == p.port);
    assert(b.subrange(14, 14 + tl) =~= w.subrange(14, 14 + tl));
    assert(b.subrange(14 + tl, 14 + tl + fl) =~= w.subrange(14 + tl, 14 + tl + fl));
    assert(b.subrange(14 + tl + fl, 14 + tl + fl + pl) =~= w.subrange(14 + tl + fl, 14 + tl + fl + pl));
    assert(b.skip(0int + packet_total(b, 0)) =~= rest);
}

} // verus!
