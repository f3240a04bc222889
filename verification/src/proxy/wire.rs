//! The Wayland wire format: message framing, integer and string arguments,
//! and the messages the bridge writes itself.
//!
//! Words are encoded little-endian, the byte order of the hosts the bridge
//! is built for.

use vstd::prelude::*;

verus! {

/// Size of a message header: object id, then size and opcode.
pub const HEADER_SIZE: usize = 8;

/// Largest message size the 16-bit size field can hold.
pub const MAX_MESSAGE_SIZE: usize = 65535;

/// The four bytes of a word.
pub open spec fn le_bytes(x: u32) -> Seq<u8> {
    seq![
        (x % 256) as u8,
        ((x / 256) % 256) as u8,
        ((x / 65536) % 256) as u8,
        (x / 16777216) as u8,
    ]
}

/// The word stored at `i` in `s`.
pub open spec fn le_value(s: Seq<u8>, i: int) -> int {
    s[i] + s[i + 1] * 256 + s[i + 2] * 65536 + s[i + 3] * 16777216
}

/// A word's bytes read back give the word.
pub proof fn lemma_le_roundtrip(x: u32)
    ensures
        le_value(le_bytes(x), 0) == x,
{
    let b = le_bytes(x);
    assert(b[0] == x % 256);
    assert(b[1] == (x / 256) % 256);
    assert(b[2] == (x / 65536) % 256);
    assert(b[3] == x / 16777216);
    assert(x == x % 256 + 256 * ((x / 256) % 256) + 65536 * ((x / 65536) % 256) + 16777216 * (x
        / 16777216)) by (nonlinear_arith);
}

/// Four bytes written back from the word they hold are the same bytes.
pub proof fn lemma_le_value_bytes(s: Seq<u8>, i: int)
    requires
        0 <= i,
        i + 4 <= s.len(),
    ensures
        0 <= le_value(s, i) <= u32::MAX,
        le_bytes(le_value(s, i) as u32) == s.subrange(i, i + 4),
{
    let (a, b, c, d) = (s[i] as int, s[i + 1] as int, s[i + 2] as int, s[i + 3] as int);
    let v = a + b * 256 + c * 65536 + d * 16777216;
    assert(0 <= v <= u32::MAX) by (nonlinear_arith)
        requires
            0 <= a < 256,
            0 <= b < 256,
            0 <= c < 256,
            0 <= d < 256,
            v == a + b * 256 + c * 65536 + d * 16777216,
    ;
    assert(v % 256 == a && (v / 256) % 256 == b && (v / 65536) % 256 == c && v / 16777216 == d)
        by (nonlinear_arith)
        requires
            0 <= a < 256,
            0 <= b < 256,
            0 <= c < 256,
            0 <= d < 256,
            v == a + b * 256 + c * 65536 + d * 16777216,
    ;
    assert(le_bytes(v as u32) =~= s.subrange(i, i + 4));
}

/// Reads the word at `off`.
pub fn read_u32(b: &Vec<u8>, off: usize) -> (x: u32)
    requires
        off + 4 <= b@.len(),
    ensures
        x == le_value(b@, off as int),
{
    let len = b.len();
    assert(off + 4 <= len);
    let b0 = b[off] as u32;
    let b1 = b[off + 1] as u32;
    let b2 = b[off + 2] as u32;
    let b3 = b[off + 3] as u32;
    assert(b0 < 256 && b1 < 256 && b2 < 256 && b3 < 256);
    assert(b1 * 256 <= 65280 && b2 * 65536 <= 16711680 && b3 * 16777216 <= 4278190080)
        by (nonlinear_arith)
        requires
            b1 < 256,
            b2 < 256,
            b3 < 256,
    ;
    b0 + b1 * 256 + b2 * 65536 + b3 * 16777216
}

/// Appends a word.
pub fn push_u32(v: &mut Vec<u8>, x: u32)
    ensures
        final(v)@ == old(v)@ + le_bytes(x),
{
    v.push((x % 256) as u8);
    v.push(((x / 256) % 256) as u8);
    v.push(((x / 65536) % 256) as u8);
    v.push((x / 16777216) as u8);
    assert(final(v)@ =~= old(v)@ + le_bytes(x));
}

/// A string argument of `n` bytes (the terminating NUL included) takes this
/// many bytes after its length word.
pub open spec fn padded(n: int) -> int {
    (n + 3) / 4 * 4
}

/// The encoding of a string argument: its length with the NUL, its bytes,
/// the NUL, and zero padding to a multiple of four.
pub open spec fn string_arg(s: Seq<u8>) -> Seq<u8> {
    le_bytes((s.len() + 1) as u32) + s + Seq::new((padded(s.len() as int + 1) - s.len()) as nat, |i: int| 0u8)
}

/// Appends a string argument.
pub fn push_string(v: &mut Vec<u8>, s: &Vec<u8>)
    requires
        s@.len() + 4 <= u32::MAX,
    ensures
        final(v)@ == old(v)@ + string_arg(s@),
{
    let n = s.len();
    push_u32(v, (n + 1) as u32);
    let mut i: usize = 0;
    while i < n
        invariant
            n == s@.len(),
            i <= n,
            v@ == old(v)@ + le_bytes((n + 1) as u32) + s@.subrange(0, i as int),
        decreases n - i,
    {
        v.push(s[i]);
        i = i + 1;
        assert(v@ =~= old(v)@ + le_bytes((n + 1) as u32) + s@.subrange(0, i as int));
    }
    let total = (n + 4) / 4 * 4;
    let mut k: usize = n;
    while k < total
        invariant
            n == s@.len(),
            total == padded(n + 1),
            n <= k <= total,
            v@ == old(v)@ + le_bytes((n + 1) as u32) + s@ + Seq::new(
                (k - n) as nat,
                |j: int| 0u8,
            ),
        decreases total - k,
    {
        v.push(0u8);
        k = k + 1;
        assert(v@ =~= old(v)@ + le_bytes((n + 1) as u32) + s@ + Seq::new(
            (k - n) as nat,
            |j: int| 0u8,
        ));
    }
    assert(v@ =~= old(v)@ + string_arg(s@));
}

/// The string argument at `off` of `p`, without its NUL, and the offset just
/// past it; `None` when `p` does not hold a whole, non-empty one there.
pub open spec fn string_at(p: Seq<u8>, off: int) -> Option<(Seq<u8>, int)> {
    if off < 0 || off + 4 > p.len() {
        None
    } else {
        let n = le_value(p, off);
        if n < 1 || off + 4 + padded(n) > p.len() {
            None
        } else {
            Some((p.subrange(off + 4, off + 4 + n - 1), off + 4 + padded(n)))
        }
    }
}

/// Reads the string argument at `off`.
pub fn read_string(p: &Vec<u8>, off: usize) -> (r: Option<(Vec<u8>, usize)>)
    ensures
        match string_at(p@, off as int) {
            Some((s, next)) => r matches Some((rs, rn)) && rs@ == s && rn == next,
            None => r is None,
        },
{
    if off > p.len() || p.len() - off < 4 {
        return None;
    }
    let n = read_u32(p, off);
    if n < 1 {
        return None;
    }
    let pad: u64 = ((n as u64) + 3) / 4 * 4;
    if pad > (p.len() - off - 4) as u64 {
        return None;
    }
    let start = off + 4;
    let end = start + (n as usize) - 1;
    let mut s: Vec<u8> = Vec::new();
    let mut i = start;
    while i < end
        invariant
            start <= i <= end,
            end <= p@.len(),
            s@ == p@.subrange(start as int, i as int),
        decreases end - i,
    {
        s.push(p[i]);
        i = i + 1;
        assert(s@ =~= p@.subrange(start as int, i as int));
    }
    Some((s, start + pad as usize))
}

/// A message: the object it is addressed to, the opcode, and the
/// arguments.
pub struct Message {
    pub object_id: u32,
    pub opcode: u16,
    pub payload: Vec<u8>,
}

/// A message as values.
pub struct MessageView {
    pub object_id: u32,
    pub opcode: u16,
    pub payload: Seq<u8>,
}

impl View for Message {
    type V = MessageView;

    open spec fn view(&self) -> MessageView {
        MessageView { object_id: self.object_id, opcode: self.opcode, payload: self.payload@ }
    }
}

/// The messages of a list, as values.
pub open spec fn views(ms: Seq<Message>) -> Seq<MessageView> {
    ms.map_values(|m: Message| m@)
}

pub open spec fn mview(object_id: u32, opcode: u16, payload: Seq<u8>) -> MessageView {
    MessageView { object_id, opcode, payload }
}

/// The bytes of a message on the wire.
pub open spec fn encoding(m: MessageView) -> Seq<u8> {
    le_bytes(m.object_id) + le_bytes(((m.payload.len() + 8) * 65536 + m.opcode) as u32)
        + m.payload
}

/// The message whose bytes are exactly `b`, if any.
pub open spec fn decoding(b: Seq<u8>) -> Option<MessageView> {
    if b.len() < 8 || le_value(b, 4) / 65536 != b.len() {
        None
    } else {
        Some(
            MessageView {
                object_id: le_value(b, 0) as u32,
                opcode: (le_value(b, 4) % 65536) as u16,
                payload: b.subrange(8, b.len() as int),
            },
        )
    }
}

/// The size of the first message in `buf`, once the whole of it is there;
/// `None` while it is incomplete or when its size field is below a header.
pub open spec fn first_message_size(buf: Seq<u8>) -> Option<int> {
    if buf.len() < 8 {
        None
    } else {
        let size = le_value(buf, 4) / 65536;
        if size < 8 || size > buf.len() {
            None
        } else {
            Some(size)
        }
    }
}

/// The size of the first message in `buf`, once it has fully arrived.
pub fn next_message_size(buf: &Vec<u8>) -> (r: Option<usize>)
    ensures
        match first_message_size(buf@) {
            Some(n) => r == Some(n as usize),
            None => r is None,
        },
{
    if buf.len() < 8 {
        return None;
    }
    let w = read_u32(buf, 4);
    let size = (w / 65536) as usize;
    if size < 8 || size > buf.len() {
        None
    } else {
        Some(size)
    }
}

impl Message {
    /// Builds a message.
    pub fn new(object_id: u32, opcode: u16, payload: Vec<u8>) -> (m: Message)
        ensures
            m@ == mview(object_id, opcode, payload@),
    {
        Message { object_id, opcode, payload }
    }

    /// Parses a message from exactly its bytes.
    pub fn parse(b: &Vec<u8>) -> (r: Option<Message>)
        ensures
            match decoding(b@) {
                Some(m) => r matches Some(rm) && rm@ == m,
                None => r is None,
            },
    {
        if b.len() < 8 {
            return None;
        }
        let oid = read_u32(b, 0);
        let w = read_u32(b, 4);
        if (w / 65536) as usize != b.len() {
            return None;
        }
        let mut payload: Vec<u8> = Vec::new();
        let mut i: usize = 8;
        while i < b.len()
            invariant
                8 <= i <= b@.len(),
                payload@ == b@.subrange(8, i as int),
            decreases b@.len() - i,
        {
            payload.push(b[i]);
            i = i + 1;
            assert(payload@ =~= b@.subrange(8, i as int));
        }
        Some(Message { object_id: oid, opcode: (w % 65536) as u16, payload })
    }

    /// The bytes of the message.
    pub fn encode(&self) -> (b: Vec<u8>)
        requires
            self.payload@.len() + 8 <= MAX_MESSAGE_SIZE,
        ensures
            b@ == encoding(self@),
    {
        let mut b: Vec<u8> = Vec::new();
        push_u32(&mut b, self.object_id);
        let size = (self.payload.len() + 8) as u32;
        push_u32(&mut b, size * 65536 + self.opcode as u32);
        let mut i: usize = 0;
        while i < self.payload.len()
            invariant
                i <= self.payload@.len(),
                b@ == le_bytes(self.object_id) + le_bytes(
                    ((self.payload@.len() + 8) * 65536 + self.opcode) as u32,
                ) + self.payload@.subrange(0, i as int),
            decreases self.payload@.len() - i,
        {
            b.push(self.payload[i]);
            i = i + 1;
            assert(b@ =~= le_bytes(self.object_id) + le_bytes(
                ((self.payload@.len() + 8) * 65536 + self.opcode) as u32,
            ) + self.payload@.subrange(0, i as int));
        }
        assert(self.payload@.subrange(0, self.payload@.len() as int) =~= self.payload@);
        b
    }
}

/// Parsing the bytes of a message gives the message back.
pub proof fn lemma_decode_encoding(m: MessageView)
    requires
        m.payload.len() + 8 <= MAX_MESSAGE_SIZE,
    ensures
        decoding(encoding(m)) == Some(m),
{
    let w = ((m.payload.len() + 8) * 65536 + m.opcode) as u32;
    let e = encoding(m);
    lemma_le_roundtrip(m.object_id);
    lemma_le_roundtrip(w);
    assert(e.subrange(0, 4) =~= le_bytes(m.object_id));
    assert(e.subrange(4, 8) =~= le_bytes(w));
    assert(le_value(e, 0) == le_value(le_bytes(m.object_id), 0));
    assert(le_value(e, 4) == le_value(le_bytes(w), 0));
    assert(w == (m.payload.len() + 8) * 65536 + m.opcode);
    assert(le_value(e, 4) / 65536 == m.payload.len() + 8) by (nonlinear_arith)
        requires
            le_value(e, 4) == (m.payload.len() + 8) * 65536 + m.opcode,
            0 <= m.opcode < 65536,
    ;
    assert(le_value(e, 4) % 65536 == m.opcode) by (nonlinear_arith)
        requires
            le_value(e, 4) == (m.payload.len() + 8) * 65536 + m.opcode,
            0 <= m.opcode < 65536,
    ;
    assert(e.subrange(8, e.len() as int) =~= m.payload);
}

/// Encoding a parsed message gives its bytes back.
pub proof fn lemma_encoding_decode(b: Seq<u8>)
    requires
        decoding(b) is Some,
    ensures
        encoding(decoding(b).unwrap()) == b,
{
    let m = decoding(b).unwrap();
    lemma_le_value_bytes(b, 0);
    lemma_le_value_bytes(b, 4);
    let w = le_value(b, 4);
    assert(w == (w / 65536) * 65536 + w % 65536) by (nonlinear_arith);
    assert(((m.payload.len() + 8) * 65536 + m.opcode) == w);
    assert(encoding(m) =~= b.subrange(0, 4) + b.subrange(4, 8) + b.subrange(8, b.len() as int));
    assert(b =~= b.subrange(0, 4) + b.subrange(4, 8) + b.subrange(8, b.len() as int));
}

/// A whole message at the front of a receive buffer is always framed, with
/// exactly its own length, whatever follows it and however short its
/// payload (an argument-less request is 8 bytes); its bytes parse back to
/// it.
pub proof fn lemma_framing(m: MessageView, rest: Seq<u8>)
    requires
        m.payload.len() + 8 <= MAX_MESSAGE_SIZE,
    ensures
        first_message_size(encoding(m) + rest) == Some(encoding(m).len() as int),
        encoding(m).len() == m.payload.len() + 8,
        decoding((encoding(m) + rest).subrange(0, encoding(m).len() as int)) == Some(m),
{
    let e = encoding(m);
    let b = e + rest;
    lemma_decode_encoding(m);
    assert(e.len() == m.payload.len() + 8);
    assert(b.subrange(0, e.len() as int) =~= e);
    assert(le_value(b, 4) == le_value(e, 4));
}

} // verus!
