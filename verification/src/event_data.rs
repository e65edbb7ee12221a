//! The wire frame: `[u32 data_type][u32 sub_code][u32 payload...]`, every word
//! big-endian, at least eight bytes and a whole number of words.

use vstd::prelude::*;
use crate::constants::EVENT_TYPE_KEEPALIVE;

verus! {

/// One decoded frame, together with the bytes it was decoded from.
pub struct EventDataPacket {
    pub raw: Vec<u8>,
    pub data_type: u32,
    pub plc_packet_code: u32,
    pub data: Vec<u32>,
}

/// The mathematical content of a frame: its two header words and its payload.
pub struct Frame {
    pub data_type: u32,
    pub sub_code: u32,
    pub payload: Seq<u32>,
}

/// The big-endian word made of the four bytes of `bytes` that start at `at`.
pub open spec fn be_word(bytes: Seq<u8>, at: int) -> int {
    bytes[at] * 0x100_0000 + bytes[at + 1] * 0x1_0000 + bytes[at + 2] * 0x100 + bytes[at + 3]
}

/// The four bytes of `word`, most significant first.
pub open spec fn be_bytes(word: u32) -> Seq<u8> {
    seq![
        (word / 0x100_0000) as u8,
        (word / 0x1_0000 % 0x100) as u8,
        (word / 0x100 % 0x100) as u8,
        (word % 0x100) as u8,
    ]
}

/// The big-endian words of `bytes` from byte offset `from` to its end.
pub open spec fn be_words(bytes: Seq<u8>, from: int) -> Seq<u32> {
    Seq::new(
        if bytes.len() >= from { ((bytes.len() - from) / 4) as nat } else { 0 },
        |i: int| be_word(bytes, from + 4 * i) as u32,
    )
}

/// The bytes of `words`, each word big-endian, in order.
pub open spec fn words_bytes(words: Seq<u32>) -> Seq<u8> {
    Seq::new(words.len() * 4, |i: int| be_bytes(words[i / 4])[i % 4])
}

/// Whether `bytes` has the shape of a frame.
pub open spec fn is_well_framed(bytes: Seq<u8>) -> bool {
    bytes.len() >= 8 && bytes.len() % 4 == 0
}

/// What a buffer decodes to: nothing unless it is well framed.
pub open spec fn decode_frame(bytes: Seq<u8>) -> Option<Frame> {
    if is_well_framed(bytes) {
        Some(
            Frame {
                data_type: be_word(bytes, 0) as u32,
                sub_code: be_word(bytes, 4) as u32,
                payload: be_words(bytes, 8),
            },
        )
    } else {
        None
    }
}

/// The bytes a frame is sent as.
pub open spec fn encode_frame(frame: Frame) -> Seq<u8> {
    be_bytes(frame.data_type) + be_bytes(frame.sub_code) + words_bytes(frame.payload)
}

impl EventDataPacket {
    /// The frame this packet carries.
    pub open spec fn frame(&self) -> Frame {
        Frame { data_type: self.data_type, sub_code: self.plc_packet_code, payload: self.data@ }
    }

    /// A packet's decoded fields agree with the bytes it keeps.
    pub open spec fn well_formed(&self) -> bool {
        decode_frame(self.raw@) == Some(self.frame())
    }

    /// A copy of this packet.
    pub fn duplicate(&self) -> (copy: EventDataPacket)
        ensures
            copy.raw@ == self.raw@,
            copy.frame() == self.frame(),
    {
        let copy = EventDataPacket {
            raw: self.raw.clone(),
            data_type: self.data_type,
            plc_packet_code: self.plc_packet_code,
            data: self.data.clone(),
        };
        assert(copy.raw@ =~= self.raw@);
        assert(copy.data@ =~= self.data@);
        copy
    }
}

/// One persisted record: a decoded packet with the label of the server it
/// came from, the time it was stored, and the text of the query that found it.
pub struct SqlDataPacket {
    pub origin: String,
    pub timestamp: String,
    pub packet: EventDataPacket,
    pub query: String,
}

/// The mathematical content of a persisted record.
pub struct StoredEvent {
    pub origin: Seq<char>,
    pub timestamp: Seq<char>,
    pub frame: Frame,
}

impl SqlDataPacket {
    /// What this record holds, apart from the diagnostic query text.
    pub open spec fn event(&self) -> StoredEvent {
        StoredEvent {
            origin: self.origin@,
            timestamp: self.timestamp@,
            frame: self.packet.frame(),
        }
    }
}

/// Whether a packet is a liveness-only frame, which must never be stored.
pub fn is_system_packet(packet: &EventDataPacket) -> (system: bool)
    ensures
        system == (packet.data_type == 12),
{
    packet.data_type == EVENT_TYPE_KEEPALIVE
}

/// Reads the big-endian word that starts at `at`.
fn read_be_word(bytes: &[u8], at: usize) -> (word: u32)
    requires
        at + 4 <= bytes@.len(),
    ensures
        word == be_word(bytes@, at as int),
{
    let b0: u32 = bytes[at] as u32;
    let b1: u32 = bytes[at + 1] as u32;
    let b2: u32 = bytes[at + 2] as u32;
    let b3: u32 = bytes[at + 3] as u32;
    b0 * 0x100_0000 + b1 * 0x1_0000 + b2 * 0x100 + b3
}

/// Decodes one frame. A buffer shorter than eight bytes, or whose length is
/// not a multiple of four, is malformed and yields `None`.
pub fn parse_event_data_packet(bytes: &[u8]) -> (parsed: Option<EventDataPacket>)
    ensures
        parsed.is_some() == is_well_framed(bytes@),
        match parsed {
            Some(packet) => packet.raw@ == bytes@ && Some(packet.frame()) == decode_frame(bytes@)
                && packet.well_formed(),
            None => decode_frame(bytes@).is_none(),
        },
{
    let len: usize = bytes.len();
    if len < 8 || len % 4 != 0 {
        return None;
    }
    let mut raw: Vec<u8> = Vec::new();
    let mut k: usize = 0;
    while k < len
        invariant
            len == bytes@.len(),
            k <= len,
            raw@ == bytes@.subrange(0, k as int),
        decreases len - k,
    {
        raw.push(bytes[k]);
        k += 1;
        assert(raw@ =~= bytes@.subrange(0, k as int));
    }
    assert(raw@ =~= bytes@);
    let data_type: u32 = read_be_word(bytes, 0);
    let plc_packet_code: u32 = read_be_word(bytes, 4);
    let mut data: Vec<u32> = Vec::new();
    let mut at: usize = 8;
    while at < len
        invariant
            len == bytes@.len(),
            len % 4 == 0,
            8 <= at <= len,
            at % 4 == 0,
            data@.len() == (at - 8) / 4,
            forall|i: int| 0 <= i < data@.len() ==> data@[i] == be_word(bytes@, 8 + 4 * i) as u32,
        decreases len - at,
    {
        let word: u32 = read_be_word(bytes, at);
        data.push(word);
        at += 4;
    }
    assert(data@ =~= be_words(bytes@, 8));
    Some(EventDataPacket { raw, data_type, plc_packet_code, data })
}

/// Appends the four bytes of `word`, most significant first.
fn push_be_word(out: &mut Vec<u8>, word: u32)
    ensures
        final(out)@ == old(out)@ + be_bytes(word),
{
    out.push((word / 0x100_0000) as u8);
    out.push((word / 0x1_0000 % 0x100) as u8);
    out.push((word / 0x100 % 0x100) as u8);
    out.push((word % 0x100) as u8);
    assert(out@ =~= old(out)@ + be_bytes(word));
}

/// Encodes a frame as the bytes it is sent as.
pub fn encode_event_data_packet(data_type: u32, plc_packet_code: u32, data: &[u32]) -> (bytes: Vec<
    u8,
>)
    ensures
        bytes@ == encode_frame(
            Frame { data_type, sub_code: plc_packet_code, payload: data@ },
        ),
{
    let mut bytes: Vec<u8> = Vec::new();
    push_be_word(&mut bytes, data_type);
    push_be_word(&mut bytes, plc_packet_code);
    let ghost header = bytes@;
    let n: usize = data.len();
    let mut i: usize = 0;
    while i < n
        invariant
            n == data@.len(),
            i <= n,
            header == be_bytes(data_type) + be_bytes(plc_packet_code),
            bytes@ == header + words_bytes(data@.subrange(0, i as int)),
        decreases n - i,
    {
        let ghost before = bytes@;
        push_be_word(&mut bytes, data[i]);
        i += 1;
        assert(words_bytes(data@.subrange(0, i as int)) =~= words_bytes(
            data@.subrange(0, i - 1),
        ) + be_bytes(data@[i - 1]));
        assert(bytes@ =~= header + words_bytes(data@.subrange(0, i as int)));
    }
    assert(data@.subrange(0, n as int) =~= data@);
    bytes
}

/// A word's four bytes read back as that word.
pub proof fn lemma_be_word_of_be_bytes(prefix: Seq<u8>, word: u32, suffix: Seq<u8>)
    ensures
        be_word(prefix + be_bytes(word) + suffix, prefix.len() as int) == word,
{
    let bytes = prefix + be_bytes(word) + suffix;
    let at = prefix.len() as int;
    assert(bytes[at] == be_bytes(word)[0]);
    assert(bytes[at + 1] == be_bytes(word)[1]);
    assert(bytes[at + 2] == be_bytes(word)[2]);
    assert(bytes[at + 3] == be_bytes(word)[3]);
}

/// Four bytes are the bytes of the word they read as.
pub proof fn lemma_be_bytes_of_be_word(bytes: Seq<u8>, at: int)
    requires
        0 <= at,
        at + 4 <= bytes.len(),
    ensures
        0 <= be_word(bytes, at) <= u32::MAX,
        be_bytes(be_word(bytes, at) as u32) == bytes.subrange(at, at + 4),
{
    lemma_split_word(bytes[at], bytes[at + 1], bytes[at + 2], bytes[at + 3]);
    assert(be_bytes(be_word(bytes, at) as u32) =~= bytes.subrange(at, at + 4));
}

/// The four base-256 digits of a word are recovered by division and remainder.
proof fn lemma_split_word(b0: u8, b1: u8, b2: u8, b3: u8)
    ensures
        ({
            let w = b0 * 0x100_0000 + b1 * 0x1_0000 + b2 * 0x100 + b3;
            &&& 0 <= w <= u32::MAX
            &&& w / 0x100_0000 == b0
            &&& w / 0x1_0000 % 0x100 == b1
            &&& w / 0x100 % 0x100 == b2
            &&& w % 0x100 == b3
        }),
{
    let w = b0 * 0x100_0000 + b1 * 0x1_0000 + b2 * 0x100 + b3;
    let hi3 = b0 * 0x1_0000 + b1 * 0x100 + b2;
    let hi2 = b0 * 0x100 + b1;
    assert(w == hi3 * 0x100 + b3);
    assert(hi3 == hi2 * 0x100 + b2);
    assert(w / 0x100 == hi3 && w % 0x100 == b3);
    assert(hi3 / 0x100 == hi2 && hi3 % 0x100 == b2);
    assert(hi2 / 0x100 == b0 && hi2 % 0x100 == b1);
    assert(w / 0x1_0000 == hi2) by {
        assert(w == hi2 * 0x1_0000 + (b2 * 0x100 + b3));
    }
    assert(w / 0x100_0000 == b0) by {
        assert(w == b0 * 0x100_0000 + (b1 * 0x1_0000 + b2 * 0x100 + b3));
    }
}

/// Decoding inverts encoding: every frame whose bytes are sent is read back
/// as the same data type, sub-code and payload.
pub proof fn lemma_decode_inverts_encode(frame: Frame)
    ensures
        is_well_framed(encode_frame(frame)),
        decode_frame(encode_frame(frame)) == Some(frame),
{
    let bytes = encode_frame(frame);
    let header = be_bytes(frame.data_type) + be_bytes(frame.sub_code);
    let body = words_bytes(frame.payload);
    assert(bytes.len() == 8 + 4 * frame.payload.len());
    lemma_be_word_of_be_bytes(Seq::empty(), frame.data_type, be_bytes(frame.sub_code) + body);
    assert(Seq::<u8>::empty() + be_bytes(frame.data_type) + (be_bytes(frame.sub_code) + body)
        =~= bytes);
    lemma_be_word_of_be_bytes(be_bytes(frame.data_type), frame.sub_code, body);
    assert forall|i: int| 0 <= i < frame.payload.len() implies be_word(bytes, 8 + 4 * i)
        == frame.payload[i] by {
        let word = frame.payload[i];
        let prefix = bytes.subrange(0, 8 + 4 * i);
        let suffix = bytes.subrange(8 + 4 * i + 4, bytes.len() as int);
        assert(prefix + be_bytes(word) + suffix =~= bytes) by {
            assert forall|j: int| 0 <= j < 4 implies bytes[8 + 4 * i + j] == be_bytes(word)[j] by {
                assert(bytes[8 + 4 * i + j] == body[4 * i + j]);
                assert((4 * i + j) / 4 == i);
                assert((4 * i + j) % 4 == j);
            }
        }
        lemma_be_word_of_be_bytes(prefix, word, suffix);
    }
    assert(be_words(bytes, 8) =~= frame.payload);
}

/// Encoding inverts decoding: a well-framed buffer is exactly the encoding of
/// the frame it decodes to.
pub proof fn lemma_encode_inverts_decode(bytes: Seq<u8>)
    requires
        is_well_framed(bytes),
    ensures
        encode_frame(decode_frame(bytes).unwrap()) == bytes,
{
    let frame = decode_frame(bytes).unwrap();
    let out = encode_frame(frame);
    lemma_be_bytes_of_be_word(bytes, 0);
    lemma_be_bytes_of_be_word(bytes, 4);
    assert(out.len() == bytes.len());
    assert forall|k: int| 0 <= k < bytes.len() implies out[k] == bytes[k] by {
        if k < 4 {
            assert(out[k] == be_bytes(frame.data_type)[k]);
            assert(bytes.subrange(0, 4)[k] == bytes[k]);
        } else if k < 8 {
            assert(out[k] == be_bytes(frame.sub_code)[k - 4]);
            assert(bytes.subrange(4, 8)[k - 4] == bytes[k]);
        } else {
            let i = (k - 8) / 4;
            let j = (k - 8) % 4;
            assert(out[k] == words_bytes(frame.payload)[k - 8]);
            assert(out[k] == be_bytes(frame.payload[i])[j]);
            lemma_be_bytes_of_be_word(bytes, 8 + 4 * i);
            assert(bytes.subrange(8 + 4 * i, 8 + 4 * i + 4)[j] == bytes[k]);
        }
    }
    assert(out =~= bytes);
}

} // verus!
