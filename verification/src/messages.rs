//! The wire format of the messages exchanged with the game server.
//!
//! Both directions carry an optional one-of payload whose only variant is a
//! debug text message. The encoding follows the protobuf wire format for
//! that shape: an absent payload encodes to nothing; a present payload is
//! field 1 with wire type 2, so a `0x0A` tag, a varint length, and the
//! nested [`DebugMessage`] bytes, which are themselves either empty (for an
//! empty text) or a `0x0A` tag, a varint length and the UTF-8 bytes of the
//! text. [`decode_message`] is the exact inverse on everything
//! [`encode_message`] produces and rejects everything else, which
//! [`lemma_message_round_trip`] proves.
use vstd::prelude::*;
use vstd::string::StrSliceExecFns;
use vstd::utf8::*;
use vstd::arithmetic::div_mod::lemma_fundamental_div_mod;

use crate::client_message;
use crate::server_message;

verus! {

/// A plain text message used to exercise the network path.
pub struct DebugMessage {
    pub content: String,
}

impl View for DebugMessage {
    type V = Seq<char>;

    /// A debug message is just its text.
    open spec fn view(&self) -> Seq<char> {
        self.content@
    }
}

/// A message from a client: an optional one-of payload.
pub struct ClientMessage {
    pub message: Option<client_message::Message>,
}

impl View for ClientMessage {
    type V = Option<Seq<char>>;

    /// The payload text, when a payload is present.
    open spec fn view(&self) -> Option<Seq<char>> {
        match self.message {
            Some(client_message::Message::DebugMessage(d)) => Some(d.content@),
            None => None,
        }
    }
}

/// A message from the server: an optional one-of payload.
pub struct ServerMessage {
    pub message: Option<server_message::Message>,
}

impl View for ServerMessage {
    type V = Option<Seq<char>>;

    /// The payload text, when a payload is present.
    open spec fn view(&self) -> Option<Seq<char>> {
        match self.message {
            Some(server_message::Message::DebugMessage(d)) => Some(d.content@),
            None => None,
        }
    }
}

/// A buffer that does not decode as a message.
#[derive(Clone, Copy, PartialEq, Eq, Structural, Debug)]
pub struct DecodeError;

/// The tag byte of field 1 with wire type 2 (length-delimited).
pub const FIELD_1_BYTES_TAG: u8 = 0x0A;

/// The base-128 varint encoding of `n`, least significant group first.
pub open spec fn spec_varint(n: nat) -> Seq<u8>
    decreases n,
{
    if n < 128 {
        seq![n as u8]
    } else {
        seq![(n % 128 + 128) as u8] + spec_varint(n / 128)
    }
}

/// Reads one varint from the front of `b`: its value and how many bytes it
/// took; `None` when `b` is empty or ends inside the varint.
pub open spec fn parse_varint(b: Seq<u8>) -> Option<(nat, int)>
    decreases b.len(),
{
    if b.len() == 0 {
        None
    } else if b[0] < 128 {
        Some((b[0] as nat, 1))
    } else {
        match parse_varint(b.skip(1)) {
            Some(vk) => Some((((b[0] - 128) + 128 * vk.0) as nat, vk.1 + 1)),
            None => None,
        }
    }
}

/// The encoding of a debug message with text `s`: nothing when the text is
/// empty (the field keeps its default), else the tag of field 1, the byte
/// length and the UTF-8 bytes.
pub open spec fn encode_debug(s: Seq<char>) -> Seq<u8> {
    let bs = encode_utf8(s);
    if bs.len() == 0 {
        Seq::empty()
    } else {
        seq![FIELD_1_BYTES_TAG] + spec_varint(bs.len()) + bs
    }
}

/// The encoding of a message with payload `m`: nothing when no payload is
/// present, else the tag of the one-of field, the length and the nested
/// debug-message bytes.
pub open spec fn encode_message(m: Option<Seq<char>>) -> Seq<u8> {
    match m {
        None => Seq::empty(),
        Some(s) => {
            let inner = encode_debug(s);
            seq![FIELD_1_BYTES_TAG] + spec_varint(inner.len()) + inner
        },
    }
}

/// Decodes debug-message bytes: an empty buffer is the empty text; else
/// the buffer must be exactly the tag, a length that covers the rest, and
/// valid UTF-8 text.
pub open spec fn decode_debug(b: Seq<u8>) -> Option<Seq<char>> {
    if b.len() == 0 {
        Some(Seq::empty())
    } else if b[0] != FIELD_1_BYTES_TAG {
        None
    } else {
        match parse_varint(b.skip(1)) {
            None => None,
            Some(vk) => {
                let rest = b.skip(1 + vk.1);
                if rest.len() == vk.0 && valid_utf8(rest) {
                    Some(decode_utf8(rest))
                } else {
                    None
                }
            },
        }
    }
}

/// Decodes message bytes: an empty buffer is a message without payload;
/// else the buffer must be exactly the tag, a length that covers the rest,
/// and a well-formed nested debug message.
pub open spec fn decode_message(b: Seq<u8>) -> Option<Option<Seq<char>>> {
    if b.len() == 0 {
        Some(None)
    } else if b[0] != FIELD_1_BYTES_TAG {
        None
    } else {
        match parse_varint(b.skip(1)) {
            None => None,
            Some(vk) => {
                let rest = b.skip(1 + vk.1);
                if rest.len() == vk.0 {
                    match decode_debug(rest) {
                        Some(s) => Some(Some(s)),
                        None => None,
                    }
                } else {
                    None
                }
            },
        }
    }
}

/// A varint written by [`spec_varint`] parses back to its value, leaving
/// exactly the trailing bytes.
pub proof fn lemma_parse_varint_inverse(n: nat, rest: Seq<u8>)
    ensures
        parse_varint(spec_varint(n) + rest) == Some((n, spec_varint(n).len() as int)),
    decreases n,
{
    let b = spec_varint(n) + rest;
    if n < 128 {
        assert(b[0] == n as u8);
    } else {
        assert(b[0] == (n % 128 + 128) as u8);
        assert(b[0] >= 128);
        assert(b.skip(1) =~= spec_varint(n / 128) + rest);
        lemma_parse_varint_inverse(n / 128, rest);
        lemma_fundamental_div_mod(n as int, 128);
        assert(((b[0] - 128) + 128 * (n / 128)) as nat == n);
    }
}

/// A nonempty text has a nonempty UTF-8 encoding, and an empty one an
/// empty encoding.
pub proof fn lemma_encode_utf8_empty(s: Seq<char>)
    ensures
        encode_utf8(s).len() == 0 <==> s.len() == 0,
{
    if s.len() > 0 {
        assert(encode_utf8(s) == encode_scalar(s[0] as u32) + encode_utf8(s.drop_first()));
        assert(encode_scalar(s[0] as u32).len() >= 1);
    }
}

/// Decoding inverts encoding on debug-message bytes.
pub proof fn lemma_debug_round_trip(s: Seq<char>)
    ensures
        decode_debug(encode_debug(s)) == Some(s),
{
    let bs = encode_utf8(s);
    lemma_encode_utf8_empty(s);
    if bs.len() == 0 {
        assert(s =~= Seq::<char>::empty());
    } else {
        let b = encode_debug(s);
        assert(b[0] == FIELD_1_BYTES_TAG);
        assert(b.skip(1) =~= spec_varint(bs.len()) + bs);
        lemma_parse_varint_inverse(bs.len(), bs);
        let k = spec_varint(bs.len()).len() as int;
        assert(b.skip(1 + k) =~= bs);
        encode_utf8_valid_utf8(s);
        encode_utf8_decode_utf8(s);
    }
}

/// Decoding inverts encoding: every message comes back from its own bytes.
pub proof fn lemma_message_round_trip(m: Option<Seq<char>>)
    ensures
        decode_message(encode_message(m)) == Some(m),
{
    match m {
        None => {},
        Some(s) => {
            let inner = encode_debug(s);
            let b = encode_message(m);
            assert(b[0] == FIELD_1_BYTES_TAG);
            assert(b.skip(1) =~= spec_varint(inner.len()) + inner);
            lemma_parse_varint_inverse(inner.len(), inner);
            let k = spec_varint(inner.len()).len() as int;
            assert(b.skip(1 + k) =~= inner);
            lemma_debug_round_trip(s);
        },
    }
}

/// A parsed varint took at least one byte and no more than the buffer
/// holds.
pub proof fn lemma_parse_varint_bounds(b: Seq<u8>)
    ensures
        parse_varint(b) matches Some(vk) ==> 1 <= vk.1 <= b.len(),
    decreases b.len(),
{
    if b.len() > 0 && b[0] >= 128 {
        lemma_parse_varint_bounds(b.skip(1));
    }
}

/// Appends the varint encoding of `n` to `out`.
fn push_varint(out: &mut Vec<u8>, n: u64)
    ensures
        final(out)@ == old(out)@ + spec_varint(n as nat),
    decreases n,
{
    if n < 128 {
        out.push(n as u8);
        assert(out@ =~= old(out)@ + spec_varint(n as nat));
    } else {
        out.push((n % 128 + 128) as u8);
        push_varint(out, n / 128);
        assert(out@ =~= old(out)@ + spec_varint(n as nat));
    }
}

/// The encoded bytes of one debug message.
fn encode_debug_bytes(d: &DebugMessage) -> (r: Vec<u8>)
    ensures
        r@ == encode_debug(d@),
{
    let bytes = d.content.as_str().as_bytes_vec();
    if bytes.len() == 0 {
        assert(encode_debug(d@) =~= Seq::<u8>::empty());
        Vec::new()
    } else {
        let ghost bv = bytes@;
        let mut out: Vec<u8> = Vec::new();
        out.push(FIELD_1_BYTES_TAG);
        push_varint(&mut out, bytes.len() as u64);
        let mut tail = bytes;
        out.append(&mut tail);
        assert(out@ =~= seq![FIELD_1_BYTES_TAG] + spec_varint(bv.len()) + bv);
        out
    }
}

/// The encoded bytes of a present payload whose nested encoding is
/// `inner`.
fn encode_payload(inner: Vec<u8>) -> (r: Vec<u8>)
    ensures
        r@ == seq![FIELD_1_BYTES_TAG] + spec_varint(inner@.len()) + inner@,
{
    let ghost iv = inner@;
    let mut out: Vec<u8> = Vec::new();
    out.push(FIELD_1_BYTES_TAG);
    push_varint(&mut out, inner.len() as u64);
    let mut tail = inner;
    out.append(&mut tail);
    assert(out@ =~= seq![FIELD_1_BYTES_TAG] + spec_varint(iv.len()) + iv);
    out
}

/// Encodes a client message into its wire bytes.
pub fn serialize_client_message(client_message: ClientMessage) -> (r: Vec<u8>)
    ensures
        r@ == encode_message(client_message@),
{
    match client_message.message {
        None => Vec::new(),
        Some(crate::client_message::Message::DebugMessage(d)) => {
            let inner = encode_debug_bytes(&d);
            encode_payload(inner)
        },
    }
}

/// Encodes a server message into its wire bytes.
pub fn serialize_server_message(server_message: ServerMessage) -> (r: Vec<u8>)
    ensures
        r@ == encode_message(server_message@),
{
    match server_message.message {
        None => Vec::new(),
        Some(crate::server_message::Message::DebugMessage(d)) => {
            let inner = encode_debug_bytes(&d);
            encode_payload(inner)
        },
    }
}

/// Reads one varint at `pos`, mirroring [`parse_varint`] on the tail of
/// the buffer; fails when the buffer ends inside the varint or the value
/// does not fit in a `u64`.
fn read_varint(buf: &[u8], pos: usize) -> (r: Option<(u64, usize)>)
    requires
        pos <= buf@.len(),
    ensures
        match r {
            Some(vk) => parse_varint(buf@.skip(pos as int)) == Some((vk.0 as nat, vk.1 as int))
                && 1 <= vk.1 && pos + vk.1 <= buf@.len(),
            None => match parse_varint(buf@.skip(pos as int)) {
                Some(vk) => vk.0 > u64::MAX,
                None => true,
            },
        },
    decreases buf@.len() - pos,
{
    let n = buf.len();
    if pos == n {
        return None;
    }
    let b0 = buf[pos];
    assert(buf@.skip(pos as int)[0] == b0);
    if b0 < 128 {
        Some((b0 as u64, 1))
    } else {
        assert(buf@.skip(pos as int).skip(1) =~= buf@.skip(pos as int + 1));
        match read_varint(buf, pos + 1) {
            None => None,
            Some(vk) => {
                let low: u64 = (b0 - 128) as u64;
                if vk.0 <= (u64::MAX - low) / 128 {
                    assert(low + 128 * vk.0 <= u64::MAX) by (nonlinear_arith)
                        requires
                            low <= 127,
                            vk.0 <= (u64::MAX - low) / 128,
                    {}
                    Some((low + 128 * vk.0, vk.1 + 1))
                } else {
                    assert(low + 128 * vk.0 > u64::MAX) by (nonlinear_arith)
                        requires
                            low <= 127,
                            vk.0 > (u64::MAX - low) / 128,
                    {}
                    None
                }
            },
        }
    }
}

/// The bytes of `buf` from `from` to `to`, copied out.
fn slice_range_to_vec(buf: &[u8], from: usize, to: usize) -> (r: Vec<u8>)
    requires
        from <= to <= buf@.len(),
    ensures
        r@ == buf@.subrange(from as int, to as int),
{
    let mut r: Vec<u8> = Vec::new();
    let mut i: usize = from;
    while i < to
        invariant
            from <= i <= to <= buf@.len(),
            r@ =~= buf@.subrange(from as int, i as int),
        decreases to - i,
    {
        r.push(buf[i]);
        assert(r@ =~= buf@.subrange(from as int, i + 1));
        i = i + 1;
    }
    r
}

/// Relies on `String::from_utf8`: it succeeds exactly on valid UTF-8 input
/// and then returns the string whose characters are the UTF-8 decoding of
/// the bytes.
#[verifier::external_body]
fn bytes_to_string(v: Vec<u8>) -> (r: Option<String>)
    ensures
        r matches Some(s) ==> valid_utf8(v@) && s@ == decode_utf8(v@),
        r is None ==> !valid_utf8(v@),
{
    String::from_utf8(v).ok()
}

/// Decodes the debug-message bytes that start at `pos` and run to the end
/// of the buffer.
fn decode_debug_from(buf: &[u8], pos: usize) -> (r: Option<String>)
    requires
        pos <= buf@.len(),
    ensures
        match r {
            Some(s) => decode_debug(buf@.skip(pos as int)) == Some(s@),
            None => decode_debug(buf@.skip(pos as int)) is None,
        },
{
    let n = buf.len();
    let ghost tail = buf@.skip(pos as int);
    if pos == n {
        let s = String::new();
        assert(decode_debug(tail) == Some(s@));
        return Some(s);
    }
    let b0 = buf[pos];
    assert(tail[0] == b0);
    if b0 != FIELD_1_BYTES_TAG {
        return None;
    }
    assert(tail.skip(1) =~= buf@.skip(pos as int + 1));
    match read_varint(buf, pos + 1) {
        None => {
            proof {
                let pv = parse_varint(tail.skip(1));
                if pv is Some {
                    let vk = pv.unwrap();
                    lemma_parse_varint_bounds(tail.skip(1));
                    assert(tail.skip(1 + vk.1).len() <= buf@.len());
                    assert(tail.skip(1 + vk.1).len() < vk.0);
                }
            }
            None
        },
        Some(vk) => {
            let pos2 = pos + 1 + vk.1;
            assert(tail.skip(1 + vk.1 as int) =~= buf@.skip(pos2 as int));
            let remaining = n - pos2;
            if (remaining as u64) != vk.0 {
                return None;
            }
            let bytes = slice_range_to_vec(buf, pos2, n);
            assert(bytes@ =~= buf@.skip(pos2 as int));
            match bytes_to_string(bytes) {
                Some(s) => Some(s),
                None => None,
            }
        },
    }
}

/// Decodes the wire bytes of a client message; a buffer that is not the
/// exact encoding of some message is rejected.
pub fn deserialize_client_message(buf: &[u8]) -> (r: Result<ClientMessage, DecodeError>)
    ensures
        match r {
            Ok(m) => decode_message(buf@) == Some(m@),
            Err(e) => decode_message(buf@) is None,
        },
{
    match decode_payload(buf) {
        Ok(content) => match content {
            Some(s) => Ok(
                ClientMessage {
                    message: Some(
                        crate::client_message::Message::DebugMessage(DebugMessage { content: s }),
                    ),
                },
            ),
            None => Ok(ClientMessage { message: None }),
        },
        Err(e) => Err(e),
    }
}

/// Decodes the wire bytes of a server message; a buffer that is not the
/// exact encoding of some message is rejected.
pub fn deserialize_server_message(buf: &[u8]) -> (r: Result<ServerMessage, DecodeError>)
    ensures
        match r {
            Ok(m) => decode_message(buf@) == Some(m@),
            Err(e) => decode_message(buf@) is None,
        },
{
    match decode_payload(buf) {
        Ok(content) => match content {
            Some(s) => Ok(
                ServerMessage {
                    message: Some(
                        crate::server_message::Message::DebugMessage(DebugMessage { content: s }),
                    ),
                },
            ),
            None => Ok(ServerMessage { message: None }),
        },
        Err(e) => Err(e),
    }
}

/// The shared decoder of both message directions: the optional payload
/// text, or an error on anything [`decode_message`] rejects.
fn decode_payload(buf: &[u8]) -> (r: Result<Option<String>, DecodeError>)
    ensures
        match r {
            Ok(content) => decode_message(buf@) == Some(
                match content {
                    Some(s) => Some(s@),
                    None => None,
                },
            ),
            Err(e) => decode_message(buf@) is None,
        },
{
    let n = buf.len();
    if n == 0 {
        return Ok(None);
    }
    if buf[0] != FIELD_1_BYTES_TAG {
        return Err(DecodeError);
    }
    assert(buf@.skip(0).skip(1) =~= buf@.skip(1));
    assert(buf@.skip(0) =~= buf@);
    match read_varint(buf, 1) {
        None => {
            proof {
                let pv = parse_varint(buf@.skip(1));
                if pv is Some {
                    let vk = pv.unwrap();
                    lemma_parse_varint_bounds(buf@.skip(1));
                    assert(buf@.skip(1 + vk.1).len() <= buf@.len());
                    assert(buf@.skip(1 + vk.1).len() < vk.0);
                }
            }
            Err(DecodeError)
        },
        Some(vk) => {
            let pos = 1 + vk.1;
            let remaining = n - pos;
            if (remaining as u64) != vk.0 {
                assert(buf@.skip(1 + vk.1 as int).len() != vk.0 as nat);
                return Err(DecodeError);
            }
            match decode_debug_from(buf, pos) {
                Some(s) => {
                    assert(buf@.skip(pos as int) =~= buf@.skip(1 + vk.1 as int));
                    Ok(Some(s))
                },
                None => Err(DecodeError),
            }
        },
    }
}

} // verus!
