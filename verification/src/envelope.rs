//! Framing of substream data on connections made of independent streams.
//!
//! Everything sent on such a stream is wrapped in envelopes. An envelope is the LEB128 length
//! of its body followed by the body. The body is a list of tagged fields. Each field starts
//! with a LEB128 key made of a field number (the key divided by eight) and a wire type (the
//! remainder). Field 1 is a number holding a flag, field 2 a length-prefixed byte string
//! holding a piece of the stream's data. Both are optional and appear at most once. Fields
//! with another number are skipped over.
//!
//! An envelope and its length prefix never occupy more than [`MAX_FRAME_LEN`] bytes.

use crate::leb128;
use vstd::prelude::*;

verus! {

/// Maximum size in bytes of an envelope, length prefix included.
pub const MAX_FRAME_LEN: usize = 16384;

/// Flag: the sender will not send any more data.
pub const FLAG_FIN: u64 = 0;

/// Flag: the sender will not read any more data.
pub const FLAG_STOP_SENDING: u64 = 1;

/// Flag: the sender has abruptly closed both directions.
pub const FLAG_RESET_STREAM: u64 = 2;

/// Key of the field that holds the flag.
pub const KEY_FLAGS: u8 = 0x08;

/// Key of the field that holds the data.
pub const KEY_MESSAGE: u8 = 0x12;

/// What an envelope holds.
pub struct Fields {
    pub flags: Option<u64>,
    pub message: Option<Seq<u8>>,
}

/// An envelope that holds nothing.
pub open spec fn no_fields() -> Fields {
    Fields { flags: None, message: None }
}

/// Bytes of the flag field.
pub open spec fn flags_field(flags: Option<u64>) -> Seq<u8> {
    match flags {
        Some(f) => seq![KEY_FLAGS].add(leb128::encode(f as nat)),
        None => Seq::empty(),
    }
}

/// Bytes of the data field.
pub open spec fn message_field(message: Option<Seq<u8>>) -> Seq<u8> {
    match message {
        Some(m) => seq![KEY_MESSAGE].add(leb128::encode(m.len())).add(m),
        None => Seq::empty(),
    }
}

/// Body of the envelope that holds `fields`: the flag field, then the data field.
pub open spec fn body(fields: Fields) -> Seq<u8> {
    flags_field(fields.flags).add(message_field(fields.message))
}

/// The envelope that holds `fields`, length prefix included.
pub open spec fn envelope(fields: Fields) -> Seq<u8> {
    leb128::encode(body(fields).len()).add(body(fields))
}

/// Number of bytes that the value of a skipped field occupies at the start of `rest`, or `None`
/// if the value is cut short or the wire type is unknown.
pub open spec fn skipped_len(wire: nat, rest: Seq<u8>) -> Option<nat> {
    if wire == 0 {
        match leb128::parse(rest) {
            leb128::Parsed::Value { value, len } => Some(len),
            _ => None,
        }
    } else if wire == 1 {
        if rest.len() >= 8 {
            Some(8nat)
        } else {
            None
        }
    } else if wire == 2 {
        match leb128::parse(rest) {
            leb128::Parsed::Value { value, len } => if len + value <= rest.len() {
                Some(len + value)
            } else {
                None
            },
            _ => None,
        }
    } else if wire == 5 {
        if rest.len() >= 4 {
            Some(4nat)
        } else {
            None
        }
    } else {
        None
    }
}

/// Reads the fields of a body, `found` being what the fields before `body` held. `None` if the
/// body is malformed.
pub open spec fn parse_fields(body: Seq<u8>, found: Fields) -> Option<Fields>
    decreases body.len(),
{
    if body.len() == 0 {
        Some(found)
    } else {
        match leb128::parse(body) {
            leb128::Parsed::Value { value: key, len: key_len } => {
                proof {
                    leb128::lemma_parse_bounds(body);
                }
                let rest = body.skip(key_len as int);
                let number = key / 8;
                let wire = key % 8;
                if number == 1 {
                    match leb128::parse(rest) {
                        leb128::Parsed::Value { value, len } => {
                            proof {
                                leb128::lemma_parse_bounds(rest);
                            }
                            if wire == 0 && found.flags is None {
                                parse_fields(
                                    rest.skip(len as int),
                                    Fields { flags: Some(value as u64), message: found.message },
                                )
                            } else {
                                None
                            }
                        },
                        _ => None,
                    }
                } else if number == 2 {
                    match leb128::parse(rest) {
                        leb128::Parsed::Value { value, len } => {
                            proof {
                                leb128::lemma_parse_bounds(rest);
                            }
                            if wire == 2 && found.message is None && len + value <= rest.len() {
                                parse_fields(
                                    rest.skip((len + value) as int),
                                    Fields {
                                        flags: found.flags,
                                        message: Some(rest.subrange(len as int, (len + value) as int)),
                                    },
                                )
                            } else {
                                None
                            }
                        },
                        _ => None,
                    }
                } else {
                    match skipped_len(wire, rest) {
                        Some(n) => {
                            if n <= rest.len() {
                                parse_fields(rest.skip(n as int), found)
                            } else {
                                None
                            }
                        },
                        None => None,
                    }
                }
            },
            _ => None,
        }
    }
}

/// What reading an envelope at the start of a byte sequence gives.
pub enum Parsed {
    /// A whole envelope of `frame_len` bytes, length prefix included.
    Frame { frame_len: nat, fields: Fields },
    /// The bytes end before the envelope does.
    Incomplete,
    /// The bytes do not start with an envelope, or with one that is too large.
    Invalid,
}

/// Reads an envelope at the start of `s`.
pub open spec fn parse(s: Seq<u8>) -> Parsed {
    match leb128::parse(s) {
        leb128::Parsed::Value { value: body_len, len: prefix_len } => {
            if prefix_len + body_len > MAX_FRAME_LEN {
                Parsed::Invalid
            } else if s.len() < prefix_len + body_len {
                Parsed::Incomplete
            } else {
                match parse_fields(
                    s.subrange(prefix_len as int, (prefix_len + body_len) as int),
                    no_fields(),
                ) {
                    Some(fields) => Parsed::Frame { frame_len: prefix_len + body_len, fields },
                    None => Parsed::Invalid,
                }
            }
        },
        leb128::Parsed::Incomplete => Parsed::Incomplete,
        leb128::Parsed::Invalid => Parsed::Invalid,
    }
}

/// A whole envelope is never empty and never longer than the bytes it was read from, nor than
/// the maximum.
pub proof fn lemma_parse_bounds(s: Seq<u8>)
    ensures
        parse(s) matches Parsed::Frame { frame_len, fields } ==> 1 <= frame_len <= s.len()
            && frame_len <= MAX_FRAME_LEN,
{
    leb128::lemma_parse_bounds(s);
}

proof fn lemma_parse_message_field(m: Seq<u8>, flags: Option<u64>)
    requires
        m.len() <= u64::MAX,
    ensures
        parse_fields(message_field(Some(m)), Fields { flags, message: None }) == Some(
            Fields { flags, message: Some(m) },
        ),
{
    reveal_with_fuel(parse_fields, 2);
    let field = message_field(Some(m));
    let len_bytes = leb128::encode(m.len());
    let after_key = len_bytes.add(m);
    assert(field =~= leb128::encode(KEY_MESSAGE as nat).add(after_key));
    leb128::lemma_parse_encode(KEY_MESSAGE as nat, after_key);
    assert(field.skip(1) =~= after_key);
    leb128::lemma_parse_encode(m.len(), m);
    leb128::lemma_encode_len(m.len(), 0);
    assert(after_key.subrange(len_bytes.len() as int, (len_bytes.len() + m.len()) as int) =~= m);
    assert(after_key.skip((len_bytes.len() + m.len()) as int) =~= Seq::<u8>::empty());
    assert(18nat / 8 == 2 && 18nat % 8 == 2);
}

/// Reading the body of an envelope gives back what the envelope holds.
pub proof fn lemma_parse_fields_body(fields: Fields)
    requires
        fields.message matches Some(m) ==> m.len() <= u64::MAX,
    ensures
        parse_fields(body(fields), no_fields()) == Some(fields),
{
    reveal_with_fuel(parse_fields, 2);
    let b = body(fields);
    let tail = message_field(fields.message);
    match fields.message {
        Some(m) => {
            lemma_parse_message_field(m, fields.flags);
        },
        None => {},
    }
    match fields.flags {
        Some(f) => {
            let value_bytes = leb128::encode(f as nat);
            let after_key = value_bytes.add(tail);
            assert(b =~= leb128::encode(KEY_FLAGS as nat).add(after_key));
            leb128::lemma_parse_encode(KEY_FLAGS as nat, after_key);
            assert(b.skip(1) =~= after_key);
            leb128::lemma_parse_encode(f as nat, tail);
            assert(after_key.skip(value_bytes.len() as int) =~= tail);
            assert(8nat / 8 == 1 && 8nat % 8 == 0);
        },
        None => {
            assert(b =~= tail);
        },
    }
}

/// Decoding what was encoded gives back the same flag and the same data, whatever bytes
/// follow the envelope. Data that is absent stays absent, and data that is present and empty
/// stays present and empty.
pub proof fn lemma_parse_envelope(fields: Fields, rest: Seq<u8>)
    requires
        envelope(fields).len() <= MAX_FRAME_LEN,
    ensures
        parse(envelope(fields).add(rest)) == (Parsed::Frame {
            frame_len: envelope(fields).len(),
            fields,
        }),
{
    let b = body(fields);
    let prefix = leb128::encode(b.len());
    let s = envelope(fields).add(rest);
    assert(s =~= prefix.add(b.add(rest)));
    leb128::lemma_parse_encode(b.len(), b.add(rest));
    assert(s.subrange(prefix.len() as int, (prefix.len() + b.len()) as int) =~= b);
    lemma_parse_fields_body(fields);
}

/// Bytes that start with an envelope beyond the maximum size are not read as an envelope,
/// whatever follows.
pub proof fn lemma_parse_oversized(fields: Fields, rest: Seq<u8>)
    requires
        envelope(fields).len() > MAX_FRAME_LEN,
        body(fields).len() <= u64::MAX,
    ensures
        parse(envelope(fields).add(rest)) is Invalid,
{
    let b = body(fields);
    let prefix = leb128::encode(b.len());
    let s = envelope(fields).add(rest);
    assert(s =~= prefix.add(b.add(rest)));
    leb128::lemma_parse_encode(b.len(), b.add(rest));
}

/// An envelope that holds a flag below 128 and at most 16374 bytes of data occupies at most
/// seven bytes more than the data, which is within the maximum.
pub proof fn lemma_envelope_len(fields: Fields)
    requires
        fields.flags matches Some(f) ==> f < 128,
        fields.message matches Some(m) ==> m.len() <= MAX_FRAME_LEN - 10,
    ensures
        envelope(fields).len() <= MAX_FRAME_LEN,
        fields.message matches Some(m) ==> envelope(fields).len() <= m.len() + 7,
        fields.message is None ==> envelope(fields).len() <= 3,
{
    match fields.flags {
        Some(f) => {
            leb128::lemma_encode_short(f as nat);
        },
        None => {},
    }
    match fields.message {
        Some(m) => {
            leb128::lemma_encode_short(m.len());
        },
        None => {},
    }
    leb128::lemma_encode_short(body(fields).len());
}

/// What [`decode`] returns.
#[derive(Clone, Copy, Debug, PartialEq, Eq)]
pub enum Decoded {
    /// A whole envelope of `frame_len` bytes, length prefix included. The data, if the envelope
    /// holds any, is the bytes from `message.0` to `message.1` of what was decoded.
    Frame { frame_len: usize, flags: Option<u64>, message: Option<(usize, usize)> },
    /// The bytes end before the envelope does.
    Incomplete,
    /// The bytes do not start with an envelope, or with one that is too large.
    Invalid,
}

impl Decoded {
    /// Whether this result, obtained from `bytes`, is the reading `parsed`.
    pub open spec fn is_reading(self, bytes: Seq<u8>, parsed: Parsed) -> bool {
        match self {
            Decoded::Frame { frame_len, flags, message } => {
                &&& parsed matches Parsed::Frame { frame_len: n, fields }
                &&& n == frame_len
                &&& fields.flags == flags
                &&& match message {
                    Some((start, end)) => start <= end <= frame_len && fields.message == Some(
                        bytes.subrange(start as int, end as int),
                    ),
                    None => fields.message is None,
                }
            },
            Decoded::Incomplete => parsed is Incomplete,
            Decoded::Invalid => parsed is Invalid,
        }
    }
}

/// Fields found so far while decoding a body, the data being a range of the decoded bytes.
struct Found {
    flags: Option<u64>,
    message: Option<(usize, usize)>,
}

impl Found {
    spec fn fields(self, bytes: Seq<u8>) -> Fields {
        Fields {
            flags: self.flags,
            message: match self.message {
                Some((start, end)) => Some(bytes.subrange(start as int, end as int)),
                None => None,
            },
        }
    }
}

/// Decodes the fields between `start` and `end` of `bytes`.
#[verifier::rlimit(60)]
fn decode_fields(bytes: &[u8], start: usize, end: usize) -> (r: Option<Found>)
    requires
        start <= end <= bytes.len(),
    ensures
        match r {
            Some(found) => {
                &&& parse_fields(bytes@.subrange(start as int, end as int), no_fields()) == Some(
                    found.fields(bytes@),
                )
                &&& found.message matches Some((from, to)) ==> start <= from <= to <= end
            },
            None => parse_fields(bytes@.subrange(start as int, end as int), no_fields()) is None,
        },
{
    let mut found = Found { flags: None, message: None };
    let mut pos: usize = start;
    while pos < end
        invariant
            start <= pos <= end <= bytes.len(),
            found.message matches Some((from, to)) ==> start <= from <= to <= end,
            parse_fields(bytes@.subrange(start as int, end as int), no_fields()) == parse_fields(
                bytes@.subrange(pos as int, end as int),
                found.fields(bytes@),
            ),
        decreases end - pos,
    {
        let ghost body = bytes@.subrange(pos as int, end as int);
        let key_at = vstd::slice::slice_subrange(bytes, pos, end);
        let (key, key_len) = match leb128::decode(key_at) {
            leb128::Decoded::Value { value, len } => (value, len),
            _ => {
                return None;
            },
        };
        proof {
            leb128::lemma_parse_bounds(body);
        }
        let value_pos: usize = pos + key_len;
        let ghost rest = body.skip(key_len as int);
        proof {
            assert(rest =~= bytes@.subrange(value_pos as int, end as int));
            leb128::lemma_parse_bounds(rest);
        }
        let value_at = vstd::slice::slice_subrange(bytes, value_pos, end);
        let number: u64 = key / 8;
        let wire: u64 = key % 8;
        if number == 1 || number == 2 || wire == 0 || wire == 2 {
            let (value, len) = match leb128::decode(value_at) {
                leb128::Decoded::Value { value, len } => (value, len),
                _ => {
                    return None;
                },
            };
            let after: usize = value_pos + len;
            let room: usize = end - after;
            if number == 1 {
                if wire != 0 || found.flags.is_some() {
                    return None;
                }
                found.flags = Some(value);
                pos = after;
            } else if number == 2 {
                if wire != 2 || found.message.is_some() || value > room as u64 {
                    return None;
                }
                let to: usize = after + value as usize;
                proof {
                    assert(rest.subrange(len as int, (len + value) as int) =~= bytes@.subrange(
                        after as int,
                        to as int,
                    ));
                }
                found.message = Some((after, to));
                pos = to;
            } else if wire == 0 {
                pos = after;
            } else {
                if value > room as u64 {
                    return None;
                }
                pos = after + value as usize;
            }
        } else if wire == 1 {
            if end - value_pos < 8 {
                return None;
            }
            pos = value_pos + 8;
        } else if wire == 5 {
            if end - value_pos < 4 {
                return None;
            }
            pos = value_pos + 4;
        } else {
            return None;
        }
        proof {
            assert(rest.skip(pos - value_pos) =~= bytes@.subrange(pos as int, end as int));
        }
    }
    proof {
        assert(bytes@.subrange(pos as int, end as int).len() == 0);
    }
    Some(found)
}

/// Decodes the envelope at the start of `bytes`.
pub fn decode(bytes: &[u8]) -> (r: Decoded)
    ensures
        r.is_reading(bytes@, parse(bytes@)),
{
    let (body_len, prefix_len) = match leb128::decode(bytes) {
        leb128::Decoded::Value { value, len } => (value, len),
        leb128::Decoded::Incomplete => {
            return Decoded::Incomplete;
        },
        leb128::Decoded::Invalid => {
            return Decoded::Invalid;
        },
    };
    proof {
        leb128::lemma_parse_bounds(bytes@);
    }
    if body_len > (MAX_FRAME_LEN - prefix_len) as u64 {
        return Decoded::Invalid;
    }
    let frame_len: usize = prefix_len + body_len as usize;
    if bytes.len() < frame_len {
        return Decoded::Incomplete;
    }
    match decode_fields(bytes, prefix_len, frame_len) {
        Some(found) => Decoded::Frame { frame_len, flags: found.flags, message: found.message },
        None => Decoded::Invalid,
    }
}

/// Appends `bytes` to `out`.
pub fn append_bytes(out: &mut Vec<u8>, bytes: &[u8])
    ensures
        final(out)@ == old(out)@.add(bytes@),
{
    let mut i: usize = 0;
    while i < bytes.len()
        invariant
            i <= bytes.len(),
            out@ == old(out)@.add(bytes@.take(i as int)),
        decreases bytes.len() - i,
    {
        proof {
            assert(bytes@.take(i + 1) =~= bytes@.take(i as int).push(bytes@[i as int]));
            assert(old(out)@.add(bytes@.take(i as int)).push(bytes@[i as int]) =~= old(out)@.add(
                bytes@.take(i + 1),
            ));
        }
        out.push(bytes[i]);
        i = i + 1;
    }
    proof {
        assert(bytes@.take(bytes@.len() as int) =~= bytes@);
    }
}

/// The value of an optional byte string.
pub open spec fn message_view(message: Option<&[u8]>) -> Option<Seq<u8>> {
    match message {
        Some(m) => Some(m@),
        None => None,
    }
}

/// Encodes the envelope that holds the given flag and data. A data field is written if and
/// only if `message` is `Some`, even where the data is empty.
pub fn encode(flags: Option<u64>, message: Option<&[u8]>) -> (out: Vec<u8>)
    ensures
        out@ == envelope(Fields { flags, message: message_view(message) }),
{
    let mut body_bytes: Vec<u8> = Vec::new();
    match flags {
        Some(f) => {
            body_bytes.push(KEY_FLAGS);
            leb128::encode_into(f, &mut body_bytes);
        },
        None => {},
    }
    match message {
        Some(m) => {
            body_bytes.push(KEY_MESSAGE);
            leb128::encode_into(m.len() as u64, &mut body_bytes);
            append_bytes(&mut body_bytes, m);
        },
        None => {},
    }
    let mut out: Vec<u8> = Vec::new();
    leb128::encode_into(body_bytes.len() as u64, &mut out);
    append_bytes(&mut out, body_bytes.as_slice());
    proof {
        let fields = Fields { flags, message: message_view(message) };
        assert(body_bytes@ =~= body(fields));
        assert(out@ =~= envelope(fields));
    }
    out
}

} // verus!
