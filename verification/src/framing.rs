//! Wire framing for tunnel streams and remote calls.
//!
//! Tagged frames carry tunnel data. Each is `[1-byte tag] [4-byte big-endian
//! length] [payload]`; the end marker is its tag alone. Length-prefixed
//! messages carry remote calls. Each is `[4-byte big-endian length] [JSON]`.
//!
//! Reading goes by a [`Decoder`], which says how many bytes it needs next and
//! takes them, so that it serves a buffer in memory and a stream alike.

use vstd::prelude::*;
use vstd::string::StringExecFns;
use vstd::utf8::encode_utf8;

use crate::json::{json_exact, json_parse, json_text, parse, parsed, print, Json, JsonView};
use crate::text::{decimal, digit, digit_char, to_decimal};

verus! {

// ── Constants ────────────────────────────────────────────────────────

pub const TAG_JSON: u8 = 0x01;

pub const TAG_BINARY: u8 = 0x02;

pub const TAG_END: u8 = 0x03;

/// Maximum frame payload: 16 MiB.
pub const MAX_FRAME_SIZE: u32 = 16 * 1024 * 1024;

/// Payload size that a large binary body is split into before writing.
///
/// A peer that reads a frame larger than [`MAX_FRAME_SIZE`] tears down the
/// whole stream, so writers never emit one.
pub const CHUNK_SIZE: usize = 1024 * 1024;

// ── Frames and faults ────────────────────────────────────────────────

/// A tagged frame read from a stream.
#[derive(Debug)]
pub enum TaggedFrame {
    Json(Json),
    Binary(Vec<u8>),
    End,
}

/// What a frame holds.
pub enum FrameView {
    Json(JsonView),
    Binary(Seq<u8>),
    End,
}

impl TaggedFrame {
    /// What the frame holds.
    pub open spec fn view(&self) -> FrameView {
        match self {
            TaggedFrame::Json(j) => FrameView::Json(j.view()),
            TaggedFrame::Binary(b) => FrameView::Binary(b@),
            TaggedFrame::End => FrameView::End,
        }
    }
}

/// Why a frame could not be read or written.
#[derive(Debug)]
pub enum FrameError {
    /// The stream ended within a frame.
    UnexpectedEof,
    /// A frame starts with no known tag.
    UnknownTag(u8),
    /// A payload is longer than a frame may be.
    FrameTooLarge(u64),
    /// A JSON payload does not parse; the parser's message.
    InvalidJson(String),
    /// A body is longer than the reader admits; the limit.
    BodyTooLarge(u64),
}

/// What a failure is.
pub enum Fault {
    UnexpectedEof,
    UnknownTag(u8),
    FrameTooLarge(int),
    InvalidJson(Seq<char>),
    BodyTooLarge(int),
}

/// The class of a failure.
#[derive(Debug, Clone, Copy, PartialEq, Eq, Structural)]
pub enum FaultKind {
    UnexpectedEof,
    InvalidData,
}

impl FrameError {
    /// What the failure is.
    pub open spec fn view(&self) -> Fault {
        match self {
            FrameError::UnexpectedEof => Fault::UnexpectedEof,
            FrameError::UnknownTag(t) => Fault::UnknownTag(*t),
            FrameError::FrameTooLarge(n) => Fault::FrameTooLarge(*n as int),
            FrameError::InvalidJson(e) => Fault::InvalidJson(e@),
            FrameError::BodyTooLarge(n) => Fault::BodyTooLarge(*n as int),
        }
    }

    /// The class of the failure: a stream that ends early, or data that is
    /// not as it should be.
    pub fn kind(&self) -> (r: FaultKind)
        ensures
            r == (if self.view() is UnexpectedEof {
                FaultKind::UnexpectedEof
            } else {
                FaultKind::InvalidData
            }),
    {
        match self {
            FrameError::UnexpectedEof => FaultKind::UnexpectedEof,
            _ => FaultKind::InvalidData,
        }
    }

    /// The message of the failure.
    pub fn message(&self) -> (r: String)
        ensures
            r@ == fault_text(self.view()),
    {
        match self {
            FrameError::UnexpectedEof => "unexpected end of file".to_owned(),
            FrameError::UnknownTag(t) => {
                let mut s = "unknown frame tag: 0x".to_owned();
                s.push(digit_char(*t / 16));
                s.push(digit_char(*t % 16));
                s
            },
            FrameError::FrameTooLarge(n) => {
                let mut s = "frame too large: ".to_owned();
                s.append(to_decimal(*n).as_str());
                s.append(" bytes");
                s
            },
            FrameError::InvalidJson(e) => e.clone(),
            FrameError::BodyTooLarge(n) => {
                let mut s = "body too large: over ".to_owned();
                s.append(to_decimal(*n).as_str());
                s.append(" bytes");
                s
            },
        }
    }
}

/// The message of a failure.
pub open spec fn fault_text(fault: Fault) -> Seq<char> {
    match fault {
        Fault::UnexpectedEof => "unexpected end of file"@,
        Fault::UnknownTag(t) => "unknown frame tag: 0x"@.push(digit(t as int / 16)).push(
            digit(t as int % 16),
        ),
        Fault::FrameTooLarge(n) => "frame too large: "@ + decimal(n as nat) + " bytes"@,
        Fault::InvalidJson(e) => e,
        Fault::BodyTooLarge(n) => "body too large: over "@ + decimal(n as nat) + " bytes"@,
    }
}

// ── The wire format ──────────────────────────────────────────────────

/// The number that four bytes hold, most significant first.
pub open spec fn be32(b: Seq<u8>) -> int {
    b[0] * 16777216 + b[1] * 65536 + b[2] * 256 + b[3]
}

/// The four bytes that hold a number, most significant first.
pub open spec fn be_bytes(n: int) -> Seq<u8> {
    seq![
        (n / 16777216) as u8,
        ((n / 65536) % 256) as u8,
        ((n / 256) % 256) as u8,
        (n % 256) as u8,
    ]
}

/// A payload behind its length.
pub open spec fn prefixed(payload: Seq<u8>) -> Seq<u8> {
    be_bytes(payload.len() as int) + payload
}

/// A frame with a payload.
pub open spec fn framed(tag: u8, payload: Seq<u8>) -> Seq<u8> {
    seq![tag] + prefixed(payload)
}

/// The outcome of reading once from a stream: what came, and how many bytes
/// of the stream it took.
pub enum Reading<T> {
    /// The stream is at its end.
    Eof,
    /// A value was read.
    Got(T, int),
    /// The stream holds no such value.
    Failed(Fault, int),
}

/// Reads a payload behind its length.
pub open spec fn payload_at(bytes: Seq<u8>) -> Reading<Seq<u8>> {
    if bytes.len() < 4 {
        Reading::Failed(Fault::UnexpectedEof, bytes.len() as int)
    } else {
        let len = be32(bytes);
        if len > MAX_FRAME_SIZE {
            Reading::Failed(Fault::FrameTooLarge(len), 4)
        } else if bytes.len() < 4 + len {
            Reading::Failed(Fault::UnexpectedEof, bytes.len() as int)
        } else {
            Reading::Got(bytes.subrange(4, 4 + len), 4 + len)
        }
    }
}

/// Reads a JSON value behind its length.
pub open spec fn json_at(bytes: Seq<u8>) -> Reading<JsonView> {
    match payload_at(bytes) {
        Reading::Eof => Reading::Eof,
        Reading::Failed(e, n) => Reading::Failed(e, n),
        Reading::Got(payload, n) => match json_parse(payload) {
            Ok(v) => Reading::Got(v, n),
            Err(e) => Reading::Failed(Fault::InvalidJson(e), n),
        },
    }
}

/// Reads a tagged frame.
pub open spec fn frame_at(bytes: Seq<u8>) -> Reading<FrameView> {
    if bytes.len() == 0 {
        Reading::Eof
    } else if bytes[0] == TAG_END {
        Reading::Got(FrameView::End, 1)
    } else if bytes[0] == TAG_JSON {
        match json_at(bytes.skip(1)) {
            Reading::Eof => Reading::Eof,
            Reading::Failed(e, n) => Reading::Failed(e, n + 1),
            Reading::Got(v, n) => Reading::Got(FrameView::Json(v), n + 1),
        }
    } else if bytes[0] == TAG_BINARY {
        match payload_at(bytes.skip(1)) {
            Reading::Eof => Reading::Eof,
            Reading::Failed(e, n) => Reading::Failed(e, n + 1),
            Reading::Got(payload, n) => Reading::Got(FrameView::Binary(payload), n + 1),
        }
    } else {
        Reading::Failed(Fault::UnknownTag(bytes[0]), 1)
    }
}

// ── Decoding ─────────────────────────────────────────────────────────

/// Where a reader stands within a frame.
#[derive(Debug)]
pub enum Decoder {
    /// Before the tag of a frame.
    Tag,
    /// Before the length of a frame with a tag, or of a message without one.
    Length(Option<u8>),
    /// Before the payload of a frame or of a message.
    Payload(Option<u8>, u32),
}

/// What a decoder makes of the bytes it needed.
#[derive(Debug)]
pub enum Decoded {
    /// It stands further on.
    More(Decoder),
    /// It has read a frame to its end. A message without a tag is JSON.
    Frame(TaggedFrame),
}

impl Decoder {
    /// Whether the decoder can stand there: behind the tag of a frame with a
    /// payload, before a payload that is not too long.
    pub open spec fn reachable(self) -> bool {
        match self {
            Decoder::Tag => true,
            Decoder::Length(tag) => tag is None || tag == Some(TAG_JSON) || tag == Some(TAG_BINARY),
            Decoder::Payload(tag, len) => (tag is None || tag == Some(TAG_JSON) || tag == Some(
                TAG_BINARY,
            )) && len <= MAX_FRAME_SIZE,
        }
    }

    /// How many bytes the decoder needs.
    pub open spec fn needs(self) -> nat {
        match self {
            Decoder::Tag => 1,
            Decoder::Length(_) => 4,
            Decoder::Payload(_, len) => len as nat,
        }
    }

    /// How many bytes the decoder needs.
    pub fn need(&self) -> (r: usize)
        ensures
            r == self.needs(),
    {
        match self {
            Decoder::Tag => 1,
            Decoder::Length(_) => 4,
            Decoder::Payload(_, len) => *len as usize,
        }
    }

    /// Whether a stream may end where the decoder stands: before a frame, not
    /// within one.
    pub fn may_end(&self) -> (r: bool)
        ensures
            r == (self is Tag),
    {
        match self {
            Decoder::Tag => true,
            _ => false,
        }
    }

    /// Takes the bytes that the decoder needs.
    pub fn advance(self, bytes: Vec<u8>) -> (r: Result<Decoded, FrameError>)
        requires
            self.reachable(),
            bytes@.len() == self.needs(),
        ensures
            match self {
                Decoder::Tag => if bytes@[0] == TAG_END {
                    r matches Ok(Decoded::Frame(f)) && f.view() == FrameView::End
                } else if bytes@[0] == TAG_JSON || bytes@[0] == TAG_BINARY {
                    r == Ok::<_, FrameError>(Decoded::More(Decoder::Length(Some(bytes@[0]))))
                } else {
                    r matches Err(e) && e.view() == Fault::UnknownTag(bytes@[0])
                },
                Decoder::Length(tag) => if be32(bytes@) > MAX_FRAME_SIZE {
                    r matches Err(e) && e.view() == Fault::FrameTooLarge(be32(bytes@))
                } else {
                    r == Ok::<_, FrameError>(
                        Decoded::More(Decoder::Payload(tag, be32(bytes@) as u32)),
                    )
                },
                Decoder::Payload(tag, _) => if tag == Some(TAG_BINARY) {
                    r matches Ok(Decoded::Frame(f)) && f.view() == FrameView::Binary(bytes@)
                } else {
                    match json_parse(bytes@) {
                        Ok(v) => r matches Ok(Decoded::Frame(f)) && f.view() == FrameView::Json(v),
                        Err(e) => r matches Err(x) && x.view() == Fault::InvalidJson(e),
                    }
                },
            },
            r matches Ok(Decoded::More(next)) ==> next.reachable(),
    {
        match self {
            Decoder::Tag => {
                let tag: u8 = bytes[0];
                if tag == TAG_END {
                    Ok(Decoded::Frame(TaggedFrame::End))
                } else if tag == TAG_JSON || tag == TAG_BINARY {
                    Ok(Decoded::More(Decoder::Length(Some(tag))))
                } else {
                    Err(FrameError::UnknownTag(tag))
                }
            },
            Decoder::Length(tag) => {
                let len: u32 = bytes[0] as u32 * 16777216 + bytes[1] as u32 * 65536
                    + bytes[2] as u32 * 256 + bytes[3] as u32;
                if len > MAX_FRAME_SIZE {
                    Err(FrameError::FrameTooLarge(len as u64))
                } else {
                    Ok(Decoded::More(Decoder::Payload(tag, len)))
                }
            },
            Decoder::Payload(tag, _) => {
                if tag == Some(TAG_BINARY) {
                    Ok(Decoded::Frame(TaggedFrame::Binary(bytes)))
                } else {
                    match parse(bytes.as_slice()) {
                        Ok(v) => Ok(Decoded::Frame(TaggedFrame::Json(v))),
                        Err(e) => Err(FrameError::InvalidJson(e)),
                    }
                }
            },
        }
    }
}

// ── Reading ──────────────────────────────────────────────────────────

/// Bytes in memory, read from front to back.
#[derive(Debug)]
pub struct Reader {
    data: Vec<u8>,
    pos: usize,
}

impl Reader {
    #[verifier::type_invariant]
    spec fn within(self) -> bool {
        self.pos <= self.data@.len()
    }

    /// The bytes that are still to be read.
    pub closed spec fn rest(self) -> Seq<u8> {
        self.data@.skip(self.pos as int)
    }

    /// A reader at the front of the bytes.
    pub fn new(data: Vec<u8>) -> (r: Reader)
        ensures
            r.rest() == data@,
    {
        proof {
            assert(data@.skip(0) =~= data@);
        }
        Reader { data, pos: 0 }
    }

    /// How many bytes are still to be read.
    pub fn remaining(&self) -> (r: usize)
        ensures
            r == self.rest().len(),
    {
        proof {
            use_type_invariant(self);
        }
        self.data.len() - self.pos
    }

    /// Reads a number of bytes. Where fewer are left, all of them are gone.
    pub fn read_exact(&mut self, n: usize) -> (r: Option<Vec<u8>>)
        ensures
            if n <= old(self).rest().len() {
                &&& r matches Some(v) && v@ == old(self).rest().take(n as int)
                &&& final(self).rest() == old(self).rest().skip(n as int)
            } else {
                &&& r is None
                &&& final(self).rest() == Seq::<u8>::empty()
            },
    {
        proof {
            use_type_invariant(&*self);
        }
        let ghost before = self.rest();
        let len: usize = self.data.len();
        if n > len - self.pos {
            self.pos = len;
            proof {
                assert(self.rest() =~= Seq::<u8>::empty());
            }
            return None;
        }
        let from: usize = self.pos;
        let mut out: Vec<u8> = Vec::new();
        let mut i: usize = 0;
        while i < n
            invariant
                i <= n,
                from + n <= self.data.len(),
                out@ == self.data@.subrange(from as int, from + i),
            decreases n - i,
        {
            out.push(self.data[from + i]);
            i = i + 1;
            proof {
                assert(self.data@.subrange(from as int, from + i) =~= self.data@.subrange(
                    from as int,
                    from + i - 1,
                ).push(self.data@[from + i - 1]));
            }
        }
        self.pos = from + n;
        proof {
            assert(out@ =~= before.take(n as int));
            assert(self.rest() =~= before.skip(n as int));
        }
        Some(out)
    }
}

/// Runs a decoder to the end of a frame.
fn decode(io: &mut Reader, start: Decoder) -> (r: Result<Option<TaggedFrame>, FrameError>)
    requires
        start is Tag || start == Decoder::Length(None),
    ensures
        start is Tag ==> read_as(frame_at(old(io).rest()), old(io).rest(), r, final(io).rest()),
        start is Length ==> read_as(
            in_frame(json_at(old(io).rest())),
            old(io).rest(),
            r,
            final(io).rest(),
        ),
{
    let ghost all = io.rest();
    let mut at = start;
    proof {
        assert(all.skip(0) =~= all);
    }
    // The tag, the length and the payload: three rounds at most.
    if at.may_end() {
        match io.read_exact(1) {
            None => {
                proof {
                    assert(all =~= Seq::<u8>::empty());
                }
                return Ok(None);
            },
            Some(bytes) => {
                match at.advance(bytes) {
                    Err(e) => return Err(e),
                    Ok(Decoded::Frame(f)) => return Ok(Some(f)),
                    Ok(Decoded::More(next)) => {
                        at = next;
                    },
                }
            },
        }
    }
    let ghost body = io.rest();
    proof {
        assert(all.skip(all.len() as int) =~= Seq::<u8>::empty());
        if start is Tag {
            assert(body =~= all.skip(1));
        } else {
            assert(body =~= all);
        }
    }
    let n: usize = at.need();
    match io.read_exact(n) {
        None => return Err(FrameError::UnexpectedEof),
        Some(bytes) => {
            proof {
                assert(be32(bytes@) == be32(body));
                assert(body.skip(4) =~= all.skip(all.len() - body.len() + 4));
            }
            match at.advance(bytes) {
                Err(e) => return Err(e),
                Ok(Decoded::Frame(f)) => return Ok(Some(f)),
                Ok(Decoded::More(next)) => {
                    at = next;
                },
            }
        },
    }
    let n: usize = at.need();
    let ghost tail = io.rest();
    proof {
        assert(tail =~= body.skip(4));
    }
    match io.read_exact(n) {
        None => Err(FrameError::UnexpectedEof),
        Some(bytes) => {
            proof {
                assert(bytes@ =~= body.subrange(4, 4 + be32(body)));
                assert(tail.skip(n as int) =~= body.skip(4 + n));
                assert(body.skip(4 + n) =~= all.skip(all.len() - body.len() + 4 + n));
            }
            match at.advance(bytes) {
                Err(e) => Err(e),
                Ok(Decoded::Frame(f)) => Ok(Some(f)),
                Ok(Decoded::More(_)) => Err(FrameError::UnexpectedEof),
            }
        },
    }
}

/// A JSON value as the frame that it stands in.
pub open spec fn in_frame(reading: Reading<JsonView>) -> Reading<FrameView> {
    match reading {
        Reading::Eof => Reading::Eof,
        Reading::Got(v, n) => Reading::Got(FrameView::Json(v), n),
        Reading::Failed(e, n) => Reading::Failed(e, n),
    }
}

/// Whether a read has the outcome that the stream gives: what it hands back,
/// and what is left of the stream.
pub open spec fn read_as(
    reading: Reading<FrameView>,
    before: Seq<u8>,
    r: Result<Option<TaggedFrame>, FrameError>,
    after: Seq<u8>,
) -> bool {
    match reading {
        Reading::Eof => r matches Ok(None) && after == before,
        Reading::Got(frame, n) => r matches Ok(Some(f)) && f.view() == frame && after
            == before.skip(n),
        Reading::Failed(fault, n) => r matches Err(e) && e.view() == fault && after
            == before.skip(n),
    }
}

/// Reads one tagged frame. Gives `None` at the end of the stream.
pub fn read_tagged_frame(io: &mut Reader) -> (r: Result<Option<TaggedFrame>, FrameError>)
    ensures
        read_as(frame_at(old(io).rest()), old(io).rest(), r, final(io).rest()),
{
    decode(io, Decoder::Tag)
}

/// Reads a length-prefixed JSON value.
pub fn read_lp_json(io: &mut Reader) -> (r: Result<Json, FrameError>)
    ensures
        match json_at(old(io).rest()) {
            Reading::Got(v, n) => {
                &&& r matches Ok(j) && j.view() == v
                &&& final(io).rest() == old(io).rest().skip(n)
            },
            Reading::Failed(fault, n) => {
                &&& r matches Err(e) && e.view() == fault
                &&& final(io).rest() == old(io).rest().skip(n)
            },
            Reading::Eof => false,
        },
{
    match decode(io, Decoder::Length(None)) {
        Err(e) => Err(e),
        Ok(Some(TaggedFrame::Json(v))) => Ok(v),
        Ok(_) => Err(FrameError::UnexpectedEof),
    }
}

/// What a body reader does with a frame.
#[derive(Debug)]
pub enum BodyStep {
    /// The body so far; more frames belong to it.
    More(Vec<u8>),
    /// The whole body.
    Done(Vec<u8>),
    /// The body is over the limit.
    Fail(FrameError),
}

/// Takes a frame into a body. Binary frames are appended; the end marker, the
/// end of the stream and a JSON frame end the body.
pub fn take_frame(body: Vec<u8>, frame: Option<TaggedFrame>, limit: usize) -> (r: BodyStep)
    ensures
        match frame {
            Some(TaggedFrame::Binary(data)) => if body@.len() + data@.len() > limit {
                r matches BodyStep::Fail(e) && e.view() == Fault::BodyTooLarge(limit as int)
            } else {
                r matches BodyStep::More(b) && b@ == body@ + data@
            },
            _ => r == BodyStep::Done(body),
        },
{
    match frame {
        Some(TaggedFrame::Binary(data)) => {
            let mut body = body;
            let mut data = data;
            body.append(&mut data);
            if body.len() > limit {
                BodyStep::Fail(FrameError::BodyTooLarge(limit as u64))
            } else {
                BodyStep::More(body)
            }
        },
        _ => BodyStep::Done(body),
    }
}

/// A reading that starts a number of bytes further on.
pub open spec fn shifted(reading: Reading<Seq<u8>>, by: int) -> Reading<Seq<u8>> {
    match reading {
        Reading::Eof => Reading::Eof,
        Reading::Got(v, n) => Reading::Got(v, n + by),
        Reading::Failed(e, n) => Reading::Failed(e, n + by),
    }
}

/// Reads the rest of a body of which a part has been read.
pub open spec fn body_at(bytes: Seq<u8>, sofar: Seq<u8>, limit: int) -> Reading<Seq<u8>>
    decreases bytes.len(),
{
    match frame_at(bytes) {
        Reading::Eof => Reading::Got(sofar, 0),
        Reading::Failed(e, n) => Reading::Failed(e, n),
        Reading::Got(FrameView::Binary(data), n) => if sofar.len() + data.len() > limit {
            Reading::Failed(Fault::BodyTooLarge(limit), n)
        } else if 0 < n <= bytes.len() {
            shifted(body_at(bytes.skip(n), sofar + data, limit), n)
        } else {
            Reading::Eof
        },
        Reading::Got(_, n) => Reading::Got(sofar, n),
    }
}

/// What a frame takes lies within the stream.
proof fn frame_within(bytes: Seq<u8>)
    ensures
        frame_at(bytes) matches Reading::Got(_, n) ==> 0 < n <= bytes.len(),
        frame_at(bytes) matches Reading::Failed(_, n) ==> 0 < n <= bytes.len(),
        frame_at(bytes) is Eof <==> bytes.len() == 0,
{
}

/// Reads binary frames up to the end marker or the end of the stream, and
/// joins them. A JSON frame also ends the body. Fails once more than `limit`
/// bytes have come.
pub fn read_binary_body(io: &mut Reader, limit: usize) -> (r: Result<Vec<u8>, FrameError>)
    ensures
        match body_at(old(io).rest(), Seq::empty(), limit as int) {
            Reading::Got(body, n) => {
                &&& r matches Ok(b) && b@ == body
                &&& final(io).rest() == old(io).rest().skip(n)
            },
            Reading::Failed(fault, n) => {
                &&& r matches Err(e) && e.view() == fault
                &&& final(io).rest() == old(io).rest().skip(n)
            },
            Reading::Eof => false,
        },
{
    let ghost all = io.rest();
    let ghost mut done: int = 0;
    let mut body: Vec<u8> = Vec::new();
    proof {
        assert(all.skip(0) =~= all);
        assert(body@ =~= Seq::<u8>::empty());
    }
    loop
        invariant
            all == old(io).rest(),
            0 <= done <= all.len(),
            io.rest() == all.skip(done),
            body_at(all, Seq::empty(), limit as int) == shifted(
                body_at(io.rest(), body@, limit as int),
                done,
            ),
        decreases io.rest().len(),
    {
        let ghost here = io.rest();
        proof {
            frame_within(here);
        }
        let frame = match read_tagged_frame(io) {
            Err(e) => {
                proof {
                    let n = frame_at(here)->Failed_1;
                    assert(here.skip(n) =~= all.skip(done + n));
                }
                return Err(e);
            },
            Ok(f) => f,
        };
        match take_frame(body, frame, limit) {
            BodyStep::Fail(e) => {
                proof {
                    let n = frame_at(here)->Got_1;
                    assert(here.skip(n) =~= all.skip(done + n));
                }
                return Err(e);
            },
            BodyStep::Done(b) => {
                proof {
                    if frame_at(here) is Got {
                        let n = frame_at(here)->Got_1;
                        assert(here.skip(n) =~= all.skip(done + n));
                    } else {
                        assert(here.skip(0) =~= here);
                    }
                }
                return Ok(b);
            },
            BodyStep::More(b) => {
                body = b;
                proof {
                    let n = frame_at(here)->Got_1;
                    assert(here.skip(n) =~= all.skip(done + n));
                    done = done + n;
                }
            },
        }
    }
}

// ── Writing ──────────────────────────────────────────────────────────

/// Appends bytes to others.
fn put(io: &mut Vec<u8>, data: &[u8])
    ensures
        final(io)@ == old(io)@ + data@,
{
    io.extend_from_slice(data);
    proof {
        assert(io@ =~= old(io)@ + data@);
    }
}

/// Writes a payload behind its length.
fn write_payload(io: &mut Vec<u8>, data: &[u8])
    requires
        data@.len() <= MAX_FRAME_SIZE,
    ensures
        final(io)@ == old(io)@ + prefixed(data@),
{
    let n: u32 = data.len() as u32;
    io.push((n / 16777216) as u8);
    io.push(((n / 65536) % 256) as u8);
    io.push(((n / 256) % 256) as u8);
    io.push((n % 256) as u8);
    proof {
        assert(io@ =~= old(io)@ + be_bytes(data@.len() as int));
    }
    put(io, data);
    proof {
        assert(io@ =~= old(io)@ + prefixed(data@));
    }
}

/// Writes a frame with a payload. A payload that is too long is refused, and
/// nothing is written of it.
pub fn write_tagged(io: &mut Vec<u8>, tag: u8, data: &[u8]) -> (r: Result<(), FrameError>)
    ensures
        if data@.len() > MAX_FRAME_SIZE {
            &&& r matches Err(e) && e.view() == Fault::FrameTooLarge(data@.len() as int)
            &&& final(io)@ == old(io)@
        } else {
            &&& r is Ok
            &&& final(io)@ == old(io)@ + framed(tag, data@)
        },
{
    if data.len() > MAX_FRAME_SIZE as usize {
        return Err(FrameError::FrameTooLarge(data.len() as u64));
    }
    io.push(tag);
    write_payload(io, data);
    proof {
        assert(io@ =~= old(io)@ + framed(tag, data@));
    }
    Ok(())
}

/// The bytes of the compact text of a value.
pub open spec fn json_bytes(v: JsonView) -> Seq<u8> {
    encode_utf8(json_text(v))
}

/// Writes a JSON tagged frame. The frame of a value that survives printing
/// and parsing reads back as that value.
pub fn write_json(io: &mut Vec<u8>, val: &Json) -> (r: Result<(), FrameError>)
    ensures
        if json_bytes(val.view()).len() > MAX_FRAME_SIZE {
            &&& r matches Err(e) && e.view() == Fault::FrameTooLarge(
                json_bytes(val.view()).len() as int,
            )
            &&& final(io)@ == old(io)@
        } else {
            &&& r is Ok
            &&& final(io)@ == old(io)@ + framed(TAG_JSON, json_bytes(val.view()))
        },
        r is Ok && json_exact(val.view()) ==> forall|tail: Seq<u8>|
            frame_at(#[trigger] (framed(TAG_JSON, json_bytes(val.view())) + tail))
                == Reading::Got(
                FrameView::Json(val.view()),
                5 + json_bytes(val.view()).len() as int,
            ),
{
    let text = print(val);
    let r = write_tagged(io, TAG_JSON, text.as_str().as_bytes());
    proof {
        let data = json_bytes(val.view());
        if data.len() <= MAX_FRAME_SIZE && json_exact(val.view()) {
            assert forall|tail: Seq<u8>|
                frame_at(#[trigger] (framed(TAG_JSON, data) + tail)) == Reading::Got(
                    FrameView::Json(val.view()),
                    5 + data.len() as int,
                ) by {
                json_frame_reads_back(val.view(), tail);
            }
        }
    }
    r
}

/// Writes a length-prefixed JSON value. The message of a value that survives
/// printing and parsing reads back as that value.
pub fn write_lp_json(io: &mut Vec<u8>, val: &Json) -> (r: Result<(), FrameError>)
    ensures
        if json_bytes(val.view()).len() > MAX_FRAME_SIZE {
            &&& r matches Err(e) && e.view() == Fault::FrameTooLarge(
                json_bytes(val.view()).len() as int,
            )
            &&& final(io)@ == old(io)@
        } else {
            &&& r is Ok
            &&& final(io)@ == old(io)@ + prefixed(json_bytes(val.view()))
        },
        r is Ok && json_exact(val.view()) ==> forall|tail: Seq<u8>|
            json_at(#[trigger] (prefixed(json_bytes(val.view())) + tail)) == Reading::Got(
                val.view(),
                4 + json_bytes(val.view()).len() as int,
            ),
{
    let text = print(val);
    let data: &[u8] = text.as_str().as_bytes();
    if data.len() > MAX_FRAME_SIZE as usize {
        return Err(FrameError::FrameTooLarge(data.len() as u64));
    }
    write_payload(io, data);
    proof {
        if json_exact(val.view()) {
            assert forall|tail: Seq<u8>|
                json_at(#[trigger] (prefixed(data@) + tail)) == Reading::Got(
                    val.view(),
                    4 + data@.len() as int,
                ) by {
                json_message_reads_back(val.view(), tail);
            }
        }
    }
    Ok(())
}

/// Data cut into pieces of the chunk size, the last one as long as what is
/// left.
pub open spec fn chunks(data: Seq<u8>) -> Seq<Seq<u8>>
    decreases data.len(),
{
    if data.len() == 0 {
        Seq::empty()
    } else if data.len() <= CHUNK_SIZE {
        seq![data]
    } else {
        seq![data.take(CHUNK_SIZE as int)] + chunks(data.skip(CHUNK_SIZE as int))
    }
}

/// The binary frames of pieces of a body, one behind the other.
pub open spec fn binary_frames(parts: Seq<Seq<u8>>) -> Seq<u8>
    decreases parts.len(),
{
    if parts.len() == 0 {
        Seq::empty()
    } else {
        framed(TAG_BINARY, parts[0]) + binary_frames(parts.drop_first())
    }
}

/// The pieces that binary data is written in: one that is empty for no data.
pub open spec fn pieces(data: Seq<u8>) -> Seq<Seq<u8>> {
    if data.len() == 0 {
        seq![data]
    } else {
        chunks(data)
    }
}

/// Where the piece of binary data that starts at a position ends.
pub fn piece_end(data: &[u8], from: usize) -> (r: usize)
    requires
        from <= data@.len(),
    ensures
        r == if data@.len() - from <= CHUNK_SIZE {
            data@.len() as int
        } else {
            from + CHUNK_SIZE
        },
{
    if data.len() - from <= CHUNK_SIZE {
        data.len()
    } else {
        from + CHUNK_SIZE
    }
}

/// Writes binary data as one or more tagged frames. Data over the chunk size
/// is split across frames.
pub fn write_binary(io: &mut Vec<u8>, data: &[u8]) -> (r: Result<(), FrameError>)
    ensures
        r is Ok,
        final(io)@ == old(io)@ + binary_frames(pieces(data@)),
{
    let ghost before = io@;
    if data.len() == 0 {
        let r = write_tagged(io, TAG_BINARY, data);
        proof {
            reveal_with_fuel(binary_frames, 2);
            assert(io@ =~= before + binary_frames(pieces(data@)));
        }
        return r;
    }
    let mut at: usize = 0;
    proof {
        assert(data@.skip(0) =~= data@);
        assert(io@ + binary_frames(chunks(data@)) =~= before + binary_frames(pieces(data@)));
    }
    while at < data.len()
        invariant
            at <= data@.len(),
            io@ + binary_frames(chunks(data@.skip(at as int))) == before + binary_frames(
                pieces(data@),
            ),
        decreases data.len() - at,
    {
        let end: usize = piece_end(data, at);
        let piece = vstd::slice::slice_subrange(data, at, end);
        let ghost sofar = io@;
        let ghost rest = data@.skip(at as int);
        match write_tagged(io, TAG_BINARY, piece) {
            Err(e) => return Err(e),
            Ok(_) => {},
        }
        proof {
            let parts = chunks(rest);
            assert(piece@ =~= parts[0]) by {
                if rest.len() > CHUNK_SIZE {
                    assert(piece@ =~= rest.take(CHUNK_SIZE as int));
                } else {
                    assert(piece@ =~= rest);
                }
            }
            assert(parts.drop_first() =~= chunks(data@.skip(end as int))) by {
                if rest.len() > CHUNK_SIZE {
                    assert(rest.skip(CHUNK_SIZE as int) =~= data@.skip(end as int));
                } else {
                    assert(data@.skip(end as int) =~= Seq::<u8>::empty());
                }
            }
            assert(io@ + binary_frames(chunks(data@.skip(end as int))) =~= sofar + binary_frames(
                parts,
            ));
        }
        at = end;
    }
    proof {
        assert(data@.skip(at as int) =~= Seq::<u8>::empty());
        assert(io@ + Seq::<u8>::empty() =~= io@);
    }
    Ok(())
}

/// Writes the end-of-stream marker.
pub fn write_end(io: &mut Vec<u8>) -> (r: Result<(), FrameError>)
    ensures
        r is Ok,
        final(io)@ == old(io)@.push(TAG_END),
{
    io.push(TAG_END);
    Ok(())
}

// ── What reads give back of writes ───────────────────────────────────

/// A number reads back from the bytes that hold it.
proof fn number_reads_back(n: int)
    requires
        0 <= n <= MAX_FRAME_SIZE,
    ensures
        be32(be_bytes(n)) == n,
{
    let b = be_bytes(n);
    assert(n / 65536 == (n / 256) / 256);
    assert(n / 16777216 == (n / 65536) / 256);
    assert(0 <= n / 16777216 < 256);
    assert(b[0] == n / 16777216);
    assert(b[1] == (n / 65536) % 256);
    assert(b[2] == (n / 256) % 256);
    assert(b[3] == n % 256);
}

/// A payload that is not too long reads back from behind four bytes that hold
/// its length.
proof fn payload_behind_length(header: Seq<u8>, payload: Seq<u8>, tail: Seq<u8>)
    requires
        header.len() == 4,
        be32(header) == payload.len() <= MAX_FRAME_SIZE,
    ensures
        payload_at(header + payload + tail) == Reading::Got(payload, 4 + payload.len() as int),
{
    let n = payload.len() as int;
    let all = header + payload + tail;
    assert(be32(all) == n) by {
        assert(all[0] == header[0] && all[1] == header[1]);
        assert(all[2] == header[2] && all[3] == header[3]);
    }
    assert(all.subrange(4, 4 + n) =~= payload);
}

/// A payload that is not too long reads back from behind its length.
proof fn payload_reads_back(payload: Seq<u8>, tail: Seq<u8>)
    requires
        payload.len() <= MAX_FRAME_SIZE,
    ensures
        payload_at(prefixed(payload) + tail) == Reading::Got(payload, 4 + payload.len() as int),
{
    let n = payload.len() as int;
    number_reads_back(n);
    payload_behind_length(be_bytes(n), payload, tail);
}

/// Behind the tag of a frame stands its message.
proof fn frame_behind_tag(tag: u8, message: Seq<u8>, tail: Seq<u8>)
    ensures
        (seq![tag] + message + tail)[0] == tag,
        (seq![tag] + message + tail).skip(1) == message + tail,
{
    assert((seq![tag] + message + tail).skip(1) =~= message + tail);
}

/// The message of a value that survives printing and parsing reads back as
/// that value.
proof fn json_message_reads_back(v: JsonView, tail: Seq<u8>)
    requires
        json_bytes(v).len() <= MAX_FRAME_SIZE,
        json_parse(json_bytes(v)) == parsed(v),
    ensures
        json_at(prefixed(json_bytes(v)) + tail) == Reading::Got(v, 4 + json_bytes(v).len() as int),
{
    payload_reads_back(json_bytes(v), tail);
}

/// The frame of a value that survives printing and parsing reads back as that
/// value.
proof fn json_frame_reads_back(v: JsonView, tail: Seq<u8>)
    requires
        json_bytes(v).len() <= MAX_FRAME_SIZE,
        json_parse(json_bytes(v)) == parsed(v),
    ensures
        frame_at(framed(TAG_JSON, json_bytes(v)) + tail) == Reading::Got(
            FrameView::Json(v),
            5 + json_bytes(v).len() as int,
        ),
{
    json_message_reads_back(v, tail);
    frame_behind_tag(TAG_JSON, prefixed(json_bytes(v)), tail);
}

/// A binary frame reads back as the payload it was written with, and nothing
/// behind it is touched.
pub proof fn binary_frame_reads_back(payload: Seq<u8>, tail: Seq<u8>)
    requires
        payload.len() <= MAX_FRAME_SIZE,
    ensures
        frame_at(framed(TAG_BINARY, payload) + tail) == Reading::Got(
            FrameView::Binary(payload),
            5 + payload.len() as int,
        ),
{
    payload_reads_back(payload, tail);
    frame_behind_tag(TAG_BINARY, prefixed(payload), tail);
}

/// Pieces one behind the other.
pub open spec fn together(parts: Seq<Seq<u8>>) -> Seq<u8>
    decreases parts.len(),
{
    if parts.len() == 0 {
        Seq::empty()
    } else {
        parts[0] + together(parts.drop_first())
    }
}

/// A binary frame at the front of a stream that leaves the body short enough
/// goes into it.
proof fn body_goes_on(stream: Seq<u8>, data: Seq<u8>, n: int, sofar: Seq<u8>, limit: int)
    requires
        frame_at(stream) == Reading::Got(FrameView::Binary(data), n),
        sofar.len() + data.len() <= limit,
    ensures
        body_at(stream, sofar, limit) == shifted(body_at(stream.skip(n), sofar + data, limit), n),
{
    frame_within(stream);
}

/// What follows a frame in a stream.
proof fn behind_frame(tag: u8, payload: Seq<u8>, after: Seq<u8>)
    ensures
        (framed(tag, payload) + after).skip(5 + payload.len() as int) == after,
{
    let header = be_bytes(payload.len() as int);
    assert(header.len() == 4);
    assert((framed(tag, payload) + after).skip(5 + payload.len() as int) =~= after);
}

/// A binary frame at the front of a stream goes into the body.
proof fn body_takes_frame(payload: Seq<u8>, after: Seq<u8>, sofar: Seq<u8>, limit: int)
    requires
        payload.len() <= MAX_FRAME_SIZE,
        sofar.len() + payload.len() <= limit,
    ensures
        body_at(framed(TAG_BINARY, payload) + after, sofar, limit) == shifted(
            body_at(after, sofar + payload, limit),
            5 + payload.len() as int,
        ),
{
    let stream = framed(TAG_BINARY, payload) + after;
    binary_frame_reads_back(payload, after);
    behind_frame(TAG_BINARY, payload, after);
    body_goes_on(stream, payload, 5 + payload.len() as int, sofar, limit);
}

/// A binary frame at the front of a stream that makes the body too long ends
/// the read.
proof fn body_refuses_frame(payload: Seq<u8>, after: Seq<u8>, sofar: Seq<u8>, limit: int)
    requires
        payload.len() <= MAX_FRAME_SIZE,
        sofar.len() + payload.len() > limit,
    ensures
        body_at(framed(TAG_BINARY, payload) + after, sofar, limit) == Reading::<Seq<u8>>::Failed(
            Fault::BodyTooLarge(limit),
            5 + payload.len() as int,
        ),
{
    binary_frame_reads_back(payload, after);
}

/// How a body is split into frames is invisible to the reader: it gets the
/// pieces joined, and the stream stands behind the end marker.
pub proof fn splitting_is_invisible(
    parts: Seq<Seq<u8>>,
    sofar: Seq<u8>,
    limit: int,
    tail: Seq<u8>,
)
    requires
        forall|i: int| 0 <= i < parts.len() ==> (#[trigger] parts[i]).len() <= MAX_FRAME_SIZE,
        sofar.len() + together(parts).len() <= limit,
    ensures
        body_at(binary_frames(parts) + seq![TAG_END] + tail, sofar, limit) == Reading::Got(
            sofar + together(parts),
            binary_frames(parts).len() as int + 1,
        ),
    decreases parts.len(),
{
    let stream = binary_frames(parts) + seq![TAG_END] + tail;
    if parts.len() == 0 {
        assert(stream[0] == TAG_END);
        assert(sofar + together(parts) =~= sofar);
    } else {
        let rest = parts.drop_first();
        let after = binary_frames(rest) + seq![TAG_END] + tail;
        assert(stream == framed(TAG_BINARY, parts[0]) + after) by {
            assert(stream =~= framed(TAG_BINARY, parts[0]) + after);
        }
        body_takes_frame(parts[0], after, sofar, limit);
        assert(sofar + parts[0] + together(rest) =~= sofar + together(parts));
        splitting_is_invisible(rest, sofar + parts[0], limit, tail);
    }
}

/// A body that comes to more than the limit is refused, however it is split.
pub proof fn long_body_is_refused(
    parts: Seq<Seq<u8>>,
    sofar: Seq<u8>,
    limit: int,
    tail: Seq<u8>,
)
    requires
        forall|i: int| 0 <= i < parts.len() ==> (#[trigger] parts[i]).len() <= MAX_FRAME_SIZE,
        sofar.len() <= limit,
        sofar.len() + together(parts).len() > limit,
    ensures
        body_at(binary_frames(parts) + tail, sofar, limit) matches Reading::Failed(fault, _)
            && fault == Fault::BodyTooLarge(limit),
    decreases parts.len(),
{
    if parts.len() > 0 {
        let rest = parts.drop_first();
        let after = binary_frames(rest) + tail;
        let stream = binary_frames(parts) + tail;
        assert(stream == framed(TAG_BINARY, parts[0]) + after) by {
            assert(stream =~= framed(TAG_BINARY, parts[0]) + after);
        }
        if sofar.len() + parts[0].len() <= limit {
            body_takes_frame(parts[0], after, sofar, limit);
            assert(together(parts).len() == parts[0].len() + together(rest).len());
            long_body_is_refused(rest, sofar + parts[0], limit, tail);
        } else {
            body_refuses_frame(parts[0], after, sofar, limit);
        }
    }
}

/// The pieces that data is written in make up the data, and none is longer
/// than a frame may be.
pub proof fn pieces_make_up_the_data(data: Seq<u8>)
    ensures
        together(pieces(data)) == data,
        forall|i: int|
            0 <= i < pieces(data).len() ==> (#[trigger] pieces(data)[i]).len() <= CHUNK_SIZE,
    decreases data.len(),
{
    reveal_with_fuel(together, 2);
    if data.len() > CHUNK_SIZE {
        let rest = data.skip(CHUNK_SIZE as int);
        pieces_make_up_the_data(rest);
        let parts = chunks(data);
        assert(parts.drop_first() =~= chunks(rest));
        assert(together(parts) =~= data.take(CHUNK_SIZE as int) + rest);
        assert(data =~= data.take(CHUNK_SIZE as int) + rest);
        assert forall|i: int| 0 <= i < parts.len() implies (#[trigger] parts[i]).len()
            <= CHUNK_SIZE by {
            if i > 0 {
                assert(parts[i] == chunks(rest)[i - 1]);
            }
        }
    } else {
        assert(pieces(data) =~= seq![data]);
        assert(seq![data].drop_first() =~= Seq::<Seq<u8>>::empty());
        assert(together(seq![data]) =~= data);
    }
}

/// A body that was written and closed reads back as it was, where the reader
/// admits its length.
pub proof fn body_reads_back(data: Seq<u8>, limit: int, tail: Seq<u8>)
    requires
        data.len() <= limit,
    ensures
        body_at(
            binary_frames(pieces(data)) + seq![TAG_END] + tail,
            Seq::empty(),
            limit,
        ) == Reading::Got(data, binary_frames(pieces(data)).len() as int + 1),
{
    pieces_make_up_the_data(data);
    assert(Seq::<u8>::empty() + data =~= data);
    splitting_is_invisible(pieces(data), Seq::empty(), limit, tail);
}

/// A body that was written and is longer than the reader admits is refused.
pub proof fn long_body_is_not_read(data: Seq<u8>, limit: int, tail: Seq<u8>)
    requires
        0 <= limit < data.len(),
    ensures
        body_at(binary_frames(pieces(data)) + tail, Seq::empty(), limit) matches Reading::Failed(
            fault,
            _,
        ) && fault == Fault::BodyTooLarge(limit),
{
    pieces_make_up_the_data(data);
    long_body_is_refused(pieces(data), Seq::empty(), limit, tail);
}

// ── What stands on the wire ──────────────────────────────────────────

/// The tags of frames, and how long frames and the pieces of a body may be.
pub proof fn frames_are_tagged_and_bounded()
    ensures
        TAG_JSON == 1,
        TAG_BINARY == 2,
        TAG_END == 3,
        MAX_FRAME_SIZE == 16_777_216,
        CHUNK_SIZE == 1_048_576,
{
}

/// A length stands on the wire in four bytes, the most significant first.
pub proof fn lengths_are_big_endian(n: int)
    requires
        0 <= n <= u32::MAX,
    ensures
        be_bytes(n).len() == 4,
        be_bytes(n)[0] * 16_777_216 + be_bytes(n)[1] * 65_536 + be_bytes(n)[2] * 256 + be_bytes(
            n,
        )[3] == n,
        be32(be_bytes(n)) == n,
{
    let b = be_bytes(n);
    assert(n / 65536 == (n / 256) / 256);
    assert(n / 16777216 == (n / 65536) / 256);
    assert(0 <= n / 16777216 < 256);
    assert(b[0] == n / 16777216);
    assert(b[1] == (n / 65536) % 256);
    assert(b[2] == (n / 256) % 256);
    assert(b[3] == n % 256);
}

/// A frame is its tag, the four bytes of its length, and its payload; a message
/// is the same without a tag.
pub proof fn frames_are_tag_length_and_payload(tag: u8, payload: Seq<u8>)
    requires
        payload.len() <= MAX_FRAME_SIZE,
    ensures
        framed(tag, payload).len() == 5 + payload.len(),
        framed(tag, payload)[0] == tag,
        framed(tag, payload)[1] * 16_777_216 + framed(tag, payload)[2] * 65_536 + framed(
            tag,
            payload,
        )[3] * 256 + framed(tag, payload)[4] == payload.len(),
        framed(tag, payload).skip(5) == payload,
        framed(tag, payload).skip(1) == prefixed(payload),
{
    let n = payload.len() as int;
    let b = be_bytes(n);
    lengths_are_big_endian(n);
    let f = framed(tag, payload);
    assert(f[1] == b[0] && f[2] == b[1] && f[3] == b[2] && f[4] == b[3]);
    assert(f.skip(5) =~= payload);
    assert(f.skip(1) =~= prefixed(payload));
}

/// What a stream that holds no whole frame gives: nothing at its end; a fault
/// where it starts with no known tag, ends within a frame, or announces a
/// payload that is too long.
pub proof fn broken_frames_are_refused(bytes: Seq<u8>)
    ensures
        bytes.len() == 0 ==> frame_at(bytes) is Eof,
        bytes.len() > 0 && bytes[0] == 3 ==> frame_at(bytes) == Reading::Got(FrameView::End, 1),
        bytes.len() > 0 && bytes[0] != 1 && bytes[0] != 2 && bytes[0] != 3 ==> frame_at(bytes)
            == Reading::<FrameView>::Failed(Fault::UnknownTag(bytes[0]), 1),
        bytes.len() > 0 && (bytes[0] == 1 || bytes[0] == 2) ==> {
            let len = bytes[1] * 16_777_216 + bytes[2] * 65_536 + bytes[3] * 256 + bytes[4];
            &&& bytes.len() < 5 ==> frame_at(bytes) == Reading::<FrameView>::Failed(
                Fault::UnexpectedEof,
                bytes.len() as int,
            )
            &&& bytes.len() >= 5 && len > 16_777_216 ==> frame_at(bytes)
                == Reading::<FrameView>::Failed(Fault::FrameTooLarge(len), 5)
            &&& bytes.len() >= 5 && len <= 16_777_216 && bytes.len() < 5 + len ==> frame_at(bytes)
                == Reading::<FrameView>::Failed(Fault::UnexpectedEof, bytes.len() as int)
            &&& bytes.len() >= 5 + len && len <= 16_777_216 && bytes[0] == 2 ==> frame_at(bytes)
                == Reading::Got(FrameView::Binary(bytes.subrange(5, 5 + len)), 5 + len)
            &&& bytes.len() >= 5 + len && len <= 16_777_216 && bytes[0] == 1 ==> match json_parse(
                bytes.subrange(5, 5 + len),
            ) {
                Ok(v) => frame_at(bytes) == Reading::Got(FrameView::Json(v), 5 + len),
                Err(e) => frame_at(bytes) == Reading::<FrameView>::Failed(
                    Fault::InvalidJson(e),
                    5 + len,
                ),
            }
        },
{
    if bytes.len() >= 5 {
        let body = bytes.skip(1);
        assert(body[0] == bytes[1] && body[1] == bytes[2] && body[2] == bytes[3] && body[3]
            == bytes[4]);
        let len = be32(body);
        if bytes.len() >= 5 + len {
            assert(body.subrange(4, 4 + len) =~= bytes.subrange(5, 5 + len));
        }
    }
}

/// What a stream gives that holds a message without a tag.
pub proof fn messages_are_read_by_their_length(bytes: Seq<u8>)
    ensures
        bytes.len() < 4 ==> json_at(bytes) == Reading::<JsonView>::Failed(
            Fault::UnexpectedEof,
            bytes.len() as int,
        ),
        bytes.len() >= 4 ==> {
            let len = bytes[0] * 16_777_216 + bytes[1] * 65_536 + bytes[2] * 256 + bytes[3];
            &&& len > 16_777_216 ==> json_at(bytes) == Reading::<JsonView>::Failed(
                Fault::FrameTooLarge(len),
                4,
            )
            &&& len <= 16_777_216 && bytes.len() < 4 + len ==> json_at(bytes)
                == Reading::<JsonView>::Failed(Fault::UnexpectedEof, bytes.len() as int)
            &&& len <= 16_777_216 && bytes.len() >= 4 + len ==> match json_parse(
                bytes.subrange(4, 4 + len),
            ) {
                Ok(v) => json_at(bytes) == Reading::Got(v, 4 + len),
                Err(e) => json_at(bytes) == Reading::<JsonView>::Failed(
                    Fault::InvalidJson(e),
                    4 + len,
                ),
            }
        },
{
}

/// A body goes up to the end marker, to the end of the stream, or to a frame
/// that is no part of it; a fault of the stream is one of the body.
pub proof fn bodies_end_with_what_is_no_binary_frame(
    bytes: Seq<u8>,
    sofar: Seq<u8>,
    limit: int,
)
    ensures
        bytes.len() == 0 ==> body_at(bytes, sofar, limit) == Reading::Got(sofar, 0),
        frame_at(bytes) matches Reading::Got(f, n) ==> !(f is Binary) ==> body_at(
            bytes,
            sofar,
            limit,
        ) == Reading::Got(sofar, n),
        frame_at(bytes) matches Reading::Failed(fault, n) ==> body_at(bytes, sofar, limit)
            == Reading::<Seq<u8>>::Failed(fault, n),
{
}

/// Data are written in pieces of the full size, but for the last one; no data
/// are written in one piece that is empty.
pub proof fn pieces_are_full_but_the_last(data: Seq<u8>, at: int)
    requires
        0 <= at < pieces(data).len() - 1,
    ensures
        pieces(data)[at].len() == 1_048_576,
        pieces(Seq::empty()).len() == 1,
        pieces(Seq::empty())[0].len() == 0,
    decreases data.len(),
{
    if data.len() > CHUNK_SIZE {
        let rest = data.skip(CHUNK_SIZE as int);
        assert(pieces(data) =~= seq![data.take(CHUNK_SIZE as int)] + chunks(rest));
        if at > 0 {
            assert(pieces(data)[at] == chunks(rest)[at - 1]);
            pieces_are_full_but_the_last(rest, at - 1);
        }
    }
}

/// The frames of pieces stand one behind the other, each a binary frame.
pub proof fn pieces_are_framed_in_order(first: Seq<u8>, parts: Seq<Seq<u8>>)
    ensures
        binary_frames(Seq::empty()).len() == 0,
        binary_frames(seq![first] + parts) == framed(2, first) + binary_frames(parts),
{
    assert((seq![first] + parts).drop_first() =~= parts);
}

/// A read that has an outcome hands back what came, and leaves the rest of the
/// stream.
pub proof fn reads_hand_back_what_came(
    before: Seq<u8>,
    r: Result<Option<TaggedFrame>, FrameError>,
    after: Seq<u8>,
)
    requires
        read_as(frame_at(before), before, r, after),
    ensures
        frame_at(before) is Eof ==> r matches Ok(None),
        frame_at(before) is Eof ==> after == before,
        frame_at(before) matches Reading::Got(frame, n) ==> (r matches Ok(Some(f)) && f.view()
            == frame && after == before.skip(n)),
        frame_at(before) matches Reading::Failed(fault, n) ==> (r matches Err(e) && e.view()
            == fault && after == before.skip(n)),
{
}

/// What a fault is told as.
pub proof fn faults_are_told_as_they_are(t: u8, n: nat, e: Seq<char>)
    ensures
        fault_text(Fault::UnexpectedEof) == "unexpected end of file"@,
        fault_text(Fault::UnknownTag(t)) == "unknown frame tag: 0x"@ + seq![
            digit(t as int / 16),
            digit(t as int % 16),
        ],
        fault_text(Fault::FrameTooLarge(n as int)) == "frame too large: "@ + decimal(n)
            + " bytes"@,
        fault_text(Fault::InvalidJson(e)) == e,
        fault_text(Fault::BodyTooLarge(n as int)) == "body too large: over "@ + decimal(n)
            + " bytes"@,
{
    assert(fault_text(Fault::UnknownTag(t)) =~= "unknown frame tag: 0x"@ + seq![
        digit(t as int / 16),
        digit(t as int % 16),
    ]);
}

/// What is seen of a frame or of a failure is what it holds.
pub proof fn frames_are_seen_whole(f: TaggedFrame, e: FrameError)
    ensures
        match f {
            TaggedFrame::Json(j) => f.view() == FrameView::Json(j.view()),
            TaggedFrame::Binary(b) => f.view() == FrameView::Binary(b@),
            TaggedFrame::End => f.view() == FrameView::End,
        },
        match e {
            FrameError::UnexpectedEof => e.view() == Fault::UnexpectedEof,
            FrameError::UnknownTag(t) => e.view() == Fault::UnknownTag(t),
            FrameError::FrameTooLarge(n) => e.view() == Fault::FrameTooLarge(n as int),
            FrameError::InvalidJson(s) => e.view() == Fault::InvalidJson(s@),
            FrameError::BodyTooLarge(n) => e.view() == Fault::BodyTooLarge(n as int),
        },
{
}

/// A decoder starts before a tag, or before the length of a message; it needs
/// one byte for a tag, four for a length, and the payload.
pub proof fn decoders_need_what_comes_next(tag: Option<u8>, len: u32)
    ensures
        Decoder::Tag.reachable(),
        Decoder::Length(None).reachable(),
        Decoder::Tag.needs() == 1,
        Decoder::Length(tag).needs() == 4,
        Decoder::Payload(tag, len).needs() == len,
        Decoder::Length(Some(1)).reachable() && Decoder::Length(Some(2)).reachable(),
        len <= 16_777_216 ==> Decoder::Payload(None, len).reachable(),
        len <= 16_777_216 ==> Decoder::Payload(Some(1), len).reachable(),
        len <= 16_777_216 ==> Decoder::Payload(Some(2), len).reachable(),
{
}

/// A value stands on the wire as the bytes of its compact text.
pub proof fn values_are_written_as_their_text(v: JsonView)
    ensures
        json_bytes(v) == encode_utf8(json_text(v)),
{
}

/// A binary frame goes into the body, unless it makes the body longer than the
/// reader admits; the read then ends behind that frame.
pub proof fn binary_frames_go_into_the_body(
    bytes: Seq<u8>,
    data: Seq<u8>,
    n: int,
    sofar: Seq<u8>,
    limit: int,
)
    requires
        frame_at(bytes) == Reading::Got(FrameView::Binary(data), n),
    ensures
        sofar.len() + data.len() > limit ==> body_at(bytes, sofar, limit)
            == Reading::<Seq<u8>>::Failed(Fault::BodyTooLarge(limit), n),
        sofar.len() + data.len() <= limit ==> match body_at(bytes.skip(n), sofar + data, limit) {
            Reading::Got(body, more) => body_at(bytes, sofar, limit) == Reading::Got(
                body,
                n + more,
            ),
            Reading::Failed(fault, more) => body_at(bytes, sofar, limit)
                == Reading::<Seq<u8>>::Failed(fault, n + more),
            Reading::Eof => body_at(bytes, sofar, limit) is Eof,
        },
{
    if sofar.len() + data.len() <= limit {
        body_goes_on(bytes, data, n, sofar, limit);
    }
}

}
