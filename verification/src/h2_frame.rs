//! HTTP/2 frames (RFC 9113, section 4): the 9-byte frame header and its
//! payload.
use vstd::prelude::*;
use crate::error::HttpError;

verus! {

/// HTTP/2 frame types.
#[derive(Debug, Clone, Copy, PartialEq, Eq, Structural)]
pub enum H2FrameType {
    Data,
    Headers,
    Priority,
    RstStream,
    Settings,
    PushPromise,
    Ping,
    GoAway,
    WindowUpdate,
    Continuation,
    Unknown(u8),
}

/// The frame type that the wire value `v` denotes.
pub open spec fn frame_type_of(v: u8) -> H2FrameType {
    if v == 0 {
        H2FrameType::Data
    } else if v == 1 {
        H2FrameType::Headers
    } else if v == 2 {
        H2FrameType::Priority
    } else if v == 3 {
        H2FrameType::RstStream
    } else if v == 4 {
        H2FrameType::Settings
    } else if v == 5 {
        H2FrameType::PushPromise
    } else if v == 6 {
        H2FrameType::Ping
    } else if v == 7 {
        H2FrameType::GoAway
    } else if v == 8 {
        H2FrameType::WindowUpdate
    } else if v == 9 {
        H2FrameType::Continuation
    } else {
        H2FrameType::Unknown(v)
    }
}

/// The wire value of a frame type.
pub open spec fn frame_type_code(t: H2FrameType) -> u8 {
    match t {
        H2FrameType::Data => 0,
        H2FrameType::Headers => 1,
        H2FrameType::Priority => 2,
        H2FrameType::RstStream => 3,
        H2FrameType::Settings => 4,
        H2FrameType::PushPromise => 5,
        H2FrameType::Ping => 6,
        H2FrameType::GoAway => 7,
        H2FrameType::WindowUpdate => 8,
        H2FrameType::Continuation => 9,
        H2FrameType::Unknown(v) => v,
    }
}

impl H2FrameType {
    /// Converts a raw byte to a frame type.
    pub fn from_u8(v: u8) -> (t: Self)
        ensures
            t == frame_type_of(v),
    {
        match v {
            0 => H2FrameType::Data,
            1 => H2FrameType::Headers,
            2 => H2FrameType::Priority,
            3 => H2FrameType::RstStream,
            4 => H2FrameType::Settings,
            5 => H2FrameType::PushPromise,
            6 => H2FrameType::Ping,
            7 => H2FrameType::GoAway,
            8 => H2FrameType::WindowUpdate,
            9 => H2FrameType::Continuation,
            other => H2FrameType::Unknown(other),
        }
    }

    /// Converts to the raw byte value.
    pub fn to_u8(self) -> (v: u8)
        ensures
            v == frame_type_code(self),
    {
        match self {
            H2FrameType::Data => 0,
            H2FrameType::Headers => 1,
            H2FrameType::Priority => 2,
            H2FrameType::RstStream => 3,
            H2FrameType::Settings => 4,
            H2FrameType::PushPromise => 5,
            H2FrameType::Ping => 6,
            H2FrameType::GoAway => 7,
            H2FrameType::WindowUpdate => 8,
            H2FrameType::Continuation => 9,
            H2FrameType::Unknown(v) => v,
        }
    }
}

/// The frame type codes are those of the HTTP/2 registry (RFC 9113,
/// section 6): `DATA` is 0, `HEADERS` 1, `PRIORITY` 2, `RST_STREAM` 3,
/// `SETTINGS` 4, `PUSH_PROMISE` 5, `PING` 6, `GOAWAY` 7, `WINDOW_UPDATE` 8
/// and `CONTINUATION` 9; a wire value above 9 names an unknown type that
/// keeps the value.
pub proof fn frame_type_registry(v: u8)
    ensures
        frame_type_code(H2FrameType::Data) == 0,
        frame_type_code(H2FrameType::Headers) == 1,
        frame_type_code(H2FrameType::Priority) == 2,
        frame_type_code(H2FrameType::RstStream) == 3,
        frame_type_code(H2FrameType::Settings) == 4,
        frame_type_code(H2FrameType::PushPromise) == 5,
        frame_type_code(H2FrameType::Ping) == 6,
        frame_type_code(H2FrameType::GoAway) == 7,
        frame_type_code(H2FrameType::WindowUpdate) == 8,
        frame_type_code(H2FrameType::Continuation) == 9,
        v == 0 <==> frame_type_of(v) == H2FrameType::Data,
        v == 1 <==> frame_type_of(v) == H2FrameType::Headers,
        v == 2 <==> frame_type_of(v) == H2FrameType::Priority,
        v == 3 <==> frame_type_of(v) == H2FrameType::RstStream,
        v == 4 <==> frame_type_of(v) == H2FrameType::Settings,
        v == 5 <==> frame_type_of(v) == H2FrameType::PushPromise,
        v == 6 <==> frame_type_of(v) == H2FrameType::Ping,
        v == 7 <==> frame_type_of(v) == H2FrameType::GoAway,
        v == 8 <==> frame_type_of(v) == H2FrameType::WindowUpdate,
        v == 9 <==> frame_type_of(v) == H2FrameType::Continuation,
        v > 9 <==> frame_type_of(v) == H2FrameType::Unknown(v),
{
}

/// Every wire value comes back from its frame type.
pub proof fn frame_type_code_of(v: u8)
    ensures
        frame_type_code(frame_type_of(v)) == v,
{
}

/// A frame type comes back from its wire value, unless it is an `Unknown`
/// that holds the value of a known type.
pub proof fn frame_type_of_code(t: H2FrameType)
    requires
        !(t matches H2FrameType::Unknown(v) && v <= 9),
    ensures
        frame_type_of(frame_type_code(t)) == t,
{
}

/// An HTTP/2 frame: the header fields and the payload.
#[derive(Debug, Clone)]
pub struct H2Frame {
    pub length: u32,
    pub frame_type: H2FrameType,
    pub flags: u8,
    pub stream_id: u32,
    pub payload: Vec<u8>,
}

/// The 9-byte frame header for a payload of `len` bytes (the low 24 bits of
/// `len` are sent), with the reserved bit of the stream identifier cleared.
pub open spec fn frame_header(len: nat, ty: u8, flags: u8, stream_id: u32) -> Seq<u8> {
    seq![
        ((len / 0x10000) % 0x100) as u8,
        ((len / 0x100) % 0x100) as u8,
        (len % 0x100) as u8,
        ty,
        flags,
        ((stream_id / 0x1000000) % 0x80) as u8,
        ((stream_id / 0x10000) % 0x100) as u8,
        ((stream_id / 0x100) % 0x100) as u8,
        (stream_id % 0x100) as u8,
    ]
}

/// The payload length that a frame header states.
pub open spec fn header_length(data: Seq<u8>) -> nat {
    (data[0] as nat) * 0x10000 + (data[1] as nat) * 0x100 + (data[2] as nat)
}

/// The stream identifier that a frame header states (the reserved bit is
/// ignored).
pub open spec fn header_stream_id(data: Seq<u8>) -> nat {
    ((data[5] as nat) % 0x80) * 0x1000000 + (data[6] as nat) * 0x10000 + (data[7] as nat) * 0x100
        + (data[8] as nat)
}

impl H2Frame {
    /// The HTTP/2 connection preface, `PRI * HTTP/2.0\r\n\r\nSM\r\n\r\n`.
    pub const CONNECTION_PREFACE: [u8; 24] = [
        0x50, 0x52, 0x49, 0x20, 0x2a, 0x20, 0x48, 0x54, 0x54, 0x50, 0x2f, 0x32,
        0x2e, 0x30, 0x0d, 0x0a, 0x0d, 0x0a, 0x53, 0x4d, 0x0d, 0x0a, 0x0d, 0x0a,
    ];

    /// Frame header size in bytes.
    pub const HEADER_SIZE: usize = 9;

    /// The serialized form of this frame: its header, for the actual
    /// payload length taken modulo 2^32, then the payload.
    pub open spec fn wire(&self) -> Seq<u8> {
        frame_header(
            self.payload@.len() % 0x100000000,
            frame_type_code(self.frame_type),
            self.flags,
            self.stream_id,
        ) + self.payload@
    }

    /// Parses an HTTP/2 frame from raw bytes.
    ///
    /// # Errors
    ///
    /// Returns `HttpError::Incomplete` if there are not enough bytes.
    pub fn parse(data: &[u8]) -> (r: Result<Self, HttpError>)
        ensures
            data@.len() < 9 || data@.len() < 9 + header_length(data@) ==> r == Err::<
                Self,
                HttpError,
            >(HttpError::Incomplete),
            data@.len() >= 9 && data@.len() >= 9 + header_length(data@) ==> (r matches Ok(f) && {
                &&& f.length == header_length(data@)
                &&& f.frame_type == frame_type_of(data@[3])
                &&& f.flags == data@[4]
                &&& f.stream_id == header_stream_id(data@)
                &&& f.payload@ == data@.subrange(9, 9 + header_length(data@) as int)
            }),
    {
        if data.len() < Self::HEADER_SIZE {
            return Err(HttpError::Incomplete);
        }
        let b0 = data[0] as u32;
        let b1 = data[1] as u32;
        let b2 = data[2] as u32;
        let length = b0 << 16 | b1 << 8 | b2;
        assert(length == b0 * 0x10000 + b1 * 0x100 + b2) by (bit_vector)
            requires
                length == b0 << 16 | b1 << 8 | b2,
                b0 < 256,
                b1 < 256,
                b2 < 256,
        ;
        let frame_type = H2FrameType::from_u8(data[3]);
        let flags = data[4];
        let d5 = data[5];
        let s0 = (d5 & 0x7F) as u32;
        let s1 = data[6] as u32;
        let s2 = data[7] as u32;
        let s3 = data[8] as u32;
        assert(s0 == (d5 % 0x80) as u32) by (bit_vector)
            requires
                s0 == (d5 & 0x7F) as u32,
        ;
        let stream_id = s0 << 24 | s1 << 16 | s2 << 8 | s3;
        assert(stream_id == s0 * 0x1000000 + s1 * 0x10000 + s2 * 0x100 + s3) by (bit_vector)
            requires
                stream_id == s0 << 24 | s1 << 16 | s2 << 8 | s3,
                s0 < 128,
                s1 < 256,
                s2 < 256,
                s3 < 256,
        ;
        let len = length as usize;
        if data.len() - Self::HEADER_SIZE < len {
            return Err(HttpError::Incomplete);
        }
        let total = Self::HEADER_SIZE + len;
        let payload = vstd::slice::slice_to_vec(crate::text::slice_bytes(data, Self::HEADER_SIZE, total));
        Ok(H2Frame { length, frame_type, flags, stream_id, payload })
    }

    /// Serializes this frame to bytes.
    pub fn to_bytes(&self) -> (out: Vec<u8>)
        ensures
            out@ == self.wire(),
    {
        let n = self.payload.len();
        let len = n as u32;
        assert(len as u64 == (n as u64) % 0x100000000) by (bit_vector)
            requires
                len == n as u32,
        ;
        let mut out: Vec<u8> = Vec::new();
        let h0 = (len >> 16) as u8;
        let h1 = (len >> 8) as u8;
        let h2 = len as u8;
        assert(h0 as u32 == (len / 0x10000) % 0x100 && h1 as u32 == (len / 0x100) % 0x100 && h2 as u32
            == len % 0x100)
            by (bit_vector)
            requires
                h0 == (len >> 16) as u8,
                h1 == (len >> 8) as u8,
                h2 == len as u8,
        ;
        out.push(h0);
        out.push(h1);
        out.push(h2);
        out.push(self.frame_type.to_u8());
        out.push(self.flags);
        let sid = self.stream_id;
        let i0 = ((sid >> 24) as u8) & 0x7F;
        let i1 = (sid >> 16) as u8;
        let i2 = (sid >> 8) as u8;
        let i3 = sid as u8;
        assert(i0 as u32 == (sid / 0x1000000) % 0x80 && i1 as u32 == (sid / 0x10000) % 0x100
            && i2 as u32 == (sid / 0x100) % 0x100 && i3 as u32 == sid % 0x100) by (bit_vector)
            requires
                i0 == ((sid >> 24) as u8) & 0x7F,
                i1 == (sid >> 16) as u8,
                i2 == (sid >> 8) as u8,
                i3 == sid as u8,
        ;
        out.push(i0);
        out.push(i1);
        out.push(i2);
        out.push(i3);
        let ghost head = out@;
        assert(head =~= frame_header(
            (n as nat) % 0x100000000,
            frame_type_code(self.frame_type),
            self.flags,
            self.stream_id,
        ));
        let mut i: usize = 0;
        while i < n
            invariant
                n == self.payload@.len(),
                i <= n,
                out@ == head + self.payload@.take(i as int),
            decreases n - i,
        {
            out.push(self.payload[i]);
            i += 1;
            assert(out@ =~= head + self.payload@.take(i as int));
        }
        assert(self.payload@.take(n as int) =~= self.payload@);
        out
    }

    /// Creates a SETTINGS frame.
    pub fn settings(stream_id: u32, payload: &[u8]) -> (f: Self)
        ensures
            f.length == payload@.len() % 0x100000000,
            f.frame_type == H2FrameType::Settings,
            f.flags == 0,
            f.stream_id == stream_id,
            f.payload@ == payload@,
    {
        let n = payload.len();
        let length = n as u32;
        assert(length as u64 == (n as u64) % 0x100000000) by (bit_vector)
            requires
                length == n as u32,
        ;
        H2Frame {
            length,
            frame_type: H2FrameType::Settings,
            flags: 0,
            stream_id,
            payload: vstd::slice::slice_to_vec(payload),
        }
    }

    /// Creates a PING frame.
    pub fn ping(data: &[u8; 8]) -> (f: Self)
        ensures
            f.length == 8,
            f.frame_type == H2FrameType::Ping,
            f.flags == 0,
            f.stream_id == 0,
            f.payload@ == data@,
    {
        let payload = vec![data[0], data[1], data[2], data[3], data[4], data[5], data[6], data[7]];
        assert(payload@ =~= data@);
        H2Frame { length: 8, frame_type: H2FrameType::Ping, flags: 0, stream_id: 0, payload }
    }

    /// Creates a `WINDOW_UPDATE` frame.
    pub fn window_update(stream_id: u32, increment: u32) -> (f: Self)
        ensures
            f.length == 4,
            f.frame_type == H2FrameType::WindowUpdate,
            f.flags == 0,
            f.stream_id == stream_id,
            f.payload@ == be_bytes(increment),
    {
        H2Frame {
            length: 4,
            frame_type: H2FrameType::WindowUpdate,
            flags: 0,
            stream_id,
            payload: to_be_bytes(increment),
        }
    }

    /// Creates a GOAWAY frame.
    pub fn goaway(last_stream_id: u32, error_code: u32) -> (f: Self)
        ensures
            f.length == 8,
            f.frame_type == H2FrameType::GoAway,
            f.flags == 0,
            f.stream_id == 0,
            f.payload@ == be_bytes(last_stream_id) + be_bytes(error_code),
    {
        let mut payload = to_be_bytes(last_stream_id);
        let tail = to_be_bytes(error_code);
        payload.push(tail[0]);
        payload.push(tail[1]);
        payload.push(tail[2]);
        payload.push(tail[3]);
        assert(payload@ =~= be_bytes(last_stream_id) + be_bytes(error_code));
        H2Frame { length: 8, frame_type: H2FrameType::GoAway, flags: 0, stream_id: 0, payload }
    }

    /// Returns `true` if the `END_STREAM` flag is set.
    pub fn is_end_stream(&self) -> (r: bool)
        ensures
            r == (self.flags & 0x01 != 0),
    {
        self.flags & 0x01 != 0
    }

    /// Returns `true` if the `END_HEADERS` flag is set.
    pub fn is_end_headers(&self) -> (r: bool)
        ensures
            r == (self.flags & 0x04 != 0),
    {
        self.flags & 0x04 != 0
    }

    /// Returns `true` if the ACK flag is set.
    pub fn is_ack(&self) -> (r: bool)
        ensures
            r == (self.flags & 0x01 != 0),
    {
        self.flags & 0x01 != 0
    }
}

/// The big-endian bytes of `v`.
pub open spec fn be_bytes(v: u32) -> Seq<u8> {
    seq![
        ((v / 0x1000000) % 0x100) as u8,
        ((v / 0x10000) % 0x100) as u8,
        ((v / 0x100) % 0x100) as u8,
        (v % 0x100) as u8,
    ]
}

/// The four big-endian bytes of `v`.
fn to_be_bytes(v: u32) -> (out: Vec<u8>)
    ensures
        out@ == be_bytes(v),
{
    let b0 = (v >> 24) as u8;
    let b1 = (v >> 16) as u8;
    let b2 = (v >> 8) as u8;
    let b3 = v as u8;
    assert(b0 as u32 == (v / 0x1000000) % 0x100 && b1 as u32 == (v / 0x10000) % 0x100 && b2 as u32
        == (v / 0x100) % 0x100 && b3 as u32 == v % 0x100) by (bit_vector)
        requires
            b0 == (v >> 24) as u8,
            b1 == (v >> 16) as u8,
            b2 == (v >> 8) as u8,
            b3 == v as u8,
    ;
    let out = vec![b0, b1, b2, b3];
    assert(out@ =~= be_bytes(v));
    out
}

/// A 24-bit number is the sum of its three bytes by place.
proof fn lemma_three_bytes(n: nat)
    requires
        n < 0x1000000,
    ensures
        ((n / 0x10000) % 0x100) * 0x10000 + ((n / 0x100) % 0x100) * 0x100 + n % 0x100 == n,
{
    let a = n / 0x10000;
    let r = n % 0x10000;
    assert(n == a * 0x10000 + r && 0 <= r < 0x10000) by (nonlinear_arith)
        requires
            a == n / 0x10000,
            r == n % 0x10000,
    ;
    assert(a < 0x100) by (nonlinear_arith)
        requires
            n == a * 0x10000 + r,
            0 <= r,
            n < 0x1000000,
    ;
    assert(n / 0x100 == a * 0x100 + r / 0x100) by (nonlinear_arith)
        requires
            n == a * 0x10000 + r,
            0 <= r < 0x10000,
    ;
    assert((a * 0x100 + r / 0x100) % 0x100 == r / 0x100) by (nonlinear_arith)
        requires
            0 <= r < 0x10000,
    ;
    assert(n % 0x100 == r % 0x100) by (nonlinear_arith)
        requires
            n == a * 0x10000 + r,
            0 <= r,
    ;
    assert(r == (r / 0x100) * 0x100 + r % 0x100) by (nonlinear_arith);
}

/// A stream identifier without its reserved bit is the sum of its four
/// bytes by place, the high one masked.
proof fn lemma_stream_id_bytes(sid: u32)
    ensures
        ((sid / 0x1000000) % 0x80) * 0x1000000 + ((sid / 0x10000) % 0x100) * 0x10000 + ((sid
            / 0x100) % 0x100) * 0x100 + sid % 0x100 == sid % 0x80000000,
{
    assert(((sid / 0x1000000) % 0x80) * 0x1000000 + ((sid / 0x10000) % 0x100) * 0x10000 + ((sid
        / 0x100) % 0x100) * 0x100 + sid % 0x100 == sid % 0x80000000) by (bit_vector);
}

/// A frame read back from its serialized form keeps its type, flags, stream
/// identifier (without the reserved bit) and payload, and states the
/// payload length, provided the payload is shorter than 2^24 bytes and the
/// type is not an `Unknown` holding a known value.
pub proof fn frame_roundtrip(f: H2Frame)
    requires
        f.payload@.len() < 0x1000000,
        !(f.frame_type matches H2FrameType::Unknown(v) && v <= 9),
    ensures
        f.wire().len() >= 9,
        f.wire().len() >= 9 + header_length(f.wire()),
        header_length(f.wire()) == f.payload@.len(),
        frame_type_of(f.wire()[3]) == f.frame_type,
        f.wire()[4] == f.flags,
        header_stream_id(f.wire()) == f.stream_id % 0x80000000,
        f.wire().subrange(9, 9 + header_length(f.wire()) as int) == f.payload@,
{
    let w = f.wire();
    let n = f.payload@.len();
    let sid = f.stream_id;
    assert(n % 0x100000000 == n);
    lemma_three_bytes(n);
    lemma_stream_id_bytes(sid);
    assert(w.subrange(9, 9 + n as int) =~= f.payload@);
}

} // verus!
