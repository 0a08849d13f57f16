use vstd::prelude::*;

verus! {

/// A complete HTTP/2 frame: the fixed 9-byte header plus an opaque body.
///
/// Whether `header.length` matches the body's byte count is the caller's
/// concern when a frame is built directly; frames that come out of the
/// wire-parsing path always satisfy it (see `conn::parse_frame`).
#[derive(Debug)]
pub struct Frame {
    pub header: Header,
    pub body: Vec<u8>,
}

impl Frame {
    pub fn new(header: Header, body: Vec<u8>) -> (f: Frame)
        ensures
            f.header == header,
            f.body == body,
    {
        Frame { header, body }
    }

    /// Wire encoding of the whole frame: the 9 header bytes followed by the
    /// body verbatim.
    pub fn serialize(&self) -> (r: Vec<u8>)
        ensures
            r@ == spec_encode_header(self.header) + self.body@,
            r@.len() == 9 + self.body@.len(),
    {
        let mut res = Vec::new();

        let len = self.header.length;
        res.push((len / 0x10000 % 0x100) as u8);
        res.push((len / 0x100 % 0x100) as u8);
        res.push((len % 0x100) as u8);

        res.push(self.header.frame_type.val());

        res.push(self.header.flag_mask.0);

        let sid = self.header.stream_identifier;
        res.push((sid / 0x1000000 % 0x100) as u8);
        res.push((sid / 0x10000 % 0x100) as u8);
        res.push((sid / 0x100 % 0x100) as u8);
        res.push((sid % 0x100) as u8);

        proof {
            assert(res@ =~= spec_encode_header(self.header));
        }

        for i in 0..self.body.len()
            invariant
                res@ == spec_encode_header(self.header) + self.body@.subrange(0, i as int),
        {
            res.push(self.body[i]);
            proof {
                assert(self.body@.subrange(0, i + 1) =~= self.body@.subrange(0, i as int).push(
                    self.body@[i as int],
                ));
            }
        }
        proof {
            assert(self.body@.subrange(0, self.body@.len() as int) =~= self.body@);
        }
        res
    }
}

/// A byte count reduced to the 32 bits the header's length field can carry,
/// as the wire encoding itself would reduce it.
pub open spec fn spec_clip32(n: int) -> u32 {
    (n % 0x1_0000_0000) as u32
}

pub(crate) fn clip_len(n: usize) -> (r: u32)
    ensures
        r == spec_clip32(n as int),
{
    let r = #[verifier::truncate] (n as u32);
    proof {
        assert(n as u32 == ((n as int) % 0x1_0000_0000) as u32) by (bit_vector);
    }
    r
}

/// The fixed 9-byte frame header: 24-bit body length, frame type code,
/// flag byte, and 31-bit stream identifier.
#[derive(Clone, Copy, Debug, PartialEq, Eq, Structural)]
pub struct Header {
    pub length: u32,
    pub frame_type: FrameType,
    pub flag_mask: HeaderFlagMask,
    pub stream_identifier: u32,
}

/// A header is well formed when its length fits the 24-bit wire field and the
/// stream identifier has the reserved high bit clear. Encoding silently
/// truncates either field, so the encode/decode round trip is stated only for
/// well-formed headers.
pub open spec fn spec_header_wf(h: Header) -> bool {
    h.length < 0x1000000 && h.stream_identifier < 0x80000000
}

/// The 9 wire bytes of a header: length and stream id big-endian, the
/// length's low 3 bytes and the stream id's full 4 bytes.
pub open spec fn spec_encode_header(h: Header) -> Seq<u8> {
    seq![
        ((h.length as int / 0x10000) % 0x100) as u8,
        ((h.length as int / 0x100) % 0x100) as u8,
        ((h.length as int) % 0x100) as u8,
        h.frame_type.spec_val(),
        h.flag_mask.0,
        ((h.stream_identifier as int / 0x1000000) % 0x100) as u8,
        ((h.stream_identifier as int / 0x10000) % 0x100) as u8,
        ((h.stream_identifier as int / 0x100) % 0x100) as u8,
        ((h.stream_identifier as int) % 0x100) as u8,
    ]
}

/// Decoding of 9 wire bytes: fails exactly when the type byte is unknown;
/// the stream id's reserved high bit is silently cleared.
pub open spec fn spec_decode_header(s: Seq<u8>) -> Option<Header> {
    if s[3] > 9 {
        None
    } else {
        Some(
            Header {
                length: (s[0] as int * 0x10000 + s[1] as int * 0x100 + s[2] as int) as u32,
                frame_type: spec_frame_type_of_val(s[3]),
                flag_mask: HeaderFlagMask(s[4]),
                stream_identifier: ((s[5] as int * 0x1000000 + s[6] as int * 0x10000 + s[7] as int
                    * 0x100 + s[8] as int) % 0x80000000) as u32,
            },
        )
    }
}

/// Decoding a well-formed header's encoding gives the header back. The
/// reserved stream-id bit and length values of 24 bits or more are excluded
/// by well-formedness: encoding drops them, so they cannot round-trip.
pub proof fn lemma_header_round_trip(h: Header)
    requires
        spec_header_wf(h),
    ensures
        spec_decode_header(spec_encode_header(h)) == Some(h),
{
    let s = spec_encode_header(h);
    assert(s[3] == h.frame_type.spec_val());
    assert(s[3] <= 9);
    lemma_frame_type_val_inverse(h.frame_type);

    let l = h.length;
    assert((l as int / 0x10000 % 0x100) * 0x10000 + (l as int / 0x100 % 0x100) * 0x100 + (
    l as int % 0x100) == l as int) by (bit_vector)
        requires
            l < 0x1000000u32,
    ;

    let sid = h.stream_identifier;
    assert(((sid as int / 0x1000000 % 0x100) * 0x1000000 + (sid as int / 0x10000 % 0x100) * 0x10000
        + (sid as int / 0x100 % 0x100) * 0x100 + (sid as int % 0x100)) % 0x80000000 == sid as int)
        by (bit_vector)
        requires
            sid < 0x80000000u32,
    ;
}

/// A set reserved bit on the stream id is silently cleared, never refused:
/// two header encodings that differ only in that bit decode to the same
/// header.
pub proof fn lemma_reserved_bit_masking(s1: Seq<u8>, s2: Seq<u8>)
    requires
        s1.len() >= 9,
        s2.len() >= 9,
        forall|i: int| 0 <= i < 9 && i != 5 ==> s1[i] == s2[i],
        s2[5] == s1[5] & 0x7f,
    ensures
        spec_decode_header(s1) == spec_decode_header(s2),
{
    let a = s1[5];
    let r = (s1[6] as int * 0x10000 + s1[7] as int * 0x100 + s1[8] as int) as u32;
    assert((a as int * 0x1000000 + r as int) % 0x80000000 == ((a & 0x7f) as int * 0x1000000
        + r as int) % 0x80000000) by (bit_vector)
        requires
            r < 0x1000000u32,
    ;
}

impl Header {
    pub fn from_fields(
        length: u32,
        frame_type: FrameType,
        flag_mask: HeaderFlagMask,
        stream_id: u32,
    ) -> (h: Header)
        ensures
            h == (Header { length, frame_type, flag_mask, stream_identifier: stream_id }),
    {
        Header { length, frame_type, flag_mask, stream_identifier: stream_id }
    }

    /// Decode the 9 leading bytes of `buf`. Fails exactly on an unknown frame
    /// type byte, with the invalid-frame-type error; a set reserved bit on
    /// the stream id is cleared, not refused.
    pub fn new(buf: &[u8]) -> (r: Result<Header, &'static str>)
        requires
            buf@.len() >= 9,
        ensures
            r is Ok <==> buf@[3] <= 9,
            r is Ok ==> Some(r->Ok_0) == spec_decode_header(buf@),
            r is Err ==> r->Err_0@ == "not a valid frame type"@,
    {
        let length: u32 = buf[0] as u32 * 0x10000 + buf[1] as u32 * 0x100 + buf[2] as u32;

        let frame_type = match FrameType::new(buf[3]) {
            Ok(ft) => ft,
            Err(e) => {
                return Err(e);
            },
        };
        proof {
            lemma_frame_type_val_inverse(frame_type);
        }

        let flag_mask = HeaderFlagMask(buf[4]);

        let raw_id: u32 = buf[5] as u32 * 0x1000000 + buf[6] as u32 * 0x10000 + buf[7] as u32
            * 0x100 + buf[8] as u32;
        let stream_identifier = raw_id % 0x80000000;

        Ok(Header { length, frame_type, flag_mask, stream_identifier })
    }

    pub fn length(&self) -> (r: u32)
        ensures
            r == self.length,
    {
        self.length
    }

    pub fn frame_type(&self) -> (r: FrameType)
        ensures
            r == self.frame_type,
    {
        self.frame_type
    }

    pub fn flag_mask(&self) -> (r: HeaderFlagMask)
        ensures
            r == self.flag_mask,
    {
        self.flag_mask
    }

    pub fn stream_identifier(&self) -> (r: u32)
        ensures
            r == self.stream_identifier,
    {
        self.stream_identifier
    }
}

/// The ten HTTP/2 frame types, in wire-code order.
#[derive(Clone, Copy, Debug, PartialEq, Eq, Structural)]
pub enum FrameType {
    Data,
    Headers,
    Priority,
    RstStream,
    Settings,
    PushPromise,
    Ping,
    GoAway,
    WindowUpdate,
    Continuation,
}

/// The frame type whose wire code is `v`, for `v <= 9`.
pub open spec fn spec_frame_type_of_val(v: u8) -> FrameType {
    if v == 0 {
        FrameType::Data
    } else if v == 1 {
        FrameType::Headers
    } else if v == 2 {
        FrameType::Priority
    } else if v == 3 {
        FrameType::RstStream
    } else if v == 4 {
        FrameType::Settings
    } else if v == 5 {
        FrameType::PushPromise
    } else if v == 6 {
        FrameType::Ping
    } else if v == 7 {
        FrameType::GoAway
    } else if v == 8 {
        FrameType::WindowUpdate
    } else {
        FrameType::Continuation
    }
}

pub proof fn lemma_frame_type_val_inverse(ft: FrameType)
    ensures
        spec_frame_type_of_val(ft.spec_val()) == ft,
{
}

impl FrameType {
    /// Numeric wire code of each frame type.
    pub open spec fn spec_val(self) -> u8 {
        match self {
            FrameType::Data => 0,
            FrameType::Headers => 1,
            FrameType::Priority => 2,
            FrameType::RstStream => 3,
            FrameType::Settings => 4,
            FrameType::PushPromise => 5,
            FrameType::Ping => 6,
            FrameType::GoAway => 7,
            FrameType::WindowUpdate => 8,
            FrameType::Continuation => 9,
        }
    }

    /// Decode a wire code; every value above 9 is rejected, with the
    /// invalid-frame-type error.
    pub fn new(val: u8) -> (r: Result<FrameType, &'static str>)
        ensures
            r is Ok <==> val <= 9,
            r is Ok ==> r->Ok_0 == spec_frame_type_of_val(val),
            r is Err ==> r->Err_0@ == "not a valid frame type"@,
    {
        match val {
            0 => Ok(FrameType::Data),
            1 => Ok(FrameType::Headers),
            2 => Ok(FrameType::Priority),
            3 => Ok(FrameType::RstStream),
            4 => Ok(FrameType::Settings),
            5 => Ok(FrameType::PushPromise),
            6 => Ok(FrameType::Ping),
            7 => Ok(FrameType::GoAway),
            8 => Ok(FrameType::WindowUpdate),
            9 => Ok(FrameType::Continuation),
            _ => Err("not a valid frame type"),
        }
    }

    pub fn val(&self) -> (r: u8)
        ensures
            r == self.spec_val(),
    {
        match self {
            FrameType::Data => 0,
            FrameType::Headers => 1,
            FrameType::Priority => 2,
            FrameType::RstStream => 3,
            FrameType::Settings => 4,
            FrameType::PushPromise => 5,
            FrameType::Ping => 6,
            FrameType::GoAway => 7,
            FrameType::WindowUpdate => 8,
            FrameType::Continuation => 9,
        }
    }
}

/// The flag bits a frame header can carry.
#[derive(Clone, Copy, Debug, PartialEq, Eq, Structural)]
pub enum HeaderFlag {
    EndStream,
    EndHeaders,
    Padded,
    Priority,
}

impl HeaderFlag {
    /// The bit each flag occupies in the header's flag byte.
    pub open spec fn spec_bit(self) -> u8 {
        match self {
            HeaderFlag::EndStream => 0x1,
            HeaderFlag::EndHeaders => 0x4,
            HeaderFlag::Padded => 0x8,
            HeaderFlag::Priority => 0x20,
        }
    }

    pub fn bit(&self) -> (r: u8)
        ensures
            r == self.spec_bit(),
    {
        match self {
            HeaderFlag::EndStream => 0x1,
            HeaderFlag::EndHeaders => 0x4,
            HeaderFlag::Padded => 0x8,
            HeaderFlag::Priority => 0x20,
        }
    }
}

/// The raw flag byte of a frame header. Bits without a named flag are kept
/// verbatim by every operation.
#[derive(Clone, Copy, Debug, PartialEq, Eq, Structural)]
pub struct HeaderFlagMask(pub u8);

impl HeaderFlagMask {
    pub open spec fn spec_check(self, flag: HeaderFlag) -> bool {
        self.0 & flag.spec_bit() != 0
    }

    pub fn check(&self, flag: HeaderFlag) -> (r: bool)
        ensures
            r == self.spec_check(flag),
    {
        let masked = self.0 & flag.bit();
        masked > 0
    }

    pub fn add(&mut self, flag: HeaderFlag)
        ensures
            final(self).0 == old(self).0 | flag.spec_bit(),
    {
        self.0 = self.0 | flag.bit();
    }

    pub fn remove(&mut self, flag: HeaderFlag)
        ensures
            final(self).0 == old(self).0 & !flag.spec_bit(),
    {
        self.0 = self.0 & !flag.bit();
    }
}

/// Setting or clearing one flag never changes what `check` answers for any
/// other flag: the four named bits are distinct, and unnamed bits are
/// untouched either way.
pub proof fn lemma_flag_independence(m: HeaderFlagMask, f: HeaderFlag, g: HeaderFlag)
    requires
        f != g,
    ensures
        HeaderFlagMask(m.0 | f.spec_bit()).spec_check(g) == m.spec_check(g),
        HeaderFlagMask(m.0 & !f.spec_bit()).spec_check(g) == m.spec_check(g),
{
    let a = f.spec_bit();
    let b = g.spec_bit();
    let x = m.0;
    assert(a != b);
    assert(((x | a) & b != 0) == (x & b != 0) && ((x & !a) & b != 0) == (x & b != 0))
        by (bit_vector)
        requires
            a != b,
            a == 0x1u8 || a == 0x4u8 || a == 0x8u8 || a == 0x20u8,
            b == 0x1u8 || b == 0x4u8 || b == 0x8u8 || b == 0x20u8,
    ;
}

} // verus!
