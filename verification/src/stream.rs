use vstd::prelude::*;

use crate::h2::Frame;
use crate::h2::FrameType;
use crate::h2::Header;
use crate::h2::HeaderFlag;
use crate::h2::clip_len;
use crate::h2::spec_clip32;
use crate::h2::HeaderFlagMask;
use crate::hpack_adapter::block_safe;
use crate::hpack_adapter::decode_block;
use crate::hpack_adapter::encode_block;
use crate::http::ReqModel;
use crate::http::Request;
use crate::http::Response;
use crate::http::spec_from_h2_headers;
use crate::http::spec_headers_view;

verus! {

/// Why a stream refused a frame; each of these ends the connection.
#[derive(Clone, Copy, Debug, PartialEq, Eq, Structural)]
pub enum StreamError {
    /// A HEADERS frame without `EndHeaders`: continuations are not handled.
    UnsupportedContinuation,
    /// A DATA frame ended a stream that never received headers.
    MissingPriorHeaders,
    /// A `:method` or `content-length` value that does not parse.
    InvalidPseudoHeaderValue,
    /// The compression adapter could not decode a header block.
    HeaderDecodeFailure,
    /// A finished body whose length differs from the announced content length.
    BodyLengthMismatch,
}

/// What one stream carries: the request being assembled, the body bytes
/// accumulated so far, and whether a finished request awaits the handler.
#[derive(Debug)]
pub struct StreamData {
    pub id: u32,
    pub curr_request: Option<Request>,
    pub body_buf: Vec<u8>,
    pub should_handle_request: bool,
}

/// One stream's state. `Closed` is a reserved terminal state: no transition
/// reaches it, and `on_frame` is not defined on it.
#[derive(Debug)]
pub enum Stream {
    Idle(StreamData),
    Open(StreamData),
    Closed(StreamData),
}

/// What handling a frame in `Idle` means. Anything but HEADERS is ignored;
/// HEADERS without `EndHeaders` is refused; otherwise the block is decoded
/// and folded into a fresh request (the decoding itself is the compression
/// adapter's, so the request is pinned only up to the decoded pair list),
/// and the stream opens.
pub open spec fn spec_idle_step(data: StreamData, frame: Frame, r: Result<Stream, StreamError>) -> bool {
    if frame.header.frame_type != FrameType::Headers {
        r == Ok::<Stream, StreamError>(Stream::Idle(data))
    } else if !frame.header.flag_mask.spec_check(HeaderFlag::EndHeaders) {
        r == Err::<Stream, StreamError>(StreamError::UnsupportedContinuation)
    } else {
        match r {
            Ok(s) => s is Open && {
                let d = s.data();
                &&& d.id == data.id
                &&& d.body_buf == data.body_buf
                &&& d.should_handle_request == (data.should_handle_request
                    || frame.header.flag_mask.spec_check(HeaderFlag::EndStream))
                &&& d.curr_request is Some
                &&& (exists|hs: Seq<(Seq<char>, Seq<char>)>|
                    spec_from_h2_headers(hs) == Ok::<ReqModel, Seq<char>>(
                        d.curr_request->Some_0@,
                    ))
            },
            Err(e) => e == StreamError::HeaderDecodeFailure || e
                == StreamError::InvalidPseudoHeaderValue,
        }
    }
}

/// What handling a frame in `Open` means. Anything but DATA drops the stream
/// back to `Idle` unchanged; DATA appends its body to the buffer; `EndStream`
/// attaches the buffer as the request body, which must exist and match the
/// announced length, and marks the request ready.
pub open spec fn spec_open_step(data: StreamData, frame: Frame, r: Result<Stream, StreamError>) -> bool {
    if frame.header.frame_type != FrameType::Data {
        r == Ok::<Stream, StreamError>(Stream::Idle(data))
    } else {
        let combined = data.body_buf@ + frame.body@;
        if !frame.header.flag_mask.spec_check(HeaderFlag::EndStream) {
            match r {
                Ok(s) => s is Open && {
                    let d = s.data();
                    &&& d.id == data.id
                    &&& d.curr_request == data.curr_request
                    &&& d.should_handle_request == data.should_handle_request
                    &&& d.body_buf@ == combined
                },
                Err(_) => false,
            }
        } else if data.curr_request is None {
            r == Err::<Stream, StreamError>(StreamError::MissingPriorHeaders)
        } else if data.curr_request->Some_0.len != combined.len() {
            r == Err::<Stream, StreamError>(StreamError::BodyLengthMismatch)
        } else {
            match r {
                Ok(s) => s is Open && {
                    let d = s.data();
                    &&& d.id == data.id
                    &&& d.should_handle_request == true
                    &&& d.body_buf@ == Seq::<u8>::empty()
                    &&& d.curr_request is Some
                    &&& d.curr_request->Some_0@ == (ReqModel {
                        body: combined,
                        ..data.curr_request->Some_0@
                    })
                },
                Err(_) => false,
            }
        }
    }
}

/// A finished body whose length differs from the announced content length
/// never becomes a request: for every open stream, every DATA frame that
/// ends the stream, and every outcome the step relation admits, a mismatch
/// between the accumulated bytes and the request's `content-length` leaves
/// the length-mismatch error as the only possible result.
pub proof fn lemma_body_length_mismatch_is_fatal(
    data: StreamData,
    frame: Frame,
    r: Result<Stream, StreamError>,
)
    requires
        frame.header.frame_type == FrameType::Data,
        frame.header.flag_mask.spec_check(HeaderFlag::EndStream),
        data.curr_request is Some,
        data.curr_request->Some_0.len != data.body_buf@.len() + frame.body@.len(),
        spec_open_step(data, frame, r),
    ensures
        r == Err::<Stream, StreamError>(StreamError::BodyLengthMismatch),
{
}

/// The whole transition relation of a non-closed stream.
pub open spec fn spec_stream_step(s: Stream, frame: Frame, r: Result<Stream, StreamError>) -> bool {
    match s {
        Stream::Idle(data) => spec_idle_step(data, frame, r),
        Stream::Open(data) => spec_open_step(data, frame, r),
        Stream::Closed(_) => false,
    }
}

impl Stream {
    /// The per-stream bookkeeping, whatever the state.
    pub open spec fn data(self) -> StreamData {
        match self {
            Stream::Idle(d) => d,
            Stream::Open(d) => d,
            Stream::Closed(d) => d,
        }
    }

    pub fn id(&self) -> (r: u32)
        ensures
            r == self.data().id,
    {
        match self {
            Stream::Idle(d) => d.id,
            Stream::Open(d) => d.id,
            Stream::Closed(d) => d.id,
        }
    }

    pub fn should_handle_request(&self) -> (r: bool)
        ensures
            r == self.data().should_handle_request,
    {
        match self {
            Stream::Idle(d) => d.should_handle_request,
            Stream::Open(d) => d.should_handle_request,
            Stream::Closed(d) => d.should_handle_request,
        }
    }

    pub fn set_request_handled(&mut self)
        ensures
            final(self).data() == (StreamData {
                should_handle_request: false,
                ..old(self).data()
            }),
            (*final(self) is Idle) == (*old(self) is Idle),
            (*final(self) is Open) == (*old(self) is Open),
            (*final(self) is Closed) == (*old(self) is Closed),
    {
        match self {
            Stream::Idle(d) => d.should_handle_request = false,
            Stream::Open(d) => d.should_handle_request = false,
            Stream::Closed(d) => d.should_handle_request = false,
        }
    }

    /// Move the assembled request out, leaving none behind.
    pub fn curr_request(&mut self) -> (r: Option<Request>)
        ensures
            r == old(self).data().curr_request,
            final(self).data() == (StreamData {
                curr_request: None::<Request>,
                ..old(self).data()
            }),
            (*final(self) is Idle) == (*old(self) is Idle),
            (*final(self) is Open) == (*old(self) is Open),
            (*final(self) is Closed) == (*old(self) is Closed),
    {
        match self {
            Stream::Idle(d) => d.curr_request.take(),
            Stream::Open(d) => d.curr_request.take(),
            Stream::Closed(d) => d.curr_request.take(),
        }
    }
}

impl Stream {
    /// A fresh stream: idle, no request, empty buffer.
    pub fn new(id: u32) -> (s: Stream)
        ensures
            s is Idle,
            s.data().id == id,
            s.data().curr_request is None,
            s.data().body_buf@ == Seq::<u8>::empty(),
            !s.data().should_handle_request,
    {
        Stream::Idle(
            StreamData { id, curr_request: None, should_handle_request: false, body_buf: Vec::new() },
        )
    }

    /// Feed one frame to the stream, in whatever non-closed state it is.
    pub fn on_frame<'a>(self, decoder: &mut hpack::Decoder<'a>, frame: Frame) -> (r: Result<
        Stream,
        StreamError,
    >)
        requires
            !(self is Closed),
        ensures
            spec_stream_step(self, frame, r),
    {
        match self {
            Stream::Idle(data) => Stream::idle_on_frame_impl(frame, decoder, data),
            Stream::Open(data) => Stream::open_on_frame_impl(frame, data),
            Stream::Closed(data) => {
                proof {
                    assert(false);
                }
                Ok(Stream::Closed(data))
            },
        }
    }

    fn idle_on_frame_impl<'a>(frame: Frame, decoder: &mut hpack::Decoder<'a>, data: StreamData) -> (r:
        Result<Stream, StreamError>)
        ensures
            spec_idle_step(data, frame, r),
    {
        match frame.header.frame_type() {
            FrameType::Headers => {},
            _ => {
                return Ok(Stream::Idle(data));
            },
        }
        if !frame.header.flag_mask().check(HeaderFlag::EndHeaders) {
            return Err(StreamError::UnsupportedContinuation);
        }

        let mut data = data;
        if frame.header.flag_mask().check(HeaderFlag::EndStream) {
            data.should_handle_request = true;
        }

        // hpack's decoder panics, rather than errors, on a malformed
        // dynamic-table size update, so such blocks are refused here with the
        // same fatal error a failed decode gives.
        if !block_safe(&frame.body) {
            return Err(StreamError::HeaderDecodeFailure);
        }
        let decoded = match decode_block(decoder, &frame.body) {
            Ok(hs) => hs,
            Err(_) => {
                return Err(StreamError::HeaderDecodeFailure);
            },
        };
        let ghost decoded_view = spec_headers_view(decoded@);
        let req = match Request::from_h2_headers(decoded) {
            Ok(req) => req,
            Err(_) => {
                return Err(StreamError::InvalidPseudoHeaderValue);
            },
        };
        proof {
            assert(spec_from_h2_headers(decoded_view) == Ok::<ReqModel, Seq<char>>(req@));
        }
        data.curr_request = Some(req);
        Ok(Stream::Open(data))
    }

    fn open_on_frame_impl(frame: Frame, data: StreamData) -> (r: Result<Stream, StreamError>)
        ensures
            spec_open_step(data, frame, r),
    {
        match frame.header.frame_type() {
            FrameType::Data => {},
            _ => {
                return Ok(Stream::Idle(data));
            },
        }

        let StreamData { id, curr_request, mut body_buf, should_handle_request } = data;
        let ghost combined = data.body_buf@ + frame.body@;
        let n = frame.body.len();
        let mut i: usize = 0;
        while i < n
            invariant
                0 <= i <= n,
                n == frame.body@.len(),
                body_buf@ == data.body_buf@ + frame.body@.subrange(0, i as int),
            decreases n - i,
        {
            body_buf.push(frame.body[i]);
            proof {
                assert(frame.body@.subrange(0, i + 1) =~= frame.body@.subrange(0, i as int).push(
                    frame.body@[i as int],
                ));
            }
            i = i + 1;
        }
        proof {
            assert(frame.body@.subrange(0, n as int) =~= frame.body@);
            assert(body_buf@ == combined);
        }

        if frame.header.flag_mask().check(HeaderFlag::EndStream) {
            match curr_request {
                None => Err(StreamError::MissingPriorHeaders),
                Some(mut curr_req) => {
                    if curr_req.len as usize != body_buf.len() {
                        return Err(StreamError::BodyLengthMismatch);
                    }
                    curr_req.set_body(body_buf);
                    proof {
                        assert(curr_req@ =~= (ReqModel {
                            body: combined,
                            ..data.curr_request->Some_0@
                        }));
                    }
                    Ok(
                        Stream::Open(
                            StreamData {
                                id,
                                curr_request: Some(curr_req),
                                body_buf: Vec::new(),
                                should_handle_request: true,
                            },
                        ),
                    )
                },
            }
        } else {
            Ok(Stream::Open(StreamData { id, curr_request, body_buf, should_handle_request }))
        }
    }

    /// Turn a response into the two frames this engine always sends: one
    /// HEADERS frame with `EndHeaders` set carrying the compressed header
    /// block, then one DATA frame with `EndStream` set carrying the whole
    /// body. The header block's bytes are the compression adapter's; every
    /// other field of both frames is pinned here.
    pub fn send<'a>(&mut self, resp: Response, encoder: &mut hpack::Encoder<'a>) -> (r: (Frame, Frame))
        ensures
            *final(self) == *old(self),
            r.0.header.frame_type == FrameType::Headers,
            r.0.header.flag_mask.0 == 0x4,
            r.0.header.stream_identifier == old(self).data().id,
            r.0.header.length == spec_clip32(r.0.body@.len() as int),
            r.1.header.frame_type == FrameType::Data,
            r.1.header.flag_mask.0 == 0x1,
            r.1.header.stream_identifier == old(self).data().id,
            r.1.header.length == spec_clip32(resp.body@.len() as int),
            r.1.body@ == resp.body@,
    {
        let h2headers = resp.h2headers();
        let mut flag_mask = HeaderFlagMask(0);
        flag_mask.add(HeaderFlag::EndHeaders);
        proof {
            assert(0u8 | 0x4u8 == 0x4u8) by (bit_vector);
        }
        let frame_body = encode_block(encoder, &h2headers);
        let frame_header = Header::from_fields(
            clip_len(frame_body.len()),
            FrameType::Headers,
            flag_mask,
            self.id(),
        );
        let headers_frame = Frame::new(frame_header, frame_body);

        let frame_body = resp.body;
        let mut flag_mask = HeaderFlagMask(0);
        flag_mask.add(HeaderFlag::EndStream);
        proof {
            assert(0u8 | 0x1u8 == 0x1u8) by (bit_vector);
        }
        let frame_header = Header::from_fields(
            clip_len(frame_body.len()),
            FrameType::Data,
            flag_mask,
            self.id(),
        );
        let data_frame = Frame::new(frame_header, frame_body);

        (headers_frame, data_frame)
    }
}

} // verus!
