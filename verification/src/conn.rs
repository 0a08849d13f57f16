use std::collections::HashMap;

use vstd::prelude::*;

use crate::h2::Frame;
use crate::h2::FrameType;
use crate::h2::Header;
use crate::h2::HeaderFlagMask;
use crate::h2::spec_clip32;
use crate::hpack_adapter::new_decoder;
use crate::hpack_adapter::new_encoder;
use crate::http::Request;
use crate::http::Response;
use crate::stream::Stream;
use crate::stream::StreamData;
use crate::stream::StreamError;
use crate::stream::spec_stream_step;

verus! {

broadcast use vstd::std_specs::hash::group_hash_axioms;

/// Why a connection could not be established or a frame not be read.
#[derive(Clone, Copy, Debug, PartialEq, Eq, Structural)]
pub enum ConnError {
    /// Fewer preface bytes than the 24 the protocol requires.
    Incomplete,
    /// Preface bytes that are not the exact expected sequence.
    BadPreface,
    /// A frame body shorter or longer than its header announces.
    Eof,
}

/// The 24 bytes every client must send first:
/// `PRI * HTTP/2.0\r\n\r\nSM\r\n\r\n` in ASCII.
pub open spec fn spec_preface() -> Seq<u8> {
    seq![
        80u8, 82, 73, 32, 42, 32, 72, 84, 84, 80, 47, 50, 46, 48, 13, 10, 13, 10, 83, 77, 13, 10,
        13, 10,
    ]
}

fn preface_byte(i: usize) -> (r: u8)
    requires
        i < 24,
    ensures
        r == spec_preface()[i as int],
{
    match i {
        0 => 80,
        1 => 82,
        2 => 73,
        3 => 32,
        4 => 42,
        5 => 32,
        6 => 72,
        7 => 84,
        8 => 84,
        9 => 80,
        10 => 47,
        11 => 50,
        12 => 46,
        13 => 48,
        14 => 13,
        15 => 10,
        16 => 13,
        17 => 10,
        18 => 83,
        19 => 77,
        20 => 13,
        21 => 10,
        22 => 13,
        _ => 10,
    }
}

/// Validate a client's connection preface and produce the server's answer to
/// it: one empty SETTINGS frame on stream 0. Fails with `Incomplete` on a
/// short or long read and `BadPreface` on any other deviation from the
/// expected 24 bytes.
pub fn establish(preface: &[u8]) -> (r: Result<Frame, ConnError>)
    ensures
        r is Ok <==> preface@ == spec_preface(),
        preface@.len() != 24 ==> r == Err::<Frame, ConnError>(ConnError::Incomplete),
        preface@.len() == 24 && preface@ != spec_preface() ==> r == Err::<Frame, ConnError>(
            ConnError::BadPreface,
        ),
        r is Ok ==> r->Ok_0.header == (Header {
            length: 0,
            frame_type: FrameType::Settings,
            flag_mask: HeaderFlagMask(0),
            stream_identifier: 0,
        }) && r->Ok_0.body@ == Seq::<u8>::empty(),
{
    if preface.len() != 24 {
        return Err(ConnError::Incomplete);
    }
    let mut i: usize = 0;
    while i < 24
        invariant
            0 <= i <= 24,
            preface@.len() == 24,
            forall|j: int| 0 <= j < i ==> preface@[j] == spec_preface()[j],
        decreases 24 - i,
    {
        if preface[i] != preface_byte(i) {
            return Err(ConnError::BadPreface);
        }
        i = i + 1;
    }
    proof {
        assert(preface@ =~= spec_preface());
    }

    let fheader = Header::from_fields(0, FrameType::Settings, HeaderFlagMask(0), 0);
    let fbody = Vec::new();
    Ok(Frame::new(fheader, fbody))
}

/// Assemble the frame whose header was already decoded and whose body bytes
/// were read. Fails exactly when the body's length is not what the header
/// announces, so every frame this returns satisfies the frame invariant.
pub fn parse_frame(header: Header, body: Vec<u8>) -> (r: Result<Frame, ConnError>)
    ensures
        r is Ok <==> body@.len() == header.length,
        r is Ok ==> r->Ok_0.header == header && r->Ok_0.body == body && r->Ok_0.body@.len()
            == r->Ok_0.header.length,
        r is Err ==> r == Err::<Frame, ConnError>(ConnError::Eof),
{
    if body.len() != header.length() as usize {
        return Err(ConnError::Eof);
    }
    Ok(Frame::new(header, body))
}

/// `s` with its assembled request moved out.
pub open spec fn spec_take_request(s: Stream) -> Stream {
    match s {
        Stream::Idle(d) => Stream::Idle(StreamData { curr_request: None, ..d }),
        Stream::Open(d) => Stream::Open(StreamData { curr_request: None, ..d }),
        Stream::Closed(d) => Stream::Closed(StreamData { curr_request: None, ..d }),
    }
}

/// `s` with its request-ready flag cleared.
pub open spec fn spec_mark_handled(s: Stream) -> Stream {
    match s {
        Stream::Idle(d) => Stream::Idle(StreamData { should_handle_request: false, ..d }),
        Stream::Open(d) => Stream::Open(StreamData { should_handle_request: false, ..d }),
        Stream::Closed(d) => Stream::Closed(StreamData { should_handle_request: false, ..d }),
    }
}

/// A stream as `Stream::new` makes it.
pub open spec fn spec_fresh_stream(s: Stream, id: u32) -> bool {
    &&& s is Idle
    &&& s.data().id == id
    &&& s.data().curr_request is None
    &&& s.data().body_buf@ == Seq::<u8>::empty()
    &&& !s.data().should_handle_request
}

/// One connection's state between frames: every stream seen so far, and the
/// compression adapter's connection-scoped encoder and decoder.
pub struct Connection {
    pub streams: HashMap<u32, Stream>,
    pub encoder: hpack::Encoder<'static>,
    pub decoder: hpack::Decoder<'static>,
}

impl Connection {
    /// Every stream in the table sits under its own id and is never closed,
    /// since no transition produces a closed stream.
    pub open spec fn wf(self) -> bool {
        forall|id: u32| #[trigger]
            self.streams@.contains_key(id) ==> !(self.streams@[id] is Closed)
                && self.streams@[id].data().id == id
    }

    /// The stream the next frame for `id` would be handed to: the one in the
    /// table, or a fresh one.
    pub open spec fn spec_prior_stream(self, id: u32, s: Stream) -> bool {
        if self.streams@.contains_key(id) {
            s == self.streams@[id]
        } else {
            spec_fresh_stream(s, id)
        }
    }

    pub fn new() -> (c: Connection)
        ensures
            c.wf(),
            c.streams@ == Map::<u32, Stream>::empty(),
    {
        Connection { streams: HashMap::new(), encoder: new_encoder(), decoder: new_decoder() }
    }

    /// Route one frame. Frames on stream 0 are connection-level and are
    /// dropped. Any other frame goes to its stream, created on first sight;
    /// the stream's step is `spec_stream_step`. If the stream then holds a
    /// finished request, it is moved out and returned with its stream id, for
    /// the caller to hand to the application; a stream error is fatal and
    /// leaves that stream out of the table.
    pub fn handle_frame(&mut self, frame: Frame) -> (r: Result<Option<(u32, Request)>, StreamError>)
        requires
            old(self).wf(),
        ensures
            final(self).wf(),
            frame.header.stream_identifier == 0 ==> r == Ok::<Option<(u32, Request)>, StreamError>(
                None,
            ) && *final(self) == *old(self),
            frame.header.stream_identifier != 0 && r is Ok ==> (exists|s0: Stream, s1: Stream|
                {
                    let sid = frame.header.stream_identifier;
                    let ready = s1.data().should_handle_request && s1.data().curr_request is Some;
                    &&& old(self).spec_prior_stream(sid, s0)
                    &&& #[trigger] spec_stream_step(s0, frame, Ok(s1))
                    &&& if ready {
                        r == Ok::<Option<(u32, Request)>, StreamError>(
                            Some((sid, s1.data().curr_request->Some_0)),
                        ) && final(self).streams@ == old(self).streams@.insert(
                            sid,
                            spec_take_request(s1),
                        )
                    } else {
                        r == Ok::<Option<(u32, Request)>, StreamError>(None)
                            && final(self).streams@ == old(self).streams@.insert(sid, s1)
                    }
                }),
            frame.header.stream_identifier != 0 && r is Err ==> (exists|s0: Stream, e: StreamError|
                {
                    let sid = frame.header.stream_identifier;
                    &&& old(self).spec_prior_stream(sid, s0)
                    &&& #[trigger] spec_stream_step(s0, frame, Err(e))
                    &&& r == Err::<Option<(u32, Request)>, StreamError>(e)
                    &&& final(self).streams@ == old(self).streams@.remove(sid)
                }),
    {
        let sid = frame.header.stream_identifier();
        if sid == 0 {
            return Ok(None);
        }

        let s0 = match self.streams.remove(&sid) {
            Some(s) => s,
            None => Stream::new(sid),
        };
        let ghost g_s0 = s0;

        let s1 = match s0.on_frame(&mut self.decoder, frame) {
            Ok(s) => s,
            Err(e) => {
                proof {
                    assert(spec_stream_step(g_s0, frame, Err::<Stream, StreamError>(e)));
                    assert(old(self).spec_prior_stream(sid, g_s0));
                }
                return Err(e);
            },
        };
        let ghost g_s1 = s1;
        proof {
            assert(!(g_s1 is Closed));
            assert(g_s1.data().id == sid);
        }

        let mut s1 = s1;
        if s1.should_handle_request() {
            if let Some(req) = s1.curr_request() {
                self.streams.insert(sid, s1);
                return Ok(Some((sid, req)));
            }
        }
        self.streams.insert(sid, s1);
        Ok(None)
    }

    /// Serialize a response onto the given stream: the two frames of
    /// `Stream::send`, with the stream's ready flag cleared. Returns nothing
    /// if no such stream exists.
    pub fn send_response(&mut self, stream_id: u32, resp: Response) -> (r: Option<(Frame, Frame)>)
        requires
            old(self).wf(),
        ensures
            final(self).wf(),
            r is Some <==> old(self).streams@.contains_key(stream_id),
            r is None ==> *final(self) == *old(self),
            r is Some ==> {
                let (hf, df) = r->Some_0;
                &&& final(self).streams@ == old(self).streams@.insert(
                    stream_id,
                    spec_mark_handled(old(self).streams@[stream_id]),
                )
                &&& hf.header.frame_type == FrameType::Headers
                &&& hf.header.flag_mask.0 == 0x4
                &&& hf.header.stream_identifier == stream_id
                &&& hf.header.length == spec_clip32(hf.body@.len() as int)
                &&& df.header.frame_type == FrameType::Data
                &&& df.header.flag_mask.0 == 0x1
                &&& df.header.stream_identifier == stream_id
                &&& df.header.length == spec_clip32(resp.body@.len() as int)
                &&& df.body@ == resp.body@
            },
    {
        if !self.streams.contains_key(&stream_id) {
            return None;
        }
        match self.streams.remove(&stream_id) {
            None => {
                proof {
                    assert(false);
                }
                None
            },
            Some(mut s) => {
                let frames = s.send(resp, &mut self.encoder);
                s.set_request_handled();
                self.streams.insert(stream_id, s);
                proof {
                    assert(self.streams@ =~= old(self).streams@.insert(
                        stream_id,
                        spec_mark_handled(old(self).streams@[stream_id]),
                    ));
                }
                Some(frames)
            },
        }
    }
}

} // verus!
