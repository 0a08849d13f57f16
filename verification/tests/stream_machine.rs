use hyperflow::h2::{Frame, FrameType, Header, HeaderFlagMask};
use hyperflow::http::{Method, Response};
use hyperflow::stream::{Stream, StreamData, StreamError};

const END_STREAM: u8 = 0x1;
const END_HEADERS: u8 = 0x4;

fn headers_frame(
    encoder: &mut hpack::Encoder,
    stream_id: u32,
    flags: u8,
    pairs: &[(&str, &str)],
) -> Frame {
    let encodable: Vec<(&[u8], &[u8])> =
        pairs.iter().map(|(k, v)| (k.as_bytes(), v.as_bytes())).collect();
    let block = encoder.encode(encodable);
    let header = Header::from_fields(
        block.len() as u32,
        FrameType::Headers,
        HeaderFlagMask(flags),
        stream_id,
    );
    Frame::new(header, block)
}

fn data_frame(stream_id: u32, flags: u8, body: Vec<u8>) -> Frame {
    let header = Header::from_fields(
        body.len() as u32,
        FrameType::Data,
        HeaderFlagMask(flags),
        stream_id,
    );
    Frame::new(header, body)
}

#[test]
fn headers_with_end_stream_complete_a_bodyless_request() {
    let mut encoder = hpack::Encoder::new();
    let mut decoder = hpack::Decoder::new();
    let frame = headers_frame(
        &mut encoder,
        1,
        END_HEADERS | END_STREAM,
        &[(":method", "GET"), (":scheme", "http"), (":authority", "example.com"), (":path", "/x")],
    );

    let stream = Stream::new(1);
    let mut stream = stream.on_frame(&mut decoder, frame).unwrap();
    assert!(matches!(stream, Stream::Open(_)));
    assert!(stream.should_handle_request());
    let req = stream.curr_request().unwrap();
    assert_eq!(req.method, Method::GET);
    assert_eq!(req.url.to_string(), "http://example.com/x");
    assert!(req.body().is_empty());
    assert!(stream.curr_request().is_none());
}

#[test]
fn body_split_from_headers_is_accumulated_and_attached() {
    let mut encoder = hpack::Encoder::new();
    let mut decoder = hpack::Decoder::new();
    let frame = headers_frame(
        &mut encoder,
        1,
        END_HEADERS,
        &[(":method", "POST"), (":path", "/u"), ("content-length", "5")],
    );
    let stream = Stream::new(1);
    let mut stream = stream.on_frame(&mut decoder, frame).unwrap();
    assert!(matches!(stream, Stream::Open(_)));
    assert!(!stream.should_handle_request());

    stream = stream
        .on_frame(&mut decoder, data_frame(1, 0, vec![1, 2, 3]))
        .unwrap();
    assert!(!stream.should_handle_request());

    let mut stream = stream
        .on_frame(&mut decoder, data_frame(1, END_STREAM, vec![4, 5]))
        .unwrap();
    assert!(stream.should_handle_request());
    let req = stream.curr_request().unwrap();
    assert_eq!(req.len, 5);
    assert_eq!(req.body(), &vec![1, 2, 3, 4, 5]);
}

#[test]
fn body_shorter_than_content_length_fails_attachment() {
    let mut encoder = hpack::Encoder::new();
    let mut decoder = hpack::Decoder::new();
    let frame = headers_frame(
        &mut encoder,
        1,
        END_HEADERS,
        &[(":method", "POST"), ("content-length", "5")],
    );
    let stream = Stream::new(1).on_frame(&mut decoder, frame).unwrap();
    let err = stream
        .on_frame(&mut decoder, data_frame(1, END_STREAM, vec![1, 2, 3]))
        .unwrap_err();
    assert_eq!(err, StreamError::BodyLengthMismatch);
}

#[test]
fn headers_without_end_headers_fail_loudly() {
    let mut encoder = hpack::Encoder::new();
    let mut decoder = hpack::Decoder::new();
    let frame = headers_frame(&mut encoder, 1, 0, &[(":method", "GET")]);
    let err = Stream::new(1).on_frame(&mut decoder, frame).unwrap_err();
    assert_eq!(err, StreamError::UnsupportedContinuation);
}

#[test]
fn idle_stream_ignores_frames_other_than_headers() {
    let mut decoder = hpack::Decoder::new();
    let ping = Frame::new(
        Header::from_fields(0, FrameType::Ping, HeaderFlagMask(0), 1),
        Vec::new(),
    );
    let stream = Stream::new(1).on_frame(&mut decoder, ping).unwrap();
    assert!(matches!(stream, Stream::Idle(_)));
    assert!(!stream.should_handle_request());
}

#[test]
fn open_stream_reverts_to_idle_on_frames_other_than_data() {
    let mut decoder = hpack::Decoder::new();
    let stream = Stream::Open(StreamData {
        id: 1,
        curr_request: None,
        body_buf: Vec::new(),
        should_handle_request: false,
    });
    let ping = Frame::new(
        Header::from_fields(0, FrameType::Ping, HeaderFlagMask(0), 1),
        Vec::new(),
    );
    let stream = stream.on_frame(&mut decoder, ping).unwrap();
    assert!(matches!(stream, Stream::Idle(_)));
}

#[test]
fn data_ending_a_stream_without_a_request_is_fatal() {
    let mut decoder = hpack::Decoder::new();
    let stream = Stream::Open(StreamData {
        id: 1,
        curr_request: None,
        body_buf: Vec::new(),
        should_handle_request: false,
    });
    let err = stream
        .on_frame(&mut decoder, data_frame(1, END_STREAM, vec![1]))
        .unwrap_err();
    assert_eq!(err, StreamError::MissingPriorHeaders);
}

#[test]
fn bad_method_in_headers_is_fatal() {
    let mut encoder = hpack::Encoder::new();
    let mut decoder = hpack::Decoder::new();
    let frame = headers_frame(&mut encoder, 1, END_HEADERS, &[(":method", "FETCH")]);
    let err = Stream::new(1).on_frame(&mut decoder, frame).unwrap_err();
    assert_eq!(err, StreamError::InvalidPseudoHeaderValue);
}

#[test]
fn garbage_header_block_is_a_decode_failure() {
    let mut decoder = hpack::Decoder::new();
    let frame = Frame::new(
        Header::from_fields(1, FrameType::Headers, HeaderFlagMask(END_HEADERS), 1),
        vec![0x80],
    );
    let err = Stream::new(1).on_frame(&mut decoder, frame).unwrap_err();
    assert_eq!(err, StreamError::HeaderDecodeFailure);
}

#[test]
fn send_produces_a_headers_frame_then_a_data_frame() {
    let mut encoder = hpack::Encoder::new();
    let mut stream = Stream::new(3);
    let resp = Response { status: 200, headers: Vec::new(), body: vec![b'h', b'i'] };
    let (hf, df) = stream.send(resp, &mut encoder);

    assert_eq!(hf.header.frame_type().val(), 1);
    assert_eq!(hf.header.flag_mask().0, END_HEADERS);
    assert_eq!(hf.header.stream_identifier(), 3);
    assert_eq!(hf.header.length() as usize, hf.body.len());

    let mut peer = hpack::Decoder::new();
    let decoded = peer.decode(&hf.body).unwrap();
    assert!(decoded.contains(&(b":status".to_vec(), b"200".to_vec())));
    assert!(decoded.contains(&(b"content-length".to_vec(), b"2".to_vec())));

    assert_eq!(df.header.frame_type().val(), 0);
    assert_eq!(df.header.flag_mask().0, END_STREAM);
    assert_eq!(df.header.stream_identifier(), 3);
    assert_eq!(df.header.length(), 2);
    assert_eq!(df.body, vec![b'h', b'i']);
}

#[test]
fn truncated_size_update_is_a_decode_failure_not_a_crash() {
    let mut decoder = hpack::Decoder::new();
    let frame = Frame::new(
        Header::from_fields(1, FrameType::Headers, HeaderFlagMask(END_HEADERS), 1),
        vec![0x3F],
    );
    let err = Stream::new(1).on_frame(&mut decoder, frame).unwrap_err();
    assert_eq!(err, StreamError::HeaderDecodeFailure);
}

#[test]
fn overlong_size_update_is_a_decode_failure_not_a_crash() {
    let mut decoder = hpack::Decoder::new();
    let frame = Frame::new(
        Header::from_fields(5, FrameType::Headers, HeaderFlagMask(END_HEADERS), 1),
        vec![0x3F, 0xFF, 0xFF, 0xFF, 0xFF],
    );
    let err = Stream::new(1).on_frame(&mut decoder, frame).unwrap_err();
    assert_eq!(err, StreamError::HeaderDecodeFailure);
}

#[test]
fn well_formed_size_updates_still_decode() {
    let mut decoder = hpack::Decoder::new();
    let frame = Frame::new(
        Header::from_fields(1, FrameType::Headers, HeaderFlagMask(END_HEADERS | END_STREAM), 1),
        vec![0x20],
    );
    let mut stream = Stream::new(1).on_frame(&mut decoder, frame).unwrap();
    assert!(stream.should_handle_request());
    let req = stream.curr_request().unwrap();
    assert_eq!(req.method, Method::GET);

    let mut decoder = hpack::Decoder::new();
    let frame = Frame::new(
        Header::from_fields(2, FrameType::Headers, HeaderFlagMask(END_HEADERS | END_STREAM), 3),
        vec![0x3F, 0x01],
    );
    assert!(Stream::new(3).on_frame(&mut decoder, frame).is_ok());
}

#[test]
fn size_update_before_real_headers_is_skipped_cleanly() {
    let mut encoder = hpack::Encoder::new();
    let mut decoder = hpack::Decoder::new();
    let pairs: Vec<(&[u8], &[u8])> =
        vec![(b":method".as_ref(), b"GET".as_ref()), (b":path".as_ref(), b"/s".as_ref())];
    let mut body = vec![0x20];
    body.extend(encoder.encode(pairs));
    let frame = Frame::new(
        Header::from_fields(
            body.len() as u32,
            FrameType::Headers,
            HeaderFlagMask(END_HEADERS | END_STREAM),
            1,
        ),
        body,
    );
    let mut stream = Stream::new(1).on_frame(&mut decoder, frame).unwrap();
    let req = stream.curr_request().unwrap();
    assert_eq!(req.method, Method::GET);
    assert_eq!(req.url.path, "/s");
}
