//! Frames on the wire.

use plan_ai_core::framing::{
    read_binary_body, read_lp_json, read_tagged_frame, take_frame, write_binary, write_end,
    write_json, write_lp_json, write_tagged, BodyStep, Decoded, Decoder, FaultKind, FrameError,
    Reader, TaggedFrame, CHUNK_SIZE, MAX_FRAME_SIZE, TAG_BINARY, TAG_END, TAG_JSON,
};
use plan_ai_core::json::{parse, print, Json};

/// Counts the tagged frames in a written buffer.
fn frame_count(mut buf: &[u8]) -> usize {
    let mut n = 0;
    while !buf.is_empty() {
        n += 1;
        if buf[0] == TAG_END {
            buf = &buf[1..];
            continue;
        }
        let len = u32::from_be_bytes(buf[1..5].try_into().unwrap()) as usize;
        buf = &buf[5 + len..];
    }
    n
}

fn json(text: &str) -> Json {
    parse(text.as_bytes()).unwrap()
}

#[test]
fn large_binary_is_split_into_chunk_sized_frames() {
    let payload = vec![7u8; CHUNK_SIZE * 2 + 512];
    let mut buf = Vec::new();
    write_binary(&mut buf, &payload).unwrap();
    write_end(&mut buf).unwrap();

    // 3 binary frames + end marker, none over the wire limit.
    assert_eq!(frame_count(&buf), 4);
    assert_eq!(
        u32::from_be_bytes(buf[1..5].try_into().unwrap()) as usize,
        CHUNK_SIZE
    );

    // Reassembles to exactly the bytes that were written.
    let mut reader = Reader::new(buf);
    let body = read_binary_body(&mut reader, usize::MAX).unwrap();
    assert_eq!(body, payload);
    assert_eq!(reader.remaining(), 0);
}

#[test]
fn empty_binary_still_writes_one_frame() {
    let mut buf = Vec::new();
    write_binary(&mut buf, &[]).unwrap();
    assert_eq!(frame_count(&buf), 1);
}

#[test]
fn read_binary_body_rejects_over_limit() {
    let mut buf = Vec::new();
    write_binary(&mut buf, &vec![0u8; 4096]).unwrap();
    write_end(&mut buf).unwrap();

    let mut reader = Reader::new(buf);
    let err = read_binary_body(&mut reader, 1024).unwrap_err();
    assert_eq!(err.kind(), FaultKind::InvalidData);
    assert_eq!(err.message(), "body too large: over 1024 bytes");
}

#[test]
fn oversized_json_frame_errors_instead_of_writing() {
    // A string long enough that the serialized JSON exceeds the limit.
    let huge = Json::String("x".repeat(MAX_FRAME_SIZE as usize + 1));
    let mut buf = Vec::new();
    assert!(write_json(&mut buf, &huge).is_err());
    assert!(write_lp_json(&mut buf, &huge).is_err());
    assert!(buf.is_empty());
}

#[test]
fn oversized_write_names_the_length() {
    let mut buf = vec![1, 2];
    let err = write_tagged(&mut buf, TAG_BINARY, &vec![0u8; MAX_FRAME_SIZE as usize + 1])
        .unwrap_err();
    assert_eq!(err.message(), "frame too large: 16777217 bytes");
    assert_eq!(buf, vec![1, 2]);
}

#[test]
fn json_frame_reads_back() {
    let val = json(r#"{"b":[1,-2,null,true],"a":{"x":"ä\n"}}"#);
    let mut buf = Vec::new();
    write_json(&mut buf, &val).unwrap();
    buf.push(9);
    assert_eq!(buf[0], TAG_JSON);
    let mut reader = Reader::new(buf);
    match read_tagged_frame(&mut reader).unwrap() {
        Some(TaggedFrame::Json(v)) => assert_eq!(print(&v), print(&val)),
        _ => panic!("no JSON frame"),
    }
    assert_eq!(reader.remaining(), 1);

    let mut buf = Vec::new();
    write_lp_json(&mut buf, &val).unwrap();
    let mut reader = Reader::new(buf);
    assert_eq!(print(&read_lp_json(&mut reader).unwrap()), print(&val));
}

#[test]
fn wire_bytes_are_exact() {
    let mut buf = Vec::new();
    write_tagged(&mut buf, TAG_BINARY, &[0xaa, 0xbb]).unwrap();
    write_end(&mut buf).unwrap();
    assert_eq!(buf, vec![0x02, 0, 0, 0, 2, 0xaa, 0xbb, 0x03]);

    let mut buf = Vec::new();
    write_lp_json(&mut buf, &json("[1]")).unwrap();
    assert_eq!(buf, vec![0, 0, 0, 3, b'[', b'1', b']']);
}

#[test]
fn end_of_stream_between_frames_is_no_error() {
    let mut reader = Reader::new(Vec::new());
    assert!(read_tagged_frame(&mut reader).unwrap().is_none());
    assert_eq!(read_binary_body(&mut reader, 0).unwrap(), Vec::<u8>::new());
}

#[test]
fn end_of_stream_within_a_frame_is_one() {
    for bytes in [vec![TAG_BINARY], vec![TAG_BINARY, 0, 0, 0], vec![TAG_BINARY, 0, 0, 0, 2, 1]] {
        let mut reader = Reader::new(bytes);
        let err = read_tagged_frame(&mut reader).unwrap_err();
        assert_eq!(err.kind(), FaultKind::UnexpectedEof);
        assert_eq!(reader.remaining(), 0);
    }
    let err = read_lp_json(&mut Reader::new(vec![0, 0])).unwrap_err();
    assert_eq!(err.kind(), FaultKind::UnexpectedEof);
}

#[test]
fn faulty_frames_are_refused() {
    let err = read_tagged_frame(&mut Reader::new(vec![0x0a, 1])).unwrap_err();
    assert_eq!(err.kind(), FaultKind::InvalidData);
    assert_eq!(err.message(), "unknown frame tag: 0x0a");

    let err = read_tagged_frame(&mut Reader::new(vec![TAG_BINARY, 1, 0, 0, 1])).unwrap_err();
    assert_eq!(err.message(), "frame too large: 16777217 bytes");

    let err = read_lp_json(&mut Reader::new(vec![0xff, 0xff, 0xff, 0xff])).unwrap_err();
    assert_eq!(err.message(), "frame too large: 4294967295 bytes");

    let err = read_tagged_frame(&mut Reader::new(vec![TAG_JSON, 0, 0, 0, 1, b'{'])).unwrap_err();
    assert_eq!(err.kind(), FaultKind::InvalidData);
    assert!(err.message().starts_with("EOF while parsing"));
    assert!(matches!(err, FrameError::InvalidJson(_)));
}

#[test]
fn json_frame_ends_a_body() {
    let mut buf = Vec::new();
    write_tagged(&mut buf, TAG_BINARY, &[1, 2]).unwrap();
    write_tagged(&mut buf, TAG_BINARY, &[3]).unwrap();
    write_json(&mut buf, &json("{}")).unwrap();
    write_end(&mut buf).unwrap();
    let mut reader = Reader::new(buf);
    assert_eq!(read_binary_body(&mut reader, 3).unwrap(), vec![1, 2, 3]);
    assert_eq!(reader.remaining(), 1);
}

#[test]
fn splitting_does_not_show() {
    let data: Vec<u8> = (0..=255).collect();
    for size in [1, 7, 100, 256] {
        let mut buf = Vec::new();
        for part in data.chunks(size) {
            write_tagged(&mut buf, TAG_BINARY, part).unwrap();
        }
        write_end(&mut buf).unwrap();
        assert_eq!(read_binary_body(&mut Reader::new(buf), 256).unwrap(), data);
    }
}

#[test]
fn decoder_asks_for_what_it_needs() {
    let d = Decoder::Tag;
    assert_eq!(d.need(), 1);
    assert!(d.may_end());
    let d = match d.advance(vec![TAG_BINARY]).unwrap() {
        Decoded::More(d) => d,
        Decoded::Frame(_) => panic!("no frame yet"),
    };
    assert_eq!(d.need(), 4);
    assert!(!d.may_end());
    let d = match d.advance(vec![0, 0, 1, 2]).unwrap() {
        Decoded::More(d) => d,
        Decoded::Frame(_) => panic!("no frame yet"),
    };
    assert_eq!(d.need(), 258);
    match d.advance(vec![5; 258]).unwrap() {
        Decoded::Frame(TaggedFrame::Binary(data)) => assert_eq!(data, vec![5; 258]),
        _ => panic!("no binary frame"),
    }
}

#[test]
fn frames_go_into_a_body() {
    match take_frame(vec![1], Some(TaggedFrame::Binary(vec![2])), 2) {
        BodyStep::More(body) => assert_eq!(body, vec![1, 2]),
        _ => panic!("the body goes on"),
    }
    match take_frame(vec![1], None, 0) {
        BodyStep::Done(body) => assert_eq!(body, vec![1]),
        _ => panic!("the body is over"),
    }
    assert!(matches!(
        take_frame(vec![1], Some(TaggedFrame::Binary(vec![2])), 1),
        BodyStep::Fail(FrameError::BodyTooLarge(1))
    ));
}
