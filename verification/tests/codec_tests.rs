use vqueue::record::{
    decode_body, decode_header, encode_record, ErrorQueue, HeaderError, Mode, MsgType,
    HEADER_SIZE, MAGIC, TAG_OBJECT, TAG_STRING,
};

#[test]
fn display_names_are_stable() {
    assert_eq!(Mode::Read.as_str(), "READ");
    assert_eq!(Mode::ReadWrite.as_str(), "READ_WRITE");
    assert_eq!(Mode::Default.as_str(), "DEFAULT");
    assert_eq!(MsgType::String.as_str(), "STRING");
    assert_eq!(MsgType::Object.as_str(), "OBJECT");
}

#[test]
fn encode_exact_bytes() {
    let rec = encode_record(&b"hello".to_vec(), MsgType::String);
    let mut expected = vec![MAGIC, TAG_STRING];
    expected.extend_from_slice(&[5, 0, 0, 0, 0, 0, 0, 0]);
    expected.extend_from_slice(&[5, 0, 0, 0, 0, 0, 0, 0]);
    expected.extend_from_slice(b"hello");
    assert_eq!(rec, expected);
    assert_eq!(rec.len(), HEADER_SIZE + 5);
}

#[test]
fn encode_object_tag_and_large_length() {
    // 0x1_02 bytes: the length's little-endian bytes span two places.
    let body = vec![9u8; 258];
    let rec = encode_record(&body, MsgType::Object);
    assert_eq!(rec[0], MAGIC);
    assert_eq!(rec[1], TAG_OBJECT);
    assert_eq!(&rec[2..10], &[2, 1, 0, 0, 0, 0, 0, 0]);
    assert_eq!(&rec[10..18], &[2, 1, 0, 0, 0, 0, 0, 0]);
    assert_eq!(&rec[18..], &body[..]);
}

#[test]
fn decode_round_trip() {
    let rec = encode_record(&b"abc".to_vec(), MsgType::Object);
    let h = decode_header(&rec, 0).unwrap();
    assert!(matches!(h.msg_type, MsgType::Object));
    assert_eq!(h.msg_length, 3);
    let body = decode_body(&rec, HEADER_SIZE, h.msg_length).unwrap();
    assert_eq!(body, b"abc".to_vec());
}

#[test]
fn decode_header_distinguishes_absent_from_malformed() {
    // Too few bytes: end of log or a torn tail, not corruption.
    let short = vec![MAGIC, TAG_STRING, 1];
    assert_eq!(decode_header(&short, 0).unwrap_err(), HeaderError::Incomplete);
    assert_eq!(decode_header(&Vec::new(), 0).unwrap_err(), HeaderError::Incomplete);

    // A full header's worth of bytes that is no header: corruption.
    let mut bad_magic = encode_record(&b"x".to_vec(), MsgType::String);
    bad_magic[0] = 0;
    assert_eq!(decode_header(&bad_magic, 0).unwrap_err(), HeaderError::Malformed);

    let mut bad_tag = encode_record(&b"x".to_vec(), MsgType::String);
    bad_tag[1] = 7;
    assert_eq!(decode_header(&bad_tag, 0).unwrap_err(), HeaderError::Malformed);

    let mut bad_copy = encode_record(&b"x".to_vec(), MsgType::String);
    bad_copy[10] ^= 1;
    assert_eq!(decode_header(&bad_copy, 0).unwrap_err(), HeaderError::Malformed);
}

#[test]
fn decode_body_reports_missing_tail() {
    let rec = encode_record(&b"abcdef".to_vec(), MsgType::String);
    let torn = rec[..HEADER_SIZE + 2].to_vec();
    assert!(decode_body(&torn, HEADER_SIZE, 6).is_none());
    assert_eq!(decode_body(&rec, HEADER_SIZE, 6).unwrap(), b"abcdef".to_vec());
}

#[test]
fn error_text_is_stable() {
    assert_eq!(ErrorQueue::NotFound.as_str(), "not found");
    assert_eq!(ErrorQueue::NotReady.as_str(), "not ready");
    assert_eq!(ErrorQueue::NoPendingHeader.as_str(), "no pending header");
    assert_eq!(ErrorQueue::FailReadTailMessage.as_str(), "fail read tail message");
    assert_eq!(ErrorQueue::MalformedRecord.as_str(), "malformed record");
}
