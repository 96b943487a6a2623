use bytes::BytesMut;
use columnar::error::EncError;
use columnar::ipc::framing::{admit_header, decode_prefix, END_OF_STREAM};
use columnar::ipc::message_reader::{read_messages, take_frame, MonoIoMessageReader};
use flatbuffers::FlatBufferBuilder;

fn header(marker: u32) -> Vec<u8> {
    let mut builder = FlatBufferBuilder::new();
    let start = builder.start_table();
    builder.push_slot_always::<u32>(4, marker);
    let table = builder.end_table(start);
    builder.finish_minimal(table);
    builder.finished_data().to_vec()
}

fn frame(header: &[u8]) -> Vec<u8> {
    let mut bytes = (header.len() as u32).to_le_bytes().to_vec();
    bytes.extend_from_slice(header);
    bytes
}

fn sentinel() -> Vec<u8> {
    vec![0xff, 0xff, 0xff, 0xff]
}

fn stream(headers: &[Vec<u8>]) -> Vec<u8> {
    let mut bytes = Vec::new();
    for h in headers {
        bytes.extend_from_slice(&frame(h));
    }
    bytes.extend_from_slice(&sentinel());
    bytes
}

fn buffer(bytes: &[u8]) -> BytesMut {
    BytesMut::from(bytes)
}

#[test]
fn prefix_is_little_endian() {
    assert_eq!(decode_prefix(&[1, 0, 0, 0]).unwrap(), Some(1));
    assert_eq!(decode_prefix(&[0, 1, 0, 0]).unwrap(), Some(256));
    assert_eq!(decode_prefix(&[0x78, 0x56, 0x34, 0x12]).unwrap(), Some(0x12345678));
    assert_eq!(decode_prefix(&[0, 0, 0, 0]).unwrap(), Some(0));
    assert_eq!(decode_prefix(&[0xfe, 0xff, 0xff, 0xff]).unwrap(), Some(0xffff_fffe));
    assert_eq!(decode_prefix(&300u32.to_le_bytes()).unwrap(), Some(300));
}

#[test]
fn all_ones_prefix_ends_the_stream() {
    assert_eq!(decode_prefix(&[0xff, 0xff, 0xff, 0xff]).unwrap(), None);
    assert_eq!(decode_prefix(&END_OF_STREAM.to_le_bytes()).unwrap(), None);
}

#[test]
fn prefix_of_another_size_is_refused() {
    assert_eq!(decode_prefix(&[]).unwrap_err(), EncError::MalformedPrefix);
    assert_eq!(decode_prefix(&[1, 2, 3]).unwrap_err(), EncError::MalformedPrefix);
    assert_eq!(decode_prefix(&[1, 2, 3, 4, 5]).unwrap_err(), EncError::MalformedPrefix);
}

#[test]
fn header_is_admitted_by_size_and_form() {
    assert_eq!(admit_header(12, 12, true), Ok(()));
    assert_eq!(admit_header(12, 11, true), Err(EncError::TruncatedHeader));
    assert_eq!(admit_header(12, 11, false), Err(EncError::TruncatedHeader));
    assert_eq!(admit_header(12, 12, false), Err(EncError::MalformedHeader));
    assert_eq!(admit_header(0, 0, false), Err(EncError::MalformedHeader));
}

#[test]
fn sentinel_only_stream_finishes_at_once() {
    let reader = MonoIoMessageReader::try_new(&sentinel(), BytesMut::new()).unwrap();
    assert!(reader.peek().is_none());
    assert!(reader.is_finished());
    assert_eq!(read_messages(&sentinel()).unwrap(), Vec::<Vec<u8>>::new());
}

#[test]
fn two_headers_then_sentinel() {
    let h1 = header(1);
    let h2 = header(2);
    assert_ne!(h1, h2);
    let prefix1 = (h1.len() as u32).to_le_bytes();
    let prefix2 = (h2.len() as u32).to_le_bytes();
    let mut reader = MonoIoMessageReader::try_new(&prefix1, buffer(&h1)).unwrap();
    assert_eq!(reader.peek(), Some(h1.as_slice()));
    assert_eq!(reader.peek(), Some(h1.as_slice()));
    let first = reader.next(&prefix2, buffer(&h2)).unwrap();
    assert_eq!(first, h1);
    assert_eq!(reader.peek(), Some(h2.as_slice()));
    assert!(!reader.is_finished());
    let second = reader.next(&sentinel(), BytesMut::new()).unwrap();
    assert_eq!(second, h2);
    assert!(reader.peek().is_none());
    assert!(reader.is_finished());
}

#[test]
fn next_raw_passes_the_bytes_on() {
    let h1 = header(7);
    let h2 = header(8);
    let prefix1 = (h1.len() as u32).to_le_bytes();
    let prefix2 = (h2.len() as u32).to_le_bytes();
    let mut reader = MonoIoMessageReader::try_new(&prefix1, buffer(&h1)).unwrap();
    let raw = reader.next_raw(&prefix2, buffer(&h2)).unwrap();
    assert_eq!(raw.as_ref(), h1.as_slice());
    assert_eq!(reader.peek(), Some(h2.as_slice()));
    let raw = reader.next_raw(&sentinel(), BytesMut::new()).unwrap();
    assert_eq!(raw.as_ref(), h2.as_slice());
    assert!(reader.peek().is_none());
}

#[test]
fn load_next_message_says_whether_a_header_is_pending() {
    let h1 = header(1);
    let prefix1 = (h1.len() as u32).to_le_bytes();
    let mut reader = MonoIoMessageReader::try_new(&sentinel(), BytesMut::new()).unwrap();
    assert_eq!(reader.load_next_message(&prefix1, buffer(&h1)), Ok(true));
    assert_eq!(reader.peek(), Some(h1.as_slice()));
    assert_eq!(reader.load_next_message(&sentinel(), BytesMut::new()), Ok(false));
    assert!(reader.peek().is_none());
}

#[test]
fn malformed_header_is_refused() {
    let garbage = vec![0xffu8; 16];
    let prefix = (garbage.len() as u32).to_le_bytes();
    assert_eq!(
        MonoIoMessageReader::try_new(&prefix, buffer(&garbage)).err(),
        Some(EncError::MalformedHeader)
    );
    let empty: Vec<u8> = vec![];
    assert_eq!(
        MonoIoMessageReader::try_new(&[0, 0, 0, 0], buffer(&empty)).err(),
        Some(EncError::MalformedHeader)
    );
    let short = vec![1u8, 2];
    assert_eq!(
        MonoIoMessageReader::try_new(&[2, 0, 0, 0], buffer(&short)).err(),
        Some(EncError::MalformedHeader)
    );
}

#[test]
fn payload_of_another_size_is_refused() {
    let h1 = header(1);
    let prefix = ((h1.len() + 1) as u32).to_le_bytes();
    assert_eq!(
        MonoIoMessageReader::try_new(&prefix, buffer(&h1)).err(),
        Some(EncError::TruncatedHeader)
    );
    assert_eq!(
        MonoIoMessageReader::try_new(&[1, 2, 3], buffer(&h1)).err(),
        Some(EncError::MalformedPrefix)
    );
}

#[test]
fn failed_load_finishes_the_channel() {
    let h1 = header(1);
    let prefix1 = (h1.len() as u32).to_le_bytes();
    let garbage = vec![0xffu8; 8];
    let mut reader = MonoIoMessageReader::try_new(&prefix1, buffer(&h1)).unwrap();
    assert_eq!(
        reader.next(&[8, 0, 0, 0], buffer(&garbage)).unwrap_err(),
        EncError::MalformedHeader
    );
    assert!(reader.peek().is_none());
    assert!(reader.is_finished());
}

#[test]
fn stream_in_memory_is_enumerated() {
    let headers = vec![header(1), header(2), header(3)];
    assert_eq!(read_messages(&stream(&headers)).unwrap(), headers);
    let mut with_trailing = stream(&headers[..1]);
    with_trailing.extend_from_slice(&[1, 2, 3]);
    assert_eq!(read_messages(&with_trailing).unwrap(), headers[..1].to_vec());
}

#[test]
fn stream_that_ends_inside_a_frame() {
    let h1 = header(1);
    let mut bytes = frame(&h1);
    assert_eq!(read_messages(&bytes).unwrap_err(), EncError::UnexpectedEof);
    bytes.extend_from_slice(&[0xff, 0xff]);
    assert_eq!(read_messages(&bytes).unwrap_err(), EncError::UnexpectedEof);
    assert_eq!(read_messages(&[]).unwrap_err(), EncError::UnexpectedEof);
    let cut = &frame(&h1)[..6];
    assert_eq!(read_messages(cut).unwrap_err(), EncError::UnexpectedEof);
    let mut bad = frame(&[0xffu8; 8]);
    bad.extend_from_slice(&sentinel());
    assert_eq!(read_messages(&bad).unwrap_err(), EncError::MalformedHeader);
}

#[test]
fn frames_are_taken_in_order() {
    let h1 = header(1);
    let bytes = stream(&[h1.clone()]);
    let (prefix, payload, next) = take_frame(&bytes, 0).unwrap();
    assert_eq!(prefix, &(h1.len() as u32).to_le_bytes()[..]);
    assert_eq!(payload, h1.as_slice());
    assert_eq!(next, 4 + h1.len());
    let (prefix, payload, end) = take_frame(&bytes, next).unwrap();
    assert_eq!(prefix, &[0xff, 0xff, 0xff, 0xff][..]);
    assert!(payload.is_empty());
    assert_eq!(end, bytes.len());
    assert_eq!(take_frame(&bytes, end).unwrap_err(), EncError::UnexpectedEof);
}
