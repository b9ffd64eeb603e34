use zserial::link::crc::compute_crc32;
use zserial::link::serial::{deserialize_from, encode_frame};
use zserial::link::stuffing::{cobs_stuff_exec, cobs_unstuff_exec};
use zserial::link::LinkError;

fn strip_terminator(frame: &[u8]) -> &[u8] {
    assert_eq!(*frame.last().unwrap(), 0u8);
    &frame[..frame.len() - 1]
}

#[test]
fn crc32_of_empty_is_zero() {
    assert_eq!(compute_crc32(&[]), 0);
}

#[test]
fn crc32_known_value() {
    // the classic check value for the reflected IEEE polynomial
    assert_eq!(compute_crc32(b"123456789"), 0xCBF43926);
}

#[test]
fn empty_payload_frame() {
    let frame = encode_frame(0x00, &[]).unwrap();
    assert_eq!(*frame.last().unwrap(), 0u8);
    // region is seven zero bytes: header, two length bytes, four CRC bytes
    assert_eq!(frame, vec![1, 1, 1, 1, 1, 1, 1, 1, 0]);
    let (payload, header) = deserialize_from(strip_terminator(&frame)).unwrap();
    assert_eq!(header, 0x00);
    assert!(payload.is_empty());
}

#[test]
fn all_zero_payload_has_no_interior_zero() {
    let frame = encode_frame(0x01, &[0x00, 0x00, 0x00]).unwrap();
    for &b in &frame[..frame.len() - 1] {
        assert_ne!(b, 0u8);
    }
    assert_eq!(*frame.last().unwrap(), 0u8);
    let (payload, header) = deserialize_from(strip_terminator(&frame)).unwrap();
    assert_eq!(header, 0x01);
    assert_eq!(payload, vec![0x00, 0x00, 0x00]);
}

#[test]
fn frame_round_trip_mixed_payload() {
    let payload: Vec<u8> = (0u16..1500).map(|i| (i % 256) as u8).collect();
    let frame = encode_frame(0x05, &payload).unwrap();
    for &b in &frame[..frame.len() - 1] {
        assert_ne!(b, 0u8);
    }
    let (decoded, header) = deserialize_from(strip_terminator(&frame)).unwrap();
    assert_eq!(header, 0x05);
    assert_eq!(decoded, payload);
}

#[test]
fn oversized_payload_is_refused() {
    let payload = vec![0x41u8; 1501];
    assert!(matches!(encode_frame(0, &payload), Err(LinkError::InvalidParameter)));
}

#[test]
fn max_length_run_stuffing() {
    // 254 non-zero bytes: one 0xFF block, then the empty final block
    let data = vec![0x41u8; 254];
    let stuffed = cobs_stuff_exec(&data);
    assert_eq!(stuffed[0], 0xFF);
    assert_eq!(&stuffed[1..255], &data[..]);
    assert_eq!(stuffed[255], 0x01);
    assert_eq!(stuffed.len(), 256);
    // 255 non-zero bytes: the 0xFF block, then a fresh run for the last byte
    let data = vec![0x41u8; 255];
    let stuffed = cobs_stuff_exec(&data);
    assert_eq!(stuffed[0], 0xFF);
    assert_eq!(stuffed[255], 0x02);
    assert_eq!(stuffed[256], 0x41);
    assert_eq!(stuffed.len(), 257);
}

#[test]
fn stuffing_round_trips() {
    let cases: Vec<Vec<u8>> = vec![
        vec![],
        vec![0],
        vec![0, 0, 0],
        vec![1, 2, 3],
        vec![1, 0, 2, 0, 3],
        (0u16..600).map(|i| (i % 256) as u8).collect(),
        vec![7u8; 254],
        vec![7u8; 255],
        vec![7u8; 508],
    ];
    for data in cases {
        let stuffed = cobs_stuff_exec(&data);
        for &b in &stuffed {
            assert_ne!(b, 0u8);
        }
        let unstuffed = cobs_unstuff_exec(&stuffed).unwrap();
        assert_eq!(unstuffed, data);
    }
}

#[test]
fn stuffing_agrees_with_cobs_crate() {
    // the cobs crate decodes what this encoder stuffs
    let cases: Vec<Vec<u8>> = vec![
        vec![],
        vec![0],
        vec![1, 2, 3],
        vec![1, 0, 2, 0, 3],
        (0u16..600).map(|i| (i % 256) as u8).collect(),
    ];
    for data in &cases {
        let stuffed = cobs_stuff_exec(data);
        let decoded = cobs::decode_vec(&stuffed).unwrap();
        assert_eq!(&decoded, data);
    }
    // and away from the 254-block boundary the bytes are identical
    for data in &cases {
        if data.len() % 254 != 0 || data.is_empty() {
            let theirs = cobs::encode_vec(data);
            let ours = cobs_stuff_exec(data);
            assert_eq!(ours, theirs);
        }
    }
}

#[test]
fn corrupt_crc_is_detected() {
    let frame = encode_frame(0x02, &[1, 2, 3, 4]).unwrap();
    let stuffed = strip_terminator(&frame);
    // flip a payload bit inside the stuffed region (the first payload byte
    // sits after the first block's overhead, header and length bytes and
    // the second block's overhead)
    let mut bad = stuffed.to_vec();
    bad[4] ^= 0x10;
    assert!(matches!(deserialize_from(&bad), Err(LinkError::CrcError)));
}

#[test]
fn malformed_stuffing_is_detected() {
    // an overhead byte pointing past the end of the buffer
    assert!(matches!(deserialize_from(&[0x09, 1, 2]), Err(LinkError::DecodeError)));
    // too short to carry header, length and checksum
    assert!(matches!(deserialize_from(&[0x02, 7]), Err(LinkError::DecodeError)));
}

#[test]
fn advertised_length_must_fit() {
    // region: header 0, length 200, no payload bytes, zero checksum
    let region = vec![0u8, 200, 0, 0, 0, 0, 0];
    let stuffed = cobs_stuff_exec(&region);
    assert!(matches!(deserialize_from(&stuffed), Err(LinkError::DecodeError)));
}
