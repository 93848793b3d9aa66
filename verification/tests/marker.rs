use qr_video::error::CodecError;
use qr_video::marker::{extract_payload, find_marker};

const MARKER: [u8; 4] = [0xAB, 0xAD, 0xBA, 0xBE];

#[test]
fn find_marker_gives_the_first_of_several() {
    let buffer = [1, 2, 9, 9, 3, 9, 9, 9];
    assert_eq!(find_marker(&buffer, &[9, 9]), Some(2));
    assert_eq!(find_marker(&buffer, &[9, 9, 9]), Some(5));
    assert_eq!(find_marker(&buffer, &[1]), Some(0));
    assert_eq!(find_marker(&buffer, &[9, 9, 9, 9]), None);
}

#[test]
fn find_marker_at_the_very_end() {
    assert_eq!(find_marker(&[0, 0, 0, 7, 8], &[7, 8]), Some(3));
    assert_eq!(find_marker(&[7, 8], &[7, 8]), Some(0));
}

#[test]
fn find_marker_of_nothing_and_in_nothing() {
    assert_eq!(find_marker(&[1, 2, 3], &[]), Some(0));
    assert_eq!(find_marker(&[], &[]), Some(0));
    assert_eq!(find_marker(&[], &[1]), None);
    assert_eq!(find_marker(&[1, 2], &[1, 2, 3]), None);
}

#[test]
fn find_marker_steps_over_a_partial_match() {
    assert_eq!(find_marker(&[0xAB, 0xAD, 0xAB, 0xAD, 0xBA, 0xBE], &MARKER), Some(2));
    assert_eq!(find_marker(&[1, 1, 1, 2], &[1, 1, 2]), Some(1));
}

#[test]
fn extract_payload_between_two_markers() {
    let mut buffer = MARKER.to_vec();
    buffer.extend_from_slice(b"hello");
    buffer.extend_from_slice(&MARKER);
    assert_eq!(extract_payload(&buffer, &MARKER, &MARKER), Ok(b"hello".to_vec()));
}

#[test]
fn extract_payload_drops_what_stands_around_the_markers() {
    let mut buffer = vec![0u8; 10];
    buffer.extend_from_slice(&MARKER);
    buffer.extend_from_slice(&[1, 2, 3]);
    buffer.extend_from_slice(&MARKER);
    buffer.extend_from_slice(&[0xEC, 0x11, 0xEC]);
    assert_eq!(extract_payload(&buffer, &MARKER, &MARKER), Ok(vec![1, 2, 3]));
}

#[test]
fn extract_payload_begins_behind_the_first_header() {
    let header = [7u8, 7];
    let footer = [9u8];
    let buffer = [0, 7, 7, 1, 7, 7, 2, 9, 3, 9];
    assert_eq!(extract_payload(&buffer, &header, &footer), Ok(vec![1, 7, 7, 2]));
}

#[test]
fn extract_payload_ends_before_the_first_footer() {
    let mut buffer = MARKER.to_vec();
    buffer.extend_from_slice(&[5, 6]);
    buffer.extend_from_slice(&MARKER);
    buffer.extend_from_slice(&[7, 8]);
    buffer.extend_from_slice(&MARKER);
    assert_eq!(extract_payload(&buffer, &MARKER, &MARKER), Ok(vec![5, 6]));
}

#[test]
fn extract_payload_of_no_bytes() {
    let mut buffer = MARKER.to_vec();
    buffer.extend_from_slice(&MARKER);
    assert_eq!(extract_payload(&buffer, &MARKER, &MARKER), Ok(Vec::new()));
}

#[test]
fn extract_payload_without_header() {
    assert_eq!(
        extract_payload(&[1, 2, 3, 4, 5], &MARKER, &MARKER),
        Err(CodecError::FrameMarkerNotFound)
    );
    assert_eq!(extract_payload(&[], &MARKER, &MARKER), Err(CodecError::FrameMarkerNotFound));
}

#[test]
fn extract_payload_without_footer() {
    let mut buffer = MARKER.to_vec();
    buffer.extend_from_slice(&[1, 2, 3]);
    assert_eq!(
        extract_payload(&buffer, &MARKER, &MARKER),
        Err(CodecError::FrameMarkerNotFound)
    );
    buffer.extend_from_slice(&MARKER[..3]);
    assert_eq!(
        extract_payload(&buffer, &MARKER, &MARKER),
        Err(CodecError::FrameMarkerNotFound)
    );
}

#[test]
fn extract_payload_with_different_markers() {
    let buffer = [0xAA, 1, 2, 3, 0xBB, 0xCC];
    assert_eq!(extract_payload(&buffer, &[0xAA], &[0xBB, 0xCC]), Ok(vec![1, 2, 3]));
    assert_eq!(
        extract_payload(&buffer, &[0xBB], &[0xAA]),
        Err(CodecError::FrameMarkerNotFound)
    );
}

#[test]
fn extract_payload_with_empty_markers() {
    assert_eq!(extract_payload(&[1, 2, 3], &[], &[]), Ok(Vec::new()));
    assert_eq!(extract_payload(&[1, 2, 3], &[], &[3]), Ok(vec![1, 2]));
}
