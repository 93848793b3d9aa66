use qr_video::contracts::ImageStreamReader;
use qr_video::png_stream::{PngReader, PNG_FOOTER, PNG_HEADER};

fn container(body: &[u8]) -> Vec<u8> {
    let mut image = PNG_HEADER.to_vec();
    image.extend_from_slice(body);
    image.extend_from_slice(&PNG_FOOTER);
    image
}

#[test]
fn signatures_are_those_of_the_container_format() {
    assert_eq!(PNG_HEADER, [0x89, b'P', b'N', b'G', 0x0D, 0x0A, 0x1A, 0x0A]);
    assert_eq!(PNG_FOOTER, [b'I', b'E', b'N', b'D', 0xAE, 0x42, 0x60, 0x82]);
}

#[test]
fn two_containers_behind_noise_come_out_in_order() {
    let first = container(&[1, 2, 3, 4, 5]);
    let second = container(&[6, 7]);
    let noise = [0x00, 0x89, 0x50, 0xFF, 0x49, 0x45];
    let mut stream = noise.to_vec();
    stream.extend_from_slice(&first);
    stream.extend_from_slice(&second);

    let reader = PngReader::new();
    let mut buffer = vec![0xEE; 4];
    let taken = reader.extract_image(&stream, &mut buffer);
    assert_eq!(taken, noise.len() + first.len());
    assert_eq!(buffer, first);

    let rest = &stream[taken..];
    let taken = reader.extract_image(rest, &mut buffer);
    assert_eq!(taken, second.len());
    assert_eq!(buffer, second);

    let rest = &rest[taken..];
    assert_eq!(reader.extract_image(rest, &mut buffer), 0);
    assert_eq!(buffer, second);
}

#[test]
fn empty_stream_gives_nothing() {
    let reader = PngReader::new();
    let mut buffer = vec![1, 2, 3];
    assert_eq!(reader.extract_image(&[], &mut buffer), 0);
    assert_eq!(buffer, vec![1, 2, 3]);
}

#[test]
fn stream_without_signature_is_taken_whole() {
    let reader = PngReader::new();
    let stream = [0x50, 0x4E, 0x47, 0x0D, 0x0A, 0x1A, 0x0A, 0x00, 0x49, 0x45, 0x4E, 0x44];
    let mut buffer = vec![9, 9];
    let taken = reader.extract_image(&stream, &mut buffer);
    assert_eq!(taken, stream.len());
    assert_eq!(buffer, vec![9, 9]);
    assert_eq!(reader.extract_image(&stream[taken..], &mut buffer), 0);
}

#[test]
fn stream_of_one_byte_without_signature() {
    let reader = PngReader::new();
    let mut buffer = Vec::new();
    assert_eq!(reader.extract_image(&[0x00], &mut buffer), 1);
    assert!(buffer.is_empty());
}

#[test]
fn container_cut_short_is_left_in_the_buffer_as_far_as_it_goes() {
    let reader = PngReader::new();
    let mut stream = vec![0xFF, 0xFF];
    stream.extend_from_slice(&PNG_HEADER);
    stream.extend_from_slice(&[1, 2, 3]);
    stream.extend_from_slice(&PNG_FOOTER[..7]);
    let mut buffer = vec![7; 20];
    assert_eq!(reader.extract_image(&stream, &mut buffer), stream.len());
    assert_eq!(buffer, stream[2..].to_vec());
}

#[test]
fn start_signature_alone_resets_the_buffer() {
    let reader = PngReader::new();
    let mut buffer = vec![7; 20];
    assert_eq!(reader.extract_image(&PNG_HEADER, &mut buffer), 8);
    assert_eq!(buffer, PNG_HEADER.to_vec());
}

#[test]
fn container_without_body() {
    let reader = PngReader::new();
    let image = container(&[]);
    let mut buffer = Vec::new();
    assert_eq!(reader.extract_image(&image, &mut buffer), 16);
    assert_eq!(buffer, image);
}

#[test]
fn extraction_stops_at_the_first_end_signature() {
    let reader = PngReader::new();
    let mut stream = container(&[1, 2]);
    stream.extend_from_slice(&[3, 4]);
    stream.extend_from_slice(&PNG_FOOTER);
    let mut buffer = Vec::new();
    assert_eq!(reader.extract_image(&stream, &mut buffer), 18);
    assert_eq!(buffer, container(&[1, 2]));
}

#[test]
fn end_signature_before_the_start_signature_is_noise() {
    let reader = PngReader::new();
    let mut stream = PNG_FOOTER.to_vec();
    let image = container(&[42]);
    stream.extend_from_slice(&image);
    let mut buffer = Vec::new();
    assert_eq!(reader.extract_image(&stream, &mut buffer), 8 + image.len());
    assert_eq!(buffer, image);
}

#[test]
fn start_signature_inside_a_container_is_part_of_its_body() {
    let reader = PngReader::new();
    let image = container(&PNG_HEADER);
    let mut buffer = Vec::new();
    assert_eq!(reader.extract_image(&image, &mut buffer), image.len());
    assert_eq!(buffer, image);
}

#[test]
fn noise_that_ends_like_a_start_signature_begins() {
    let reader = PngReader::new();
    let mut stream = PNG_HEADER[..5].to_vec();
    let image = container(&[1]);
    stream.extend_from_slice(&image);
    let mut buffer = Vec::new();
    assert_eq!(reader.extract_image(&stream, &mut buffer), 5 + image.len());
    assert_eq!(buffer, image);
}
