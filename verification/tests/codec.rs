use qr_video::capacity::QrSettings;
use qr_video::contracts::{QrCreater, QrReader};
use qr_video::error::{CodecError, Segment};
use qr_video::png_stream::{PNG_FOOTER, PNG_HEADER};
use qr_video::qr::{
    get_ec_level, get_qr_version, overflowing_segment, select_payload, QrcodeCreater,
    QrcodeReader,
};
use qr_video::symbol::EcLevel;

const MARKER: [u8; 4] = [0xAB, 0xAD, 0xBA, 0xBE];

fn settings(version: u8, level: u8) -> QrSettings {
    QrSettings { qr_version: version, error_correction_level: level }
}

fn payload(len: usize) -> Vec<u8> {
    (0..len).map(|i| (i * 37 + 11) as u8).collect()
}

fn overhead(version: u8) -> usize {
    if version < 10 {
        3
    } else {
        5
    }
}

fn blank_png(width: u32, height: u32) -> Vec<u8> {
    let image = image::GrayImage::from_pixel(width, height, image::Luma([255u8]));
    let mut file = Vec::new();
    image.write_to(&mut std::io::Cursor::new(&mut file), image::ImageFormat::Png).unwrap();
    file
}

#[test]
fn version_four_level_one_round_trip_of_fifty_bytes() {
    let s = settings(4, 1);
    assert_eq!(s.max_len(), Ok(62));
    let data = payload(50);
    let mut creater = QrcodeCreater::new(s);
    let image = creater.create(&MARKER, &data, &MARKER).unwrap();
    let mut reader = QrcodeReader::new(s);
    assert_eq!(reader.read(&MARKER, &image, &MARKER), Ok(data));
}

#[test]
fn round_trip_at_several_versions_and_levels() {
    for (version, level) in [(1u8, 0u8), (2, 3), (5, 2), (9, 1), (10, 0), (15, 3), (27, 1)] {
        let s = settings(version, level);
        let room = s.max_len().unwrap() - 8 - overhead(version);
        let data = payload(room / 2 + 1);
        let image = QrcodeCreater::new(s).create(&MARKER, &data, &MARKER).unwrap();
        assert_eq!(QrcodeReader::new(s).read(&MARKER, &image, &MARKER), Ok(data));
    }
}

#[test]
fn round_trip_of_an_empty_payload() {
    let s = settings(3, 0);
    let image = QrcodeCreater::new(s).create(&MARKER, &[], &MARKER).unwrap();
    assert_eq!(QrcodeReader::new(s).read(&MARKER, &image, &MARKER), Ok(Vec::new()));
}

#[test]
fn round_trip_with_markers_of_different_lengths() {
    let s = settings(6, 1);
    let data = payload(40);
    let header = [1u8, 2, 3, 4, 5, 6];
    let footer = [0xFFu8, 0xFE];
    let image = QrcodeCreater::new(s).create(&header, &data, &footer).unwrap();
    assert_eq!(QrcodeReader::new(s).read(&header, &image, &footer), Ok(data));
}

#[test]
fn payload_that_holds_the_footer_comes_back_cut() {
    let s = settings(4, 1);
    let mut data = vec![1u8, 2, 3];
    data.extend_from_slice(&MARKER);
    data.extend_from_slice(&[4, 5]);
    let image = QrcodeCreater::new(s).create(&MARKER, &data, &MARKER).unwrap();
    assert_eq!(QrcodeReader::new(s).read(&MARKER, &image, &MARKER), Ok(vec![1, 2, 3]));
}

#[test]
fn largest_payload_fits_and_one_byte_more_does_not() {
    for (version, level) in [(1u8, 0u8), (4, 1), (9, 0), (10, 0), (12, 3), (26, 2), (27, 0)] {
        let s = settings(version, level);
        let room = s.max_len().unwrap() - 8 - overhead(version);
        let mut creater = QrcodeCreater::new(s);
        let data = payload(room);
        let image = creater.create(&MARKER, &data, &MARKER).unwrap();
        assert_eq!(QrcodeReader::new(s).read(&MARKER, &image, &MARKER), Ok(data));
        assert_eq!(
            creater.create(&MARKER, &payload(room + 1), &MARKER),
            Err(CodecError::PayloadTooLarge(Segment::Footer))
        );
    }
}

#[test]
fn largest_payload_fits_the_largest_symbol() {
    let s = settings(40, 0);
    let mut creater = QrcodeCreater::new(s);
    assert!(creater.create(&MARKER, &payload(2953 - 8 - 5), &MARKER).is_ok());
    assert_eq!(
        creater.create(&MARKER, &payload(2953 - 8 - 4), &MARKER),
        Err(CodecError::PayloadTooLarge(Segment::Footer))
    );
}

#[test]
fn create_names_the_segment_that_overflows() {
    let mut creater = QrcodeCreater::new(settings(4, 1));
    assert!(creater.create(&MARKER, &[0u8; 51], &MARKER).is_ok());
    assert_eq!(
        creater.create(&MARKER, &[0u8; 52], &MARKER),
        Err(CodecError::PayloadTooLarge(Segment::Footer))
    );
    assert_eq!(
        creater.create(&MARKER, &[0u8; 57], &MARKER),
        Err(CodecError::PayloadTooLarge(Segment::Footer))
    );
    assert_eq!(
        creater.create(&MARKER, &[0u8; 58], &MARKER),
        Err(CodecError::PayloadTooLarge(Segment::Data))
    );
    assert_eq!(
        creater.create(&[0u8; 62], &[0u8; 1], &MARKER),
        Err(CodecError::PayloadTooLarge(Segment::Data))
    );
    assert_eq!(
        creater.create(&[0u8; 63], &[], &MARKER),
        Err(CodecError::PayloadTooLarge(Segment::Header))
    );
    assert_eq!(
        creater.create(&[0u8; 300], &[0u8; 300], &[0u8; 300]),
        Err(CodecError::PayloadTooLarge(Segment::Header))
    );
}

#[test]
fn overflowing_segment_counts_the_head_of_each_segment() {
    let s = settings(4, 1);
    assert_eq!(overflowing_segment(&s, 4, 51, 4), Ok(None));
    assert_eq!(overflowing_segment(&s, 4, 52, 4), Ok(Some(Segment::Footer)));
    assert_eq!(overflowing_segment(&s, 4, 58, 0), Ok(Some(Segment::Data)));
    assert_eq!(overflowing_segment(&s, 63, 0, 0), Ok(Some(Segment::Header)));
    assert_eq!(overflowing_segment(&s, 0, 0, 59), Ok(None));
    assert_eq!(overflowing_segment(&s, 0, 0, 60), Ok(Some(Segment::Footer)));
    assert_eq!(overflowing_segment(&s, usize::MAX, usize::MAX, usize::MAX), Ok(Some(Segment::Header)));
    let wide = settings(10, 0);
    assert_eq!(overflowing_segment(&wide, 4, 258, 4), Ok(None));
    assert_eq!(overflowing_segment(&wide, 4, 259, 4), Ok(Some(Segment::Footer)));
    assert_eq!(overflowing_segment(&settings(0, 0), 1, 1, 1), Err(CodecError::InvalidQrSettings));
    assert_eq!(overflowing_segment(&settings(1, 4), 1, 1, 1), Err(CodecError::InvalidQrSettings));
}

#[test]
fn create_refuses_invalid_settings() {
    for s in [settings(0, 0), settings(41, 1), settings(4, 4), settings(0, 9)] {
        assert_eq!(
            QrcodeCreater::new(s).create(&MARKER, &[1, 2, 3], &MARKER),
            Err(CodecError::InvalidQrSettings)
        );
        assert_eq!(QrcodeCreater::new(s).max_buffer_len(), Err(CodecError::InvalidQrSettings));
    }
}

#[test]
fn read_refuses_invalid_settings() {
    let image = QrcodeCreater::new(settings(4, 1)).create(&MARKER, &[1, 2, 3], &MARKER).unwrap();
    for s in [settings(0, 0), settings(41, 1), settings(4, 4)] {
        assert_eq!(
            QrcodeReader::new(s).read(&MARKER, &image, &MARKER),
            Err(CodecError::InvalidQrSettings)
        );
        assert_eq!(QrcodeReader::new(s).max_buffer_len(), Err(CodecError::InvalidQrSettings));
    }
}

#[test]
fn max_buffer_len_is_the_capacity() {
    assert_eq!(QrcodeCreater::new(settings(4, 1)).max_buffer_len(), Ok(62));
    assert_eq!(QrcodeReader::new(settings(40, 0)).max_buffer_len(), Ok(2953));
}

#[test]
fn created_image_is_a_container() {
    let image = QrcodeCreater::new(settings(2, 0)).create(&MARKER, &[1, 2, 3], &MARKER).unwrap();
    assert_eq!(&image[..8], &PNG_HEADER);
    assert_eq!(&image[image.len() - 8..], &PNG_FOOTER);
    let decoded = image::load_from_memory(&image).unwrap().into_luma8();
    assert_eq!(decoded.dimensions(), ((25 + 8) * 8, (25 + 8) * 8));
}

#[test]
fn created_image_depends_on_the_inputs_alone() {
    let mut creater = QrcodeCreater::new(settings(5, 2));
    let first = creater.create(&MARKER, &payload(20), &MARKER).unwrap();
    let second = creater.create(&MARKER, &payload(20), &MARKER).unwrap();
    let other = creater.create(&MARKER, &payload(21), &MARKER).unwrap();
    assert_eq!(first, second);
    assert_ne!(first, other);
}

#[test]
fn reading_twice_gives_the_same_payload() {
    let s = settings(7, 1);
    let data = payload(60);
    let image = QrcodeCreater::new(s).create(&MARKER, &data, &MARKER).unwrap();
    let mut reader = QrcodeReader::new(s);
    let first = reader.read(&MARKER, &image, &MARKER);
    let second = reader.read(&MARKER, &image, &MARKER);
    assert_eq!(first, Ok(data));
    assert_eq!(first, second);
}

#[test]
fn reader_of_another_version_reads_the_symbol_all_the_same() {
    let data = payload(30);
    let image = QrcodeCreater::new(settings(8, 0)).create(&MARKER, &data, &MARKER).unwrap();
    assert_eq!(QrcodeReader::new(settings(1, 3)).read(&MARKER, &image, &MARKER), Ok(data));
}

#[test]
fn read_of_bytes_that_are_no_image() {
    let mut reader = QrcodeReader::new(settings(4, 1));
    assert_eq!(reader.read(&MARKER, &[], &MARKER), Err(CodecError::ImageDecodeError));
    assert_eq!(reader.read(&MARKER, b"no image at all", &MARKER), Err(CodecError::ImageDecodeError));
    assert_eq!(reader.read(&MARKER, &PNG_HEADER, &MARKER), Err(CodecError::ImageDecodeError));
}

#[test]
fn read_of_an_image_cut_short() {
    let image = QrcodeCreater::new(settings(4, 1)).create(&MARKER, &payload(10), &MARKER).unwrap();
    let mut reader = QrcodeReader::new(settings(4, 1));
    assert_eq!(
        reader.read(&MARKER, &image[..image.len() / 2], &MARKER),
        Err(CodecError::ImageDecodeError)
    );
}

#[test]
fn read_of_an_image_without_symbol() {
    let mut reader = QrcodeReader::new(settings(4, 1));
    assert_eq!(reader.read(&MARKER, &blank_png(120, 90), &MARKER), Err(CodecError::QrNotFound));
}

#[test]
fn read_with_markers_that_the_symbol_does_not_hold() {
    let s = settings(4, 1);
    let image = QrcodeCreater::new(s).create(&MARKER, &payload(10), &MARKER).unwrap();
    let other = [0xDE, 0xAD, 0xBE, 0xEF];
    let mut reader = QrcodeReader::new(s);
    assert_eq!(reader.read(&other, &image, &MARKER), Err(CodecError::FrameMarkerNotFound));
    assert_eq!(reader.read(&MARKER, &image, &other), Err(CodecError::FrameMarkerNotFound));
}

#[test]
fn read_of_a_symbol_made_without_markers() {
    let code = qrcode::QrCode::with_version(b"plain text", qrcode::Version::Normal(3), qrcode::EcLevel::M)
        .unwrap();
    let picture = code.render::<image::Luma<u8>>().build();
    let mut file = Vec::new();
    picture.write_to(&mut std::io::Cursor::new(&mut file), image::ImageFormat::Png).unwrap();
    let mut reader = QrcodeReader::new(settings(3, 1));
    assert_eq!(reader.read(&MARKER, &file, &MARKER), Err(CodecError::FrameMarkerNotFound));
    assert_eq!(reader.read(b"plain", &file, b"text"), Ok(b" ".to_vec()));
}

#[test]
fn select_payload_takes_the_first_symbol_that_decoded() {
    let mut framed = MARKER.to_vec();
    framed.extend_from_slice(&[1, 2, 3]);
    framed.extend_from_slice(&MARKER);
    let mut later = MARKER.to_vec();
    later.extend_from_slice(&[4, 5]);
    later.extend_from_slice(&MARKER);
    let symbols = vec![None, Some(framed), None, Some(later)];
    assert_eq!(select_payload(&symbols, &MARKER, &MARKER), Ok(vec![1, 2, 3]));
}

#[test]
fn select_payload_does_not_look_behind_a_symbol_without_markers() {
    let mut later = MARKER.to_vec();
    later.extend_from_slice(&[4, 5]);
    later.extend_from_slice(&MARKER);
    let symbols = vec![Some(vec![9, 9, 9]), Some(later)];
    assert_eq!(
        select_payload(&symbols, &MARKER, &MARKER),
        Err(CodecError::FrameMarkerNotFound)
    );
}

#[test]
fn select_payload_without_a_symbol_that_decoded() {
    assert_eq!(select_payload(&Vec::new(), &MARKER, &MARKER), Err(CodecError::QrNotFound));
    assert_eq!(select_payload(&vec![None, None], &MARKER, &MARKER), Err(CodecError::QrNotFound));
}

#[test]
fn levels_by_number() {
    assert_eq!(get_ec_level(0), Ok(EcLevel::L));
    assert_eq!(get_ec_level(1), Ok(EcLevel::M));
    assert_eq!(get_ec_level(2), Ok(EcLevel::Q));
    assert_eq!(get_ec_level(3), Ok(EcLevel::H));
    assert_eq!(get_ec_level(4), Err(CodecError::InvalidQrSettings));
    assert_eq!(get_ec_level(255), Err(CodecError::InvalidQrSettings));
}

#[test]
fn versions_by_number() {
    assert_eq!(get_qr_version(1), Ok(1));
    assert_eq!(get_qr_version(3), Ok(3));
    assert_eq!(get_qr_version(40), Ok(40));
    assert_eq!(get_qr_version(0), Err(CodecError::InvalidQrSettings));
    assert_eq!(get_qr_version(41), Err(CodecError::InvalidQrSettings));
}

#[test]
fn symbol_has_the_size_of_its_version() {
    for version in [1u8, 3, 4, 10, 20] {
        let image = QrcodeCreater::new(settings(version, 0)).create(&MARKER, &[7], &MARKER).unwrap();
        let side = (u32::from(version) * 4 + 17 + 8) * 8;
        let decoded = image::load_from_memory(&image).unwrap().into_luma8();
        assert_eq!(decoded.dimensions(), (side, side));
    }
}
