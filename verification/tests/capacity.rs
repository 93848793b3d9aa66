use qr_video::capacity::{QrSettings, CAPACITIES};
use qr_video::error::CodecError;

fn settings(version: u8, level: u8) -> QrSettings {
    QrSettings { qr_version: version, error_correction_level: level }
}

#[test]
fn max_len_reads_the_table() {
    assert_eq!(settings(1, 0).max_len(), Ok(17));
    assert_eq!(settings(1, 3).max_len(), Ok(7));
    assert_eq!(settings(4, 1).max_len(), Ok(62));
    assert_eq!(settings(9, 0).max_len(), Ok(230));
    assert_eq!(settings(10, 0).max_len(), Ok(271));
    assert_eq!(settings(27, 2).max_len(), Ok(805));
    assert_eq!(settings(40, 0).max_len(), Ok(2953));
    assert_eq!(settings(40, 3).max_len(), Ok(1273));
}

#[test]
fn max_len_agrees_with_every_entry() {
    for version in 1..=40u8 {
        for level in 0..=3u8 {
            let expected = CAPACITIES[usize::from(version) - 1][usize::from(level)];
            assert_eq!(settings(version, level).max_len(), Ok(usize::from(expected)));
        }
    }
}

#[test]
fn max_len_refuses_a_version_outside_one_to_forty() {
    assert_eq!(settings(0, 0).max_len(), Err(CodecError::InvalidQrSettings));
    assert_eq!(settings(41, 0).max_len(), Err(CodecError::InvalidQrSettings));
    assert_eq!(settings(255, 3).max_len(), Err(CodecError::InvalidQrSettings));
}

#[test]
fn max_len_refuses_a_level_above_three() {
    assert_eq!(settings(1, 4).max_len(), Err(CodecError::InvalidQrSettings));
    assert_eq!(settings(40, 255).max_len(), Err(CodecError::InvalidQrSettings));
}

#[test]
fn capacity_rises_with_the_version_and_falls_with_the_level() {
    for version in 1..=40usize {
        for level in 0..3usize {
            assert!(CAPACITIES[version - 1][level] > CAPACITIES[version - 1][level + 1]);
        }
        if version < 40 {
            for level in 0..=3usize {
                assert!(CAPACITIES[version - 1][level] < CAPACITIES[version][level]);
            }
        }
    }
}

#[test]
fn data_bits_of_the_encoder_are_the_capacity_and_one_segment_head() {
    let levels = [qrcode::EcLevel::L, qrcode::EcLevel::M, qrcode::EcLevel::Q, qrcode::EcLevel::H];
    for version in 1..=40u8 {
        for level in 0..=3u8 {
            let bits = qrcode::bits::Bits::new(qrcode::Version::Normal(i16::from(version)));
            let capacity = settings(version, level).max_len().unwrap();
            let head = if version < 10 { 2 } else { 3 };
            assert_eq!(bits.max_len(levels[usize::from(level)]), Ok(8 * (capacity + head)));
        }
    }
}
