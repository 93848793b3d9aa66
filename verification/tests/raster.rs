use qr_video::error::CodecError;
use qr_video::png_stream::{PNG_FOOTER, PNG_HEADER};
use qr_video::raster::{read_png, write_png, GrayFrame};

fn striped(width: u32, height: u32) -> GrayFrame {
    let pixels = (0..width * height).map(|i| if (i / 3) % 2 == 0 { 0 } else { 255 }).collect();
    GrayFrame { width, height, pixels }
}

#[test]
fn raster_comes_back_from_its_still_image() {
    let frame = striped(17, 9);
    let file = write_png(&frame).unwrap();
    assert_eq!(&file[..8], &PNG_HEADER);
    assert_eq!(&file[file.len() - 8..], &PNG_FOOTER);
    let back = read_png(&file).unwrap();
    assert_eq!((back.width, back.height), (17, 9));
    assert_eq!(back.pixels, frame.pixels);
}

#[test]
fn still_image_depends_on_the_raster_alone() {
    assert_eq!(write_png(&striped(8, 8)), write_png(&striped(8, 8)));
    assert_ne!(write_png(&striped(8, 8)), write_png(&striped(8, 9)));
}

#[test]
fn raster_with_too_few_pixels_has_no_still_image() {
    let frame = GrayFrame { width: 4, height: 4, pixels: vec![0; 15] };
    assert_eq!(write_png(&frame), Err(CodecError::ImageEncodeError));
}

#[test]
fn raster_without_extent_has_no_still_image() {
    let frame = GrayFrame { width: 0, height: 0, pixels: Vec::new() };
    assert_eq!(write_png(&frame), Err(CodecError::ImageEncodeError));
}

#[test]
fn colour_image_is_read_as_luminance() {
    let picture = image::RgbImage::from_pixel(3, 2, image::Rgb([255u8, 255, 255]));
    let mut file = Vec::new();
    picture.write_to(&mut std::io::Cursor::new(&mut file), image::ImageFormat::Png).unwrap();
    let frame = read_png(&file).unwrap();
    assert_eq!((frame.width, frame.height), (3, 2));
    assert_eq!(frame.pixels, vec![255; 6]);
}

#[test]
fn bytes_that_are_no_still_image() {
    assert!(matches!(read_png(&[]), Err(CodecError::ImageDecodeError)));
    assert!(matches!(read_png(b"GIF89a"), Err(CodecError::ImageDecodeError)));
    let mut cut = write_png(&striped(10, 10)).unwrap();
    cut.truncate(30);
    assert!(matches!(read_png(&cut), Err(CodecError::ImageDecodeError)));
}
