use std::io::Cursor;

use comic_reader::decoder::ImageCrateDecoder;
use comic_reader::decoder::ImageDecoder;
use comic_reader::types::DecodedImage;
use comic_reader::types::ReaderError;

fn png(width: u32, height: u32) -> Vec<u8> {
    let image = image::RgbaImage::from_pixel(width, height, image::Rgba([10, 20, 30, 255]));
    let mut bytes = Vec::new();
    image
        .write_to(&mut Cursor::new(&mut bytes), image::ImageFormat::Png)
        .unwrap();
    bytes
}

#[test]
fn decodes_png_pages_into_rgba() {
    let decoder = ImageCrateDecoder::new();
    let decoded = decoder.decode(&png(3, 2)).unwrap();
    assert_eq!((decoded.width, decoded.height), (3, 2));
    assert_eq!(decoded.byte_len(), 3 * 2 * 4);
    assert_eq!(&decoded.rgba[0..4], &[10, 20, 30, 255]);
}

#[test]
fn undecodable_bytes_give_a_decode_error() {
    let decoder = ImageCrateDecoder::new();
    match decoder.decode(b"not an image") {
        Err(ReaderError::Decode(text)) => assert!(text.starts_with("image decode failed: ")),
        other => panic!("unexpected result {other:?}"),
    }
}

#[test]
fn thumbnails_fit_the_edge_and_keep_the_aspect_ratio() {
    let decoder = ImageCrateDecoder::new();
    let thumbnail = decoder.thumbnail(&png(40, 20), 10).unwrap();
    assert_eq!((thumbnail.width, thumbnail.height), (10, 5));
    assert_eq!(thumbnail.byte_len(), 10 * 5 * 4);
}

#[test]
fn thumbnails_from_decoded_pages() {
    let decoder = ImageCrateDecoder::new();
    let page = DecodedImage { width: 8, height: 8, rgba: vec![200; 8 * 8 * 4] };
    let thumbnail = decoder.thumbnail_from_decoded(&page, 4).unwrap();
    assert_eq!((thumbnail.width, thumbnail.height), (4, 4));
    let broken = DecodedImage { width: 8, height: 8, rgba: vec![0; 10] };
    match decoder.thumbnail_from_decoded(&broken, 4) {
        Err(ReaderError::Decode(text)) => assert_eq!(text, "decoded image does not match its size"),
        other => panic!("unexpected result {other:?}"),
    }
}

#[test]
fn a_decoded_page_can_be_made_into_a_thumbnail() {
    let decoder = ImageCrateDecoder::new();
    let decoded = decoder.decode(&png(30, 60)).unwrap();
    let thumbnail = decoder.thumbnail_from_decoded(&decoded, 20).unwrap();
    assert_eq!((thumbnail.width, thumbnail.height), (10, 20));
    assert_eq!(thumbnail.byte_len(), 10 * 20 * 4);
}

#[test]
fn a_failed_load_is_a_decode_error_and_a_loaded_image_passes() {
    match ImageCrateDecoder::from_load(image::load_from_memory(b"not an image")) {
        Err(ReaderError::Decode(text)) => assert!(text.starts_with("image decode failed: ")),
        _ => panic!("expected a decode error"),
    }
    let loaded = ImageCrateDecoder::from_load(image::load_from_memory(&png(2, 3))).unwrap();
    assert_eq!((loaded.width(), loaded.height()), (2, 3));
}

#[test]
fn thumbnails_of_decoded_pages_keep_the_aspect_ratio() {
    let decoder = ImageCrateDecoder::new();
    let page = DecodedImage { width: 30, height: 10, rgba: vec![1; 30 * 10 * 4] };
    let thumbnail = decoder.thumbnail_from_decoded(&page, 6).unwrap();
    assert_eq!((thumbnail.width, thumbnail.height), (6, 2));
    assert_eq!(thumbnail.byte_len(), 6 * 2 * 4);
}
