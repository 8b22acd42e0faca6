use photon_rs::codec::{base64_to_image, base64_to_vec};
use photon_rs::{PhotonError, PhotonImage};

#[test]
fn base64_decodes_text() {
    assert_eq!(base64_to_vec("aGVsbG8=").unwrap(), b"hello".to_vec());
    assert_eq!(base64_to_vec("").unwrap(), Vec::<u8>::new());
}

#[test]
fn base64_rejects_garbage() {
    assert_eq!(base64_to_vec("not base64!").unwrap_err(), PhotonError::MalformedInput);
    assert_eq!(base64_to_image("@@@@").unwrap_err(), PhotonError::MalformedInput);
}

#[test]
fn bytes_that_are_no_image() {
    assert_eq!(
        PhotonImage::new_from_byteslice(vec![1, 2, 3, 4, 5]).unwrap_err(),
        PhotonError::MalformedInput
    );
    // "hello" is valid base64 text of bytes that hold no image.
    assert_eq!(PhotonImage::new_from_base64("aGVsbG8=").unwrap_err(), PhotonError::MalformedInput);
}

#[test]
fn png_data_uri_round_trip() {
    let pixels = vec![255, 0, 0, 255, 0, 255, 0, 128, 0, 0, 255, 0, 9, 9, 9, 9, 1, 2, 3, 4, 5, 6, 7, 8];
    let img = PhotonImage::new(pixels.clone(), 3, 2);
    let uri = img.get_base64();
    let prefix = "data:image/png;base64,";
    assert!(uri.starts_with(prefix));
    let body = &uri[prefix.len()..];
    assert_eq!(body.len() % 4, 0);
    assert!(!body.contains('\r') && !body.contains('\n'));
    assert!(body.chars().all(|c| c.is_ascii_alphanumeric() || c == '+' || c == '/' || c == '='));
    let png = base64_to_vec(body).unwrap();
    assert_eq!(&png[1..4], b"PNG");
    let back = base64_to_image(body).unwrap();
    assert_eq!(back.get_width(), 3);
    assert_eq!(back.get_height(), 2);
    assert_eq!(back.get_raw_pixels(), pixels);
    let again = PhotonImage::new_from_byteslice(png).unwrap();
    assert_eq!(again.get_raw_pixels(), pixels);
}

#[test]
fn data_uri_for_single_pixel() {
    let img = PhotonImage::new(vec![7, 8, 9, 10], 1, 1);
    let uri = img.get_base64();
    assert!(uri.starts_with("data:image/png;base64,iVBORw0KGgo"));
}

#[test]
fn from_rgba_checks_size() {
    let img = PhotonImage::from_rgba(vec![1, 2, 3, 4, 5, 6, 7, 8], 2, 1).unwrap();
    assert_eq!(img.get_raw_pixels(), vec![1, 2, 3, 4, 5, 6, 7, 8]);
    assert_eq!((img.get_width(), img.get_height()), (2, 1));
    assert_eq!(PhotonImage::from_rgba(vec![1, 2, 3, 4], 2, 1).unwrap_err(), PhotonError::MalformedInput);
    assert_eq!(PhotonImage::from_rgba(vec![], 0, 1).unwrap_err(), PhotonError::MalformedInput);
    assert_eq!(PhotonImage::from_rgba(vec![], 1, 0).unwrap_err(), PhotonError::MalformedInput);
}

#[test]
fn decodes_other_formats() {
    // A 1x1 BMP (24-bit, bottom-up) holding the colour (10, 20, 30).
    let mut bmp: Vec<u8> = vec![
        0x42, 0x4d, 58, 0, 0, 0, 0, 0, 0, 0, 54, 0, 0, 0, 40, 0, 0, 0, 1, 0, 0, 0, 1, 0, 0, 0, 1, 0, 24, 0, 0, 0,
        0, 0, 4, 0, 0, 0, 0, 0, 0, 0, 0, 0, 0, 0, 0, 0, 0, 0, 0, 0, 0, 0,
    ];
    bmp.extend_from_slice(&[30, 20, 10, 0]);
    let img = PhotonImage::new_from_byteslice(bmp).unwrap();
    assert_eq!(img.get_raw_pixels(), vec![10, 20, 30, 255]);
}
