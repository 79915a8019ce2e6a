use engine::components::Sprite;

fn encode_png(width: u32, height: u32, pixels: Vec<u8>) -> Vec<u8> {
    let img = image::RgbaImage::from_raw(width, height, pixels).unwrap();
    let mut out = std::io::Cursor::new(Vec::new());
    img.write_to(&mut out, image::ImageFormat::Png).unwrap();
    out.into_inner()
}

#[test]
fn sprite_from_rgba_checks_length() {
    assert!(Sprite::from_rgba(2, 2, vec![0; 16]).is_some());
    assert!(Sprite::from_rgba(2, 2, vec![0; 15]).is_none());
    assert!(Sprite::from_rgba(2, 2, vec![0; 17]).is_none());
    assert!(Sprite::from_rgba(0, 0, vec![]).is_some());
}

#[test]
fn sprite_from_rgba_rejects_wide_images() {
    assert!(Sprite::from_rgba(70000, 0, vec![]).is_none());
    assert!(Sprite::from_rgba(0, 65536, vec![]).is_none());
    let s = Sprite::from_rgba(65535, 0, vec![]).unwrap();
    assert_eq!(s.width, 65535);
}

#[test]
fn sprite_new_decodes_png() {
    let pixels: Vec<u8> = vec![255, 0, 0, 255, 0, 255, 0, 128, 0, 0, 255, 0];
    let png = encode_png(3, 1, pixels.clone());
    assert_ne!(png, pixels);
    let s = Sprite::new(&png).unwrap();
    assert_eq!(s.width, 3);
    assert_eq!(s.height, 1);
    assert_eq!(s.image, Some(pixels));
}

#[test]
fn sprite_new_rejects_garbage() {
    assert!(Sprite::new(&[1, 2, 3, 4, 5]).is_none());
    assert!(Sprite::new(&[]).is_none());
}

#[test]
fn sprite_new_rejects_other_formats() {
    let bmp_header: Vec<u8> = vec![b'B', b'M', 0, 0, 0, 0, 0, 0, 0, 0, 54, 0, 0, 0];
    assert!(Sprite::new(&bmp_header).is_none());
}
