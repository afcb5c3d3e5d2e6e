use std::io::Cursor;

use zeedle::cover::{album_cover, Picture, PictureKind};

fn png(width: u32, height: u32) -> Vec<u8> {
    let img = image::RgbaImage::from_pixel(width, height, image::Rgba([10, 20, 30, 255]));
    let mut out = Cursor::new(Vec::new());
    img.write_to(&mut out, image::ImageFormat::Png).unwrap();
    out.into_inner()
}

#[test]
fn no_cover_picture_gives_none() {
    let pics = vec![Picture { kind: PictureKind::Other, data: png(1, 1) }];
    assert!(album_cover(&pics).is_none());
    assert!(album_cover(&Vec::new()).is_none());
}

#[test]
fn first_cover_is_decoded() {
    let pics = vec![
        Picture { kind: PictureKind::Other, data: png(5, 5) },
        Picture { kind: PictureKind::CoverBack, data: png(2, 1) },
        Picture { kind: PictureKind::CoverFront, data: png(3, 3) },
    ];
    let cover = album_cover(&pics).unwrap();
    assert_eq!((cover.width, cover.height), (2, 1));
    assert_eq!(cover.rgba, vec![10, 20, 30, 255, 10, 20, 30, 255]);
}

#[test]
fn broken_cover_gives_none() {
    let pics = vec![
        Picture { kind: PictureKind::CoverFront, data: vec![1, 2, 3] },
        Picture { kind: PictureKind::CoverBack, data: png(1, 1) },
    ];
    assert!(album_cover(&pics).is_none());
}
