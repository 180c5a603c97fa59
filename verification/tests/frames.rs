use tinyrenderer::frame::{Color, Frame};
use tgaimage::{TGAColor, TGAImage};

#[test]
fn new_frame_is_blank() {
    let f = Frame::new(4, 3);
    assert_eq!(f.width(), 4);
    assert_eq!(f.height(), 3);
    for x in 0..4 {
        for y in 0..3 {
            assert_eq!(f.get(x, y), Color::rgba(0, 0, 0, 0));
        }
    }
}

#[test]
fn set_then_get() {
    let mut f = Frame::new(4, 4);
    let c = Color::rgba(10, 20, 30, 40);
    f.set(1, 2, c);
    assert_eq!(f.get(1, 2), c);
    assert_eq!(f.get(2, 1), Color::rgba(0, 0, 0, 0));
}

#[test]
fn set_out_of_range_ignored() {
    let mut f = Frame::new(4, 4);
    f.set(100, 100, Color::rgba(1, 2, 3, 4));
    for x in 0..4 {
        for y in 0..4 {
            assert_eq!(f.get(x, y), Color::rgba(0, 0, 0, 0));
        }
    }
}

#[test]
fn flip_moves_rows() {
    let mut f = Frame::new(3, 4);
    let c = Color::rgba(9, 9, 9, 9);
    f.set(1, 0, c);
    f.flip_vertically();
    assert_eq!(f.get(1, 3), c);
    assert_eq!(f.get(1, 0), Color::rgba(0, 0, 0, 0));
}

#[test]
fn flip_twice_is_identity() {
    let mut f = Frame::new(5, 7);
    for x in 0..5u8 {
        for y in 0..7u8 {
            f.set(x as usize, y as usize, Color::rgba(x * 10, y * 10, x + y, 255));
        }
    }
    let mut g = Frame::new(5, 7);
    for x in 0..5u8 {
        for y in 0..7u8 {
            g.set(x as usize, y as usize, Color::rgba(x * 10, y * 10, x + y, 255));
        }
    }
    f.flip_vertically();
    f.flip_vertically();
    for x in 0..5 {
        for y in 0..7 {
            assert_eq!(f.get(x, y), g.get(x, y));
        }
    }
}

#[test]
fn tga_image_set_get_roundtrip() {
    // Cross-check the behaviour the frame relies on, straight on the
    // underlying crate.
    let mut img = TGAImage::new(4, 4, 4);
    assert!(img.set(2, 1, &TGAColor::rgba(5, 6, 7, 8)));
    match img.get(2, 1) {
        TGAColor::Rgba(c) => {
            assert_eq!((c.r, c.g, c.b, c.a), (5, 6, 7, 8));
        }
        TGAColor::Rgb(_) => panic!("expected an RGBA pixel"),
    }
    assert!(!img.set(4, 0, &TGAColor::rgba(1, 1, 1, 1)));
}

#[test]
fn into_inner_keeps_pixels() {
    let mut f = Frame::new(4, 4);
    f.set(3, 3, Color::rgba(1, 2, 3, 4));
    let img = f.into_inner();
    match img.get(3, 3) {
        TGAColor::Rgba(c) => {
            assert_eq!((c.r, c.g, c.b, c.a), (1, 2, 3, 4));
        }
        TGAColor::Rgb(_) => panic!("expected an RGBA pixel"),
    }
}
