use tinyrenderer::frame::{Color, Frame};
use tinyrenderer::line::draw_line;

fn white() -> Color {
    Color::rgba(255, 255, 255, 255)
}

fn count_lit(f: &Frame) -> usize {
    let mut n: usize = 0;
    for x in 0..f.width() {
        for y in 0..f.height() {
            if f.get(x, y) != Color::rgba(0, 0, 0, 0) {
                n += 1;
            }
        }
    }
    n
}

#[test]
fn line_symmetry() {
    let mut a = Frame::new(32, 32);
    let mut b = Frame::new(32, 32);
    draw_line(2, 3, 17, 11, &mut a, white());
    draw_line(17, 11, 2, 3, &mut b, white());
    for x in 0..32 {
        for y in 0..32 {
            assert_eq!(a.get(x, y), b.get(x, y));
        }
    }
}

#[test]
fn line_symmetry_steep() {
    let mut a = Frame::new(32, 32);
    let mut b = Frame::new(32, 32);
    draw_line(4, 1, 9, 25, &mut a, white());
    draw_line(9, 25, 4, 1, &mut b, white());
    for x in 0..32 {
        for y in 0..32 {
            assert_eq!(a.get(x, y), b.get(x, y));
        }
    }
}

#[test]
fn line_pixel_count() {
    let mut f = Frame::new(32, 32);
    draw_line(0, 0, 10, 4, &mut f, white());
    assert_eq!(count_lit(&f), 11);
}

#[test]
fn line_pixel_count_steep() {
    let mut f = Frame::new(32, 32);
    draw_line(3, 1, 5, 14, &mut f, white());
    assert_eq!(count_lit(&f), 14);
}

#[test]
fn degenerate_line_single_pixel() {
    let mut f = Frame::new(10, 10);
    draw_line(5, 5, 5, 5, &mut f, white());
    for x in 0..10 {
        for y in 0..10 {
            if x == 5 && y == 5 {
                assert_eq!(f.get(x, y), white());
            } else {
                assert_eq!(f.get(x, y), Color::rgba(0, 0, 0, 0));
            }
        }
    }
}

#[test]
fn line_exact_pixels() {
    let mut f = Frame::new(8, 8);
    draw_line(0, 0, 4, 1, &mut f, white());
    let expected = [(0, 0), (1, 0), (2, 0), (3, 1), (4, 1)];
    for x in 0..8 {
        for y in 0..8 {
            let lit = expected.contains(&(x, y));
            assert_eq!(f.get(x as usize, y as usize) == white(), lit, "at {} {}", x, y);
        }
    }
}

#[test]
fn line_clipped_outside() {
    let mut f = Frame::new(8, 8);
    draw_line(-5, -5, 5, 5, &mut f, white());
    assert_eq!(f.get(0, 0), white());
    assert_eq!(f.get(3, 3), white());
    assert_eq!(f.get(5, 5), white());
    assert_eq!(f.get(6, 6), Color::rgba(0, 0, 0, 0));
}

#[test]
fn line_continuity_no_gaps() {
    let mut f = Frame::new(64, 64);
    draw_line(1, 2, 50, 33, &mut f, white());
    // Walk the columns of the shallow segment: each lit column's pixel must
    // touch the previous column's pixel.
    let mut prev_y: Option<i64> = None;
    for x in 1..=50i64 {
        let mut ys = Vec::new();
        for y in 0..64i64 {
            if f.get(x as usize, y as usize) == white() {
                ys.push(y);
            }
        }
        assert_eq!(ys.len(), 1, "column {} should hold exactly one pixel", x);
        if let Some(py) = prev_y {
            assert!((ys[0] - py).abs() <= 1);
        }
        prev_y = Some(ys[0]);
    }
}
