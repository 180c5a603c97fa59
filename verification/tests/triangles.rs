use tinyrenderer::Vec2i;
use tinyrenderer::frame::{Color, Frame};
use tinyrenderer::triangle::{barycentric, draw_triangle, Barycentric};

fn white() -> Color {
    Color::rgba(255, 255, 255, 255)
}

fn blank() -> Color {
    Color::rgba(0, 0, 0, 0)
}

#[test]
fn triangle_containment() {
    let mut f = Frame::new(16, 16);
    let pts = [Vec2i::new(0, 0), Vec2i::new(10, 0), Vec2i::new(0, 10)];
    draw_triangle(&pts, &mut f, white());
    assert_eq!(f.get(2, 2), white());
    assert_eq!(f.get(9, 9), blank());
}

#[test]
fn triangle_boundary_inclusive() {
    let mut f = Frame::new(16, 16);
    let pts = [Vec2i::new(0, 0), Vec2i::new(10, 0), Vec2i::new(0, 10)];
    draw_triangle(&pts, &mut f, white());
    // Vertices and edge pixels count as inside.
    assert_eq!(f.get(0, 0), white());
    assert_eq!(f.get(10, 0), white());
    assert_eq!(f.get(0, 10), white());
    assert_eq!(f.get(5, 0), white());
    assert_eq!(f.get(5, 5), white());
}

#[test]
fn triangle_degenerate_fills_nothing() {
    let mut f = Frame::new(16, 16);
    let pts = [Vec2i::new(0, 0), Vec2i::new(5, 5), Vec2i::new(10, 10)];
    draw_triangle(&pts, &mut f, white());
    for x in 0..16 {
        for y in 0..16 {
            assert_eq!(f.get(x, y), blank());
        }
    }
}

#[test]
fn triangle_clamped_to_frame() {
    let mut f = Frame::new(8, 8);
    let pts = [Vec2i::new(-10, -10), Vec2i::new(30, -10), Vec2i::new(-10, 30)];
    draw_triangle(&pts, &mut f, white());
    // The whole small frame lies inside this big triangle.
    for x in 0..8 {
        for y in 0..8 {
            assert_eq!(f.get(x, y), white());
        }
    }
}

#[test]
fn barycentric_partition_of_unity() {
    let pts = [Vec2i::new(0, 0), Vec2i::new(10, 0), Vec2i::new(0, 10)];
    match barycentric(&pts, &Vec2i::new(2, 2)) {
        Barycentric::Coords { n0, n1, n2, den } => {
            assert_eq!(n0 + n1 + n2, den);
            assert!(den != 0);
            // All three coordinates are non-negative for an inside point.
            assert!(n0 * den >= 0);
            assert!(n1 * den >= 0);
            assert!(n2 * den >= 0);
        }
        Barycentric::Degenerate => panic!("triangle is not degenerate"),
    }
    assert!(barycentric(&pts, &Vec2i::new(2, 2)).is_inside());
}

#[test]
fn barycentric_outside_point() {
    let pts = [Vec2i::new(0, 0), Vec2i::new(10, 0), Vec2i::new(0, 10)];
    let bc = barycentric(&pts, &Vec2i::new(9, 9));
    assert!(!bc.is_inside());
    match bc {
        Barycentric::Coords { n0, n1, n2, den } => {
            assert_eq!(n0 + n1 + n2, den);
        }
        Barycentric::Degenerate => panic!("triangle is not degenerate"),
    }
}

#[test]
fn barycentric_degenerate_outcome() {
    let pts = [Vec2i::new(0, 0), Vec2i::new(5, 5), Vec2i::new(10, 10)];
    assert!(matches!(barycentric(&pts, &Vec2i::new(1, 1)), Barycentric::Degenerate));
    assert!(!barycentric(&pts, &Vec2i::new(1, 1)).is_inside());
}
