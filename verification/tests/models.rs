use tinyrenderer::Vec2i;
use tinyrenderer::frame::{Color, Frame};
use tinyrenderer::model::{Model, ParseError, RenderError};

fn load(text: &str) -> Result<Model, ParseError> {
    Model::new(&text.as_bytes().to_vec())
}

fn load_err(text: &str) -> ParseError {
    match load(text) {
        Err(e) => e,
        Ok(_) => panic!("expected a parse error"),
    }
}

fn white() -> Color {
    Color::rgba(255, 255, 255, 255)
}

fn blank() -> Color {
    Color::rgba(0, 0, 0, 0)
}

#[test]
fn mesh_load_round_trip() {
    let m = load("v 0.0 0.0 0.0\nv 1.0 0.0 0.0\nv 0.0 1.0 0.0\nf 1 2 3\n").unwrap();
    assert_eq!(m.nverts(), 3);
    assert_eq!(m.nfaces(), 1);
    assert_eq!(m.face(0).clone(), vec![0, 1, 2]);
}

#[test]
fn face_tokens_keep_first_field() {
    let m = load("v 0 0 0\nf 1/2/3 1/4 1//5\n").unwrap();
    assert_eq!(m.face(0).clone(), vec![0, 0, 0]);
}

#[test]
fn vertex_tokens_kept_as_text() {
    let m = load("v 0.5 -1.25 3e2 extra\n").unwrap();
    assert_eq!(m.nverts(), 1);
    let v = m.vert(0);
    assert_eq!(v.x, b"0.5".to_vec());
    assert_eq!(v.y, b"-1.25".to_vec());
    assert_eq!(v.z, b"3e2".to_vec());
}

#[test]
fn other_lines_ignored() {
    let m = load("# comment\nvt 0 0\nvn 1 0 0\ng group\n").unwrap();
    assert_eq!(m.nverts(), 0);
    assert_eq!(m.nfaces(), 0);
}

#[test]
fn crlf_lines_accepted() {
    let m = load("v 1 2 3\r\nf 1 1 1\r\n").unwrap();
    assert_eq!(m.nverts(), 1);
    assert_eq!(m.vert(0).z, b"3".to_vec());
}

#[test]
fn empty_file_loads() {
    let m = load("").unwrap();
    assert_eq!(m.nverts(), 0);
    assert_eq!(m.nfaces(), 0);
}

#[test]
fn missing_vertex_coordinate_is_fatal() {
    assert_eq!(load_err("v 1.0 2.0\n"), ParseError::MissingVertexCoordinate);
}

#[test]
fn bad_face_token_is_fatal() {
    assert_eq!(load_err("f a b c\n"), ParseError::InvalidFaceIndex);
}

#[test]
fn huge_face_index_is_fatal() {
    assert_eq!(load_err("f 99999999999 1 1\n"), ParseError::InvalidFaceIndex);
}

#[test]
fn first_bad_line_wins() {
    assert_eq!(load_err("v 1\nf x\n"), ParseError::MissingVertexCoordinate);
}

#[test]
fn wireframe_draws_edges() {
    let m = load("v 0 0 0\nv 0 0 0\nv 0 0 0\nf 1 2 3\n").unwrap();
    let screen = vec![Vec2i::new(0, 0), Vec2i::new(8, 0), Vec2i::new(0, 8)];
    let mut f = Frame::new(16, 16);
    m.draw_model_with_lines(&screen, &mut f, white()).unwrap();
    assert_eq!(f.get(4, 0), white());
    assert_eq!(f.get(0, 4), white());
    assert_eq!(f.get(4, 4), white());
    assert_eq!(f.get(2, 2), blank());
}

#[test]
fn wireframe_rejects_bad_index() {
    let m = load("f 1 2 9\n").unwrap();
    let screen = vec![Vec2i::new(0, 0), Vec2i::new(8, 0), Vec2i::new(0, 8)];
    let mut f = Frame::new(16, 16);
    let r = m.draw_model_with_lines(&screen, &mut f, white());
    assert_eq!(r.unwrap_err(), RenderError::VertexOutOfRange);
    for x in 0..16 {
        for y in 0..16 {
            assert_eq!(f.get(x, y), blank());
        }
    }
}

#[test]
fn wireframe_rejects_short_face() {
    let m = load("f 1 2\n").unwrap();
    let screen = vec![Vec2i::new(0, 0), Vec2i::new(8, 0)];
    let mut f = Frame::new(16, 16);
    let r = m.draw_model_with_lines(&screen, &mut f, white());
    assert_eq!(r.unwrap_err(), RenderError::FaceTooShort);
}

#[test]
fn culled_face_draws_nothing() {
    let m = load("f 1 2 3\n").unwrap();
    let screen = vec![Vec2i::new(0, 0), Vec2i::new(8, 0), Vec2i::new(0, 8)];
    let shades: Vec<Option<u8>> = vec![None];
    let mut f = Frame::new(16, 16);
    m.triangle_raster(&screen, &shades, &mut f).unwrap();
    for x in 0..16 {
        for y in 0..16 {
            assert_eq!(f.get(x, y), blank());
        }
    }
}

#[test]
fn shaded_face_fills_grey() {
    let m = load("f 1 2 3\n").unwrap();
    let screen = vec![Vec2i::new(0, 0), Vec2i::new(8, 0), Vec2i::new(0, 8)];
    let shades: Vec<Option<u8>> = vec![Some(128)];
    let mut f = Frame::new(16, 16);
    m.triangle_raster(&screen, &shades, &mut f).unwrap();
    assert_eq!(f.get(2, 2), Color::rgba(128, 128, 128, 255));
    assert_eq!(f.get(9, 9), blank());
}

#[test]
fn later_face_overwrites_earlier() {
    let m = load("f 1 2 3\nf 1 2 3\n").unwrap();
    let screen = vec![Vec2i::new(0, 0), Vec2i::new(8, 0), Vec2i::new(0, 8)];
    let shades: Vec<Option<u8>> = vec![Some(10), Some(200)];
    let mut f = Frame::new(16, 16);
    m.triangle_raster(&screen, &shades, &mut f).unwrap();
    assert_eq!(f.get(2, 2), Color::rgba(200, 200, 200, 255));
}
