//! The mesh model: vertex and face lists read from the line-oriented text
//! format, and the per-face drawing passes over projected screen
//! coordinates.
//!
//! A vertex line `v x y z` keeps its three coordinate tokens as text: the
//! verified core works on the mesh's structure, while the numeric
//! (floating-point) interpretation of the coordinates belongs to the caller.
//! A face line `f a b c ...` reads the first `/`-field of each token as a
//! 1-based index and stores it 0-based.

use vstd::prelude::*;
use crate::Vec2i;
use crate::frame::{Color, Frame};
use crate::line::{draw_line, line_seq};
use crate::parse::{
    first_field,
    parse_i32,
    spec_first_field,
    spec_lines,
    spec_parse_i32,
    spec_tokens,
    split_lines,
    tokenize,
};
use crate::triangle::{draw_triangle, tri_covers};

verus! {

/// The three coordinate tokens of a vertex line, kept as text.
pub struct VertexText {
    pub x: Vec<u8>,
    pub y: Vec<u8>,
    pub z: Vec<u8>,
}

impl View for VertexText {
    type V = (Seq<u8>, Seq<u8>, Seq<u8>);

    open spec fn view(&self) -> (Seq<u8>, Seq<u8>, Seq<u8>) {
        (self.x@, self.y@, self.z@)
    }
}

/// Why a mesh file is rejected.
#[derive(Debug, Clone, Copy, PartialEq, Eq, Structural)]
pub enum ParseError {
    /// A vertex line has fewer than three coordinate tokens after `v`.
    MissingVertexCoordinate,
    /// A face token does not read as an index that fits the index type.
    InvalidFaceIndex,
}

/// Why a draw pass over a model's faces is rejected.
#[derive(Debug, Clone, Copy, PartialEq, Eq, Structural)]
pub enum RenderError {
    /// A face has fewer than three vertex indices.
    FaceTooShort,
    /// A face index does not name a screen vertex.
    VertexOutOfRange,
}

/// Whether a line is a vertex line: it begins with `v` and a space.
pub open spec fn starts_with_v(line: Seq<u8>) -> bool {
    line.len() >= 2 && line[0] == 118 && line[1] == 32
}

/// Whether a line is a face line: it begins with `f` and a space.
pub open spec fn starts_with_f(line: Seq<u8>) -> bool {
    line.len() >= 2 && line[0] == 102 && line[1] == 32
}

/// The 0-based indices read from the face tokens from position `j` on: each
/// token's first `/`-field as a 1-based integer, less one; `None` when a
/// token does not read as such an index.
pub open spec fn face_rec(toks: Seq<Seq<u8>>, j: int) -> Option<Seq<int>>
    decreases toks.len() - j,
{
    if j < 0 || j >= toks.len() {
        Some(Seq::empty())
    } else {
        match spec_parse_i32(spec_first_field(toks[j])) {
            Option::None => None,
            Option::Some(v) => if v - 1 < -0x8000_0000 {
                None
            } else {
                match face_rec(toks, j + 1) {
                    Option::None => None,
                    Option::Some(rest) => Some(seq![v - 1] + rest),
                }
            },
        }
    }
}

/// What the loader makes of the first `i` lines: the vertex records and the
/// face index lists in order, or the error of the first bad line.
pub open spec fn parse_upto(lines: Seq<Seq<u8>>, i: int) -> Result<
    (Seq<(Seq<u8>, Seq<u8>, Seq<u8>)>, Seq<Seq<int>>),
    ParseError,
>
    decreases i,
{
    if i <= 0 {
        Ok((Seq::empty(), Seq::empty()))
    } else {
        match parse_upto(lines, i - 1) {
            Result::Err(e) => Err(e),
            Result::Ok((vs, fs)) => {
                let line = lines[i - 1];
                if starts_with_v(line) {
                    let toks = spec_tokens(line);
                    if toks.len() < 4 {
                        Err(ParseError::MissingVertexCoordinate)
                    } else {
                        Ok((vs.push((toks[1], toks[2], toks[3])), fs))
                    }
                } else if starts_with_f(line) {
                    match face_rec(spec_tokens(line), 1) {
                        Option::None => Err(ParseError::InvalidFaceIndex),
                        Option::Some(idx) => Ok((vs, fs.push(idx))),
                    }
                } else {
                    Ok((vs, fs))
                }
            },
        }
    }
}

/// What the loader makes of a whole mesh file.
pub open spec fn spec_parse_model(data: Seq<u8>) -> Result<
    (Seq<(Seq<u8>, Seq<u8>, Seq<u8>)>, Seq<Seq<int>>),
    ParseError,
> {
    parse_upto(spec_lines(data), spec_lines(data).len() as int)
}

/// Once a line has failed, the lines after it change nothing.
proof fn lemma_parse_err_persists(lines: Seq<Seq<u8>>, i: int, j: int)
    requires
        0 <= i <= j,
        parse_upto(lines, i) is Err,
    ensures
        parse_upto(lines, j) == parse_upto(lines, i),
    decreases j - i,
{
    if j > i {
        lemma_parse_err_persists(lines, i, j - 1);
    }
}

/// Whether a face names three screen vertices among `n`.
pub open spec fn face_ok(fc: Seq<int>, n: int) -> bool {
    &&& fc.len() >= 3
    &&& 0 <= fc[0] < n
    &&& 0 <= fc[1] < n
    &&& 0 <= fc[2] < n
}

/// The outcome of checking the faces from position `i` on against `n`
/// screen vertices: the error of the first bad face, if any.
pub open spec fn spec_validate(faces: Seq<Seq<int>>, n: int, i: int) -> Result<(), RenderError>
    decreases faces.len() - i,
{
    if i < 0 || i >= faces.len() {
        Ok(())
    } else if faces[i].len() < 3 {
        Err(RenderError::FaceTooShort)
    } else if !(0 <= faces[i][0] < n && 0 <= faces[i][1] < n && 0 <= faces[i][2] < n) {
        Err(RenderError::VertexOutOfRange)
    } else {
        spec_validate(faces, n, i + 1)
    }
}

/// A validation that succeeds has found every face well-formed.
proof fn lemma_validate_ok(faces: Seq<Seq<int>>, n: int, i: int)
    requires
        spec_validate(faces, n, i) is Ok,
        0 <= i,
    ensures
        forall|j: int| i <= j < faces.len() ==> face_ok(#[trigger] faces[j], n),
    decreases faces.len() - i,
{
    if i < faces.len() {
        lemma_validate_ok(faces, n, i + 1);
    }
}

/// The projected screen points as pairs of integers.
pub open spec fn screen_view(screen: Seq<Vec2i>) -> Seq<(int, int)> {
    screen.map_values(|v: Vec2i| v@)
}

/// The `j`-th edge of a face: consecutive vertices, closing back to the
/// first.
pub open spec fn face_edge(fc: Seq<int>, j: int) -> (int, int) {
    if j == 0 {
        (fc[0], fc[1])
    } else if j == 1 {
        (fc[1], fc[2])
    } else {
        (fc[2], fc[0])
    }
}

/// Whether the segment between the two screen points an edge names holds
/// the pixel `q`.
pub open spec fn edge_has(sc: Seq<(int, int)>, e: (int, int), q: (int, int)) -> bool {
    line_seq(sc[e.0].0, sc[e.0].1, sc[e.1].0, sc[e.1].1).contains(q)
}

/// Whether some edge of the first `upto` faces holds the pixel `q`.
pub open spec fn wire_covers(
    faces: Seq<Seq<int>>,
    sc: Seq<(int, int)>,
    upto: int,
    q: (int, int),
) -> bool {
    exists|i: int, j: int|
        0 <= i < upto && 0 <= j < 3 && #[trigger] edge_has(sc, face_edge(faces[i], j), q)
}

/// Drawing the three edges of one more face extends the covered pixels by
/// exactly that face's edges.
proof fn lemma_wire_step(fv: Seq<Seq<int>>, sc: Seq<(int, int)>, i: int, q: (int, int))
    requires
        0 <= i < fv.len(),
    ensures
        wire_covers(fv, sc, i + 1, q) <==> (wire_covers(fv, sc, i, q) || edge_has(
            sc,
            face_edge(fv[i], 0),
            q,
        ) || edge_has(sc, face_edge(fv[i], 1), q) || edge_has(sc, face_edge(fv[i], 2), q)),
{
    if wire_covers(fv, sc, i + 1, q) {
        let (ii, jj) = choose|ii: int, jj: int|
            0 <= ii < i + 1 && 0 <= jj < 3 && #[trigger] edge_has(sc, face_edge(fv[ii], jj), q);
        if ii < i {
            assert(wire_covers(fv, sc, i, q));
        } else {
            assert(jj == 0 || jj == 1 || jj == 2);
        }
    }
    if wire_covers(fv, sc, i, q) {
        let (ii, jj) = choose|ii: int, jj: int|
            0 <= ii < i && 0 <= jj < 3 && #[trigger] edge_has(sc, face_edge(fv[ii], jj), q);
        assert(wire_covers(fv, sc, i + 1, q));
    }
    if edge_has(sc, face_edge(fv[i], 0), q) {
        assert(wire_covers(fv, sc, i + 1, q));
    }
    if edge_has(sc, face_edge(fv[i], 1), q) {
        assert(wire_covers(fv, sc, i + 1, q));
    }
    if edge_has(sc, face_edge(fv[i], 2), q) {
        assert(wire_covers(fv, sc, i + 1, q));
    }
}

/// The four channels of the flat grey a shading level gives: the level on
/// each colour channel, alpha fully opaque.
pub open spec fn shade_color(s: u8) -> (u8, u8, u8, u8) {
    (s, s, s, 255)
}

/// The grid after filling one face over `m` with shading level `s`.
pub open spec fn paint_face(
    m: Map<(int, int), (u8, u8, u8, u8)>,
    sc: Seq<(int, int)>,
    fc: Seq<int>,
    w: int,
    h: int,
    s: u8,
) -> Map<(int, int), (u8, u8, u8, u8)> {
    Map::new(
        |q: (int, int)| m.dom().contains(q),
        |q: (int, int)|
            if tri_covers(sc[fc[0]], sc[fc[1]], sc[fc[2]], w, h, q) {
                shade_color(s)
            } else {
                m[q]
            },
    )
}

/// The grid after the filled pass over the first `i` faces: each face with a
/// shading level is filled over what came before it, in face order; a culled
/// face (no level) is skipped.
pub open spec fn raster_upto(
    m0: Map<(int, int), (u8, u8, u8, u8)>,
    faces: Seq<Seq<int>>,
    sc: Seq<(int, int)>,
    shades: Seq<Option<u8>>,
    w: int,
    h: int,
    i: int,
) -> Map<(int, int), (u8, u8, u8, u8)>
    decreases i,
{
    if i <= 0 {
        m0
    } else {
        let m = raster_upto(m0, faces, sc, shades, w, h, i - 1);
        match shades[i - 1] {
            Option::None => m,
            Option::Some(s) => paint_face(m, sc, faces[i - 1], w, h, s),
        }
    }
}

/// Backface culling: a face whose shading intensity was not positive is
/// handed to the filled pass without a shading level, and such a face draws
/// no pixel at all — the grid after it is the grid before it.
pub proof fn lemma_culled_face_draws_nothing(
    m0: Map<(int, int), (u8, u8, u8, u8)>,
    faces: Seq<Seq<int>>,
    sc: Seq<(int, int)>,
    shades: Seq<Option<u8>>,
    w: int,
    h: int,
    i: int,
)
    requires
        0 < i,
        shades[i - 1] is None,
    ensures
        raster_upto(m0, faces, sc, shades, w, h, i) == raster_upto(
            m0,
            faces,
            sc,
            shades,
            w,
            h,
            i - 1,
        ),
{
}

/// The views of a list of vertex records.
pub open spec fn vt_view_seq(vs: Seq<VertexText>) -> Seq<(Seq<u8>, Seq<u8>, Seq<u8>)> {
    vs.map_values(|t: VertexText| t@)
}

/// One face's stored indices as integers.
pub open spec fn idx_view_seq(f: Seq<i32>) -> Seq<int> {
    f.map_values(|x: i32| x as int)
}

/// The views of a list of faces.
pub open spec fn faces_view_seq(fs: Seq<Vec<i32>>) -> Seq<Seq<int>> {
    fs.map_values(|f: Vec<i32>| idx_view_seq(f@))
}

/// A triangle mesh: the vertex records and the face index lists, in file
/// order, immutable once loaded.
pub struct Model {
    verts: Vec<VertexText>,
    faces: Vec<Vec<i32>>,
}

impl Model {
    /// The vertex records, as triples of coordinate tokens.
    pub closed spec fn verts_view(self) -> Seq<(Seq<u8>, Seq<u8>, Seq<u8>)> {
        vt_view_seq(self.verts@)
    }

    /// The face index lists.
    pub closed spec fn faces_view(self) -> Seq<Seq<int>> {
        faces_view_seq(self.faces@)
    }

    /// Load a mesh from the bytes of its file: `v` lines give vertices, `f`
    /// lines give faces, every other line is ignored; the first malformed
    /// line is the error.
    #[verifier::loop_isolation(false)]
    #[verifier::rlimit(100)]
    pub fn new(data: &Vec<u8>) -> (r: Result<Model, ParseError>)
        ensures
            ({
                match spec_parse_model(data@) {
                    Result::Ok(vf) => r matches Ok(m) && m.verts_view() == vf.0 && m.faces_view()
                        == vf.1,
                    Result::Err(e) => r matches Err(e2) && e2 == e,
                }
            }),
    {
        let ghost glines = spec_lines(data@);
        let lines = split_lines(data);
        let mut verts: Vec<VertexText> = Vec::new();
        let mut faces: Vec<Vec<i32>> = Vec::new();
        let mut i: usize = 0;
        proof {
            assert(vt_view_seq(verts@) =~= Seq::<(Seq<u8>, Seq<u8>, Seq<u8>)>::empty());
            assert(faces_view_seq(faces@) =~= Seq::<Seq<int>>::empty());
        }
        while i < lines.len()
            invariant
                i <= lines@.len(),
                lines.deep_view() == glines,
                glines.len() == lines@.len(),
                parse_upto(glines, i as int) == Result::<
                    (Seq<(Seq<u8>, Seq<u8>, Seq<u8>)>, Seq<Seq<int>>),
                    ParseError,
                >::Ok((vt_view_seq(verts@), faces_view_seq(faces@))),
            decreases lines@.len() - i,
        {
            let ghost gline = glines[i as int];
            let ghost gvs = vt_view_seq(verts@);
            let ghost gfs = faces_view_seq(faces@);
            proof {
                assert(lines.deep_view()[i as int] =~= lines@[i as int]@);
            }
            let line = &lines[i];
            let is_v = line.len() >= 2 && line[0] == 118 && line[1] == 32;
            let is_f = !is_v && line.len() >= 2 && line[0] == 102 && line[1] == 32;
            if is_v {
                let mut toks = tokenize(line);
                let ghost gtoks = spec_tokens(gline);
                proof {
                    assert(toks@.len() == gtoks.len());
                }
                if toks.len() < 4 {
                    proof {
                        lemma_parse_err_persists(glines, i as int + 1, glines.len() as int);
                    }
                    return Err(ParseError::MissingVertexCoordinate);
                }
                let ghost gt = toks@;
                let x = toks.remove(1);
                let y = toks.remove(1);
                let z = toks.remove(1);
                proof {
                    assert(toks@ == gt.remove(1).remove(1).remove(1));
                    assert(gt.remove(1)[1] == gt[2]);
                    assert(gt.remove(1).remove(1)[1] == gt.remove(1)[2]);
                    assert(gt.remove(1)[2] == gt[3]);
                    assert(x@ =~= gtoks[1]);
                    assert(y@ =~= gtoks[2]);
                    assert(z@ =~= gtoks[3]);
                }
                verts.push(VertexText { x, y, z });
                proof {
                    assert(vt_view_seq(verts@) =~= gvs.push((gtoks[1], gtoks[2], gtoks[3])));
                }
            } else if is_f {
                let toks = tokenize(line);
                let ghost gtoks = spec_tokens(gline);
                let mut idxs: Vec<i32> = Vec::new();
                let mut j: usize = 1;
                proof {
                    assert(idx_view_seq(idxs@) =~= Seq::<int>::empty());
                    match face_rec(gtoks, 1) {
                        Option::Some(rest0) => {
                            assert(Seq::<int>::empty() + rest0 =~= rest0);
                        },
                        Option::None => {},
                    }
                }
                while j < toks.len()
                    invariant
                        1 <= j,
                        j <= toks@.len() || j == 1,
                        toks.deep_view() == gtoks,
                        face_rec(gtoks, 1) == (match face_rec(gtoks, j as int) {
                            Option::None => Option::<Seq<int>>::None,
                            Option::Some(rest) => Option::Some(idx_view_seq(idxs@) + rest),
                        }),
                    decreases toks@.len() - j,
                {
                    proof {
                        assert(toks.deep_view()[j as int] =~= toks@[j as int]@);
                    }
                    let ff = first_field(&toks[j]);
                    let pr = parse_i32(&ff);
                    let bad = match pr {
                        Option::None => true,
                        Option::Some(v) => v == -0x8000_0000,
                    };
                    if bad {
                        proof {
                            assert(face_rec(gtoks, j as int) is None);
                            lemma_parse_err_persists(glines, i as int + 1, glines.len() as int);
                        }
                        return Err(ParseError::InvalidFaceIndex);
                    }
                    let v = match pr {
                        Option::Some(v) => v,
                        Option::None => 0,
                    };
                    let ghost gidx = idx_view_seq(idxs@);
                    idxs.push(v - 1);
                    proof {
                        assert(idx_view_seq(idxs@) =~= gidx.push(v - 1));
                        match face_rec(gtoks, j as int + 1) {
                            Option::Some(rest) => {
                                assert(face_rec(gtoks, j as int) == Option::<Seq<int>>::Some(
                                    seq![v - 1 as int] + rest,
                                ));
                                assert(gidx + (seq![v - 1 as int] + rest) =~= gidx.push(v - 1)
                                    + rest);
                            },
                            Option::None => {
                                assert(face_rec(gtoks, j as int) is None);
                            },
                        }
                    }
                    j = j + 1;
                }
                proof {
                    assert(face_rec(gtoks, j as int) == Option::<Seq<int>>::Some(
                        Seq::<int>::empty(),
                    ));
                    assert(idx_view_seq(idxs@) + Seq::<int>::empty() =~= idx_view_seq(idxs@));
                }
                let ghost gidx = idx_view_seq(idxs@);
                faces.push(idxs);
                proof {
                    assert(faces_view_seq(faces@) =~= gfs.push(gidx));
                }
            }
            i = i + 1;
        }
        Ok(Model { verts, faces })
    }

    /// The number of vertices.
    pub fn nverts(&self) -> (n: usize)
        ensures
            n == self.verts_view().len(),
    {
        self.verts.len()
    }

    /// The number of faces.
    pub fn nfaces(&self) -> (n: usize)
        ensures
            n == self.faces_view().len(),
    {
        self.faces.len()
    }

    /// The `i`-th vertex record.
    pub fn vert(&self, i: usize) -> (v: &VertexText)
        requires
            i < self.verts_view().len(),
        ensures
            v@ == self.verts_view()[i as int],
    {
        &self.verts[i]
    }

    /// The `idx`-th face's index list.
    pub fn face(&self, idx: usize) -> (f: &Vec<i32>)
        requires
            idx < self.faces_view().len(),
        ensures
            idx_view_seq(f@) == self.faces_view()[idx as int],
    {
        &self.faces[idx]
    }

    /// Check every face against `n` screen vertices, reporting the first bad
    /// one.
    #[verifier::loop_isolation(false)]
    pub fn validate_faces(&self, n: usize) -> (r: Result<(), RenderError>)
        ensures
            r == spec_validate(self.faces_view(), n as int, 0),
    {
        let ghost fv = self.faces_view();
        let mut i: usize = 0;
        while i < self.faces.len()
            invariant
                i <= self.faces@.len(),
                spec_validate(fv, n as int, 0) == spec_validate(fv, n as int, i as int),
            decreases self.faces@.len() - i,
        {
            let f = &self.faces[i];
            proof {
                assert(fv[i as int] == idx_view_seq(f@));
                assert(fv[i as int].len() == f@.len());
            }
            if f.len() < 3 {
                return Err(RenderError::FaceTooShort);
            }
            let a = f[0];
            let b = f[1];
            let c = f[2];
            proof {
                assert(fv[i as int][0] == a as int);
                assert(fv[i as int][1] == b as int);
                assert(fv[i as int][2] == c as int);
            }
            if a < 0 || a as usize >= n || b < 0 || b as usize >= n || c < 0 || c as usize >= n {
                return Err(RenderError::VertexOutOfRange);
            }
            i = i + 1;
        }
        Ok(())
    }

    /// Wireframe pass: draw the three edges of every face with one colour,
    /// from the projected screen points; no culling and no shading. On an
    /// ill-formed face nothing is drawn at all.
    #[verifier::loop_isolation(false)]
    #[verifier::rlimit(100)]
    pub fn draw_model_with_lines(
        &self,
        screen: &Vec<Vec2i>,
        frame: &mut Frame,
        color: Color,
    ) -> (r: Result<(), RenderError>)
        requires
            old(frame).wf(),
        ensures
            final(frame).wf(),
            final(frame).w() == old(frame).w(),
            final(frame).h() == old(frame).h(),
            final(frame).pix().dom() == old(frame).pix().dom(),
            r == spec_validate(self.faces_view(), screen@.len() as int, 0),
            r is Err ==> final(frame).pix() == old(frame).pix(),
            r is Ok ==> forall|q: (int, int)| #[trigger]
                final(frame).pix().dom().contains(q) ==> final(frame).pix()[q] == if wire_covers(
                    self.faces_view(),
                    screen_view(screen@),
                    self.faces_view().len() as int,
                    q,
                ) {
                    color@
                } else {
                    old(frame).pix()[q]
                },
    {
        let n = screen.len();
        let valid = self.validate_faces(n);
        match valid {
            Err(e) => {
                return Err(e);
            },
            Ok(u) => {
                proof {
                    assert(valid == Ok::<(), RenderError>(u));
                }
            },
        }
        proof {
            lemma_validate_ok(self.faces_view(), n as int, 0);
            frame.lemma_wf_dom();
        }
        let ghost fv = self.faces_view();
        let ghost sc = screen_view(screen@);
        let ghost pix0 = frame.pix();
        let ghost w0 = frame.w();
        let ghost h0 = frame.h();
        let mut i: usize = 0;
        while i < self.faces.len()
            invariant
                i <= self.faces@.len(),
                frame.wf(),
                frame.w() == w0,
                frame.h() == h0,
                frame.pix().dom() == pix0.dom(),
                forall|q: (int, int)| #[trigger]
                    pix0.dom().contains(q) ==> frame.pix()[q] == if wire_covers(
                        fv,
                        sc,
                        i as int,
                        q,
                    ) {
                        color@
                    } else {
                        pix0[q]
                    },
            decreases self.faces@.len() - i,
        {
            let f = &self.faces[i];
            proof {
                assert(fv[i as int] == idx_view_seq(f@));
                assert(face_ok(fv[i as int], n as int));
                assert(fv[i as int][0] == f@[0] as int);
                assert(fv[i as int][1] == f@[1] as int);
                assert(fv[i as int][2] == f@[2] as int);
            }
            let ia = f[0] as usize;
            let ib = f[1] as usize;
            let ic = f[2] as usize;
            let p0 = screen[ia];
            let p1 = screen[ib];
            let p2 = screen[ic];
            proof {
                assert(sc[fv[i as int][0]] == p0@);
                assert(sc[fv[i as int][1]] == p1@);
                assert(sc[fv[i as int][2]] == p2@);
            }
            let ghost pix_a = frame.pix();
            draw_line(p0.x, p0.y, p1.x, p1.y, frame, color);
            let ghost pix_b = frame.pix();
            draw_line(p1.x, p1.y, p2.x, p2.y, frame, color);
            let ghost pix_c = frame.pix();
            draw_line(p2.x, p2.y, p0.x, p0.y, frame, color);
            proof {
                assert forall|q: (int, int)| #[trigger] pix0.dom().contains(q) implies frame.pix()[q]
                    == if wire_covers(fv, sc, i as int + 1, q) {
                    color@
                } else {
                    pix0[q]
                } by {
                    lemma_wire_step(fv, sc, i as int, q);
                    assert(pix_b.dom().contains(q));
                    assert(pix_c.dom().contains(q));
                    assert(frame.pix().dom().contains(q));
                    assert(edge_has(sc, face_edge(fv[i as int], 0), q) == line_seq(
                        p0.x as int,
                        p0.y as int,
                        p1.x as int,
                        p1.y as int,
                    ).contains(q));
                    assert(edge_has(sc, face_edge(fv[i as int], 1), q) == line_seq(
                        p1.x as int,
                        p1.y as int,
                        p2.x as int,
                        p2.y as int,
                    ).contains(q));
                    assert(edge_has(sc, face_edge(fv[i as int], 2), q) == line_seq(
                        p2.x as int,
                        p2.y as int,
                        p0.x as int,
                        p0.y as int,
                    ).contains(q));
                }
            }
            i = i + 1;
        }
        Ok(())
    }

    /// Filled pass: for each face with a shading level, fill its triangle
    /// over the projected screen points with the flat grey of that level, in
    /// face order; a culled face (no level) draws nothing. On an ill-formed
    /// face nothing is drawn at all.
    ///
    /// `shades` holds one entry per face: the caller's shading step hands a
    /// level only to the faces it did not cull.
    #[verifier::loop_isolation(false)]
    #[verifier::rlimit(100)]
    pub fn triangle_raster(
        &self,
        screen: &Vec<Vec2i>,
        shades: &Vec<Option<u8>>,
        frame: &mut Frame,
    ) -> (r: Result<(), RenderError>)
        requires
            old(frame).wf(),
            shades@.len() == self.faces_view().len(),
        ensures
            final(frame).wf(),
            final(frame).w() == old(frame).w(),
            final(frame).h() == old(frame).h(),
            final(frame).pix().dom() == old(frame).pix().dom(),
            r == spec_validate(self.faces_view(), screen@.len() as int, 0),
            r is Err ==> final(frame).pix() == old(frame).pix(),
            r is Ok ==> final(frame).pix() == raster_upto(
                old(frame).pix(),
                self.faces_view(),
                screen_view(screen@),
                shades@,
                old(frame).w(),
                old(frame).h(),
                self.faces_view().len() as int,
            ),
    {
        let n = screen.len();
        let valid = self.validate_faces(n);
        match valid {
            Err(e) => {
                return Err(e);
            },
            Ok(u) => {
                proof {
                    assert(valid == Ok::<(), RenderError>(u));
                }
            },
        }
        proof {
            lemma_validate_ok(self.faces_view(), n as int, 0);
            frame.lemma_wf_dom();
        }
        let ghost fv = self.faces_view();
        let ghost sc = screen_view(screen@);
        let ghost pix0 = frame.pix();
        let ghost w0 = frame.w();
        let ghost h0 = frame.h();
        let mut i: usize = 0;
        while i < self.faces.len()
            invariant
                i <= self.faces@.len(),
                frame.wf(),
                frame.w() == w0,
                frame.h() == h0,
                frame.pix().dom() == pix0.dom(),
                frame.pix() == raster_upto(pix0, fv, sc, shades@, w0, h0, i as int),
            decreases self.faces@.len() - i,
        {
            match shades[i] {
                Option::None => {
                },
                Option::Some(s) => {
                    let f = &self.faces[i];
                    proof {
                        assert(fv[i as int] == idx_view_seq(f@));
                        assert(face_ok(fv[i as int], n as int));
                        assert(fv[i as int][0] == f@[0] as int);
                        assert(fv[i as int][1] == f@[1] as int);
                        assert(fv[i as int][2] == f@[2] as int);
                    }
                    let ia = f[0] as usize;
                    let ib = f[1] as usize;
                    let ic = f[2] as usize;
                    let pts = [screen[ia], screen[ib], screen[ic]];
                    let c = Color::rgba(s, s, s, 255);
                    proof {
                        assert(pts[0]@ == sc[fv[i as int][0]]);
                        assert(pts[1]@ == sc[fv[i as int][1]]);
                        assert(pts[2]@ == sc[fv[i as int][2]]);
                    }
                    let ghost pix_a = frame.pix();
                    draw_triangle(&pts, frame, c);
                    proof {
                        assert(frame.pix() =~= paint_face(pix_a, sc, fv[i as int], w0, h0, s));
                    }
                },
            }
            i = i + 1;
        }
        Ok(())
    }
}

} // verus!
