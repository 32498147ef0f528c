//! The mesh loader: positions, texture coordinates, normals and fan-triangulated
//! faces read from line-oriented mesh text.

use vstd::prelude::*;
use vstd::string::StringSliceAdditionalSpecFns;
use crate::lex::{
    face_vertex_spec, is_float_literal, is_number, parse_face_vertex_bytes, split_tokens,
    tokens, views_of, triangulate_fan, find_byte, find_byte_from,
};

verus! {

/// A point or direction; each coordinate is kept as the floating-point
/// literal it was written as.
pub struct Vec3(pub Vec<u8>, pub Vec<u8>, pub Vec<u8>);

/// A texture coordinate, kept as the two literals it was written as.
pub struct Vec2(pub Vec<u8>, pub Vec<u8>);

/// One corner of a triangle: position index, then optional texture-coordinate
/// and normal indices, all 0-based.
pub type Corner = (u32, Option<u32>, Option<u32>);

pub struct Mesh {
    pub positions: Vec<Vec3>,
    pub texcoords: Vec<Vec2>,
    pub normals: Vec<Vec3>,
    /// Each consecutive group of three corners is one triangle.
    pub indices: Vec<Corner>,
}

pub struct MeshModel {
    pub positions: Seq<(Seq<u8>, Seq<u8>, Seq<u8>)>,
    pub texcoords: Seq<(Seq<u8>, Seq<u8>)>,
    pub normals: Seq<(Seq<u8>, Seq<u8>, Seq<u8>)>,
    pub indices: Seq<Corner>,
}

pub open spec fn vec3_model(p: Vec3) -> (Seq<u8>, Seq<u8>, Seq<u8>) {
    (p.0@, p.1@, p.2@)
}

pub open spec fn vec2_model(p: Vec2) -> (Seq<u8>, Seq<u8>) {
    (p.0@, p.1@)
}

impl View for Mesh {
    type V = MeshModel;

    open spec fn view(&self) -> MeshModel {
        MeshModel {
            positions: self.positions@.map_values(|p: Vec3| vec3_model(p)),
            texcoords: self.texcoords@.map_values(|p: Vec2| vec2_model(p)),
            normals: self.normals@.map_values(|p: Vec3| vec3_model(p)),
            indices: self.indices@,
        }
    }
}

pub open spec fn empty_model() -> MeshModel {
    MeshModel { positions: seq![], texcoords: seq![], normals: seq![], indices: seq![] }
}

/// Whole triangles only, and every index inside the list it refers to.
pub open spec fn model_wf(m: MeshModel) -> bool {
    &&& m.indices.len() % 3 == 0
    &&& forall|k: int|
        0 <= k < m.indices.len() ==> {
            let c = #[trigger] m.indices[k];
            &&& (c.0 as int) < m.positions.len()
            &&& (c.1 matches Some(t) ==> (t as int) < m.texcoords.len())
            &&& (c.2 matches Some(n) ==> (n as int) < m.normals.len())
        }
}

impl Mesh {
    pub fn new() -> (m: Mesh)
        ensures
            m@ == empty_model(),
    {
        let m = Mesh {
            positions: Vec::new(),
            texcoords: Vec::new(),
            normals: Vec::new(),
            indices: Vec::new(),
        };
        assert(m@.positions =~= seq![]);
        assert(m@.texcoords =~= seq![]);
        assert(m@.normals =~= seq![]);
        assert(m@.indices =~= seq![]);
        m
    }

    pub open spec fn wf(&self) -> bool {
        model_wf(self@)
    }
}

#[derive(Clone, Copy, Debug, PartialEq, Eq)]
pub enum ParseErrorKind {
    /// A `v` line without three numeric fields.
    BadPosition,
    /// A `vt` line without two numeric fields.
    BadTexcoord,
    /// A `vn` line without three numeric fields.
    BadNormal,
    /// An `f` line with fewer than three corners.
    TooFewFaceVertices,
    /// An `f` corner that is malformed or refers outside its list.
    BadFaceIndex,
}

/// A fatal error in mesh text, with the 1-based number of the offending line.
#[derive(Clone, Copy, Debug, PartialEq, Eq)]
pub struct ParseError {
    pub line: usize,
    pub kind: ParseErrorKind,
}

pub const NEWLINE: u8 = 10;

pub const HASH: u8 = 35;

/// The corners of a face line, resolved against the lists as they stand.
pub open spec fn face_corner(m: MeshModel, arg: Seq<u8>) -> Option<Corner> {
    face_vertex_spec(arg, m.positions.len() as int, m.texcoords.len() as int, m.normals.len() as int)
}

pub open spec fn face_polygon(m: MeshModel, args: Seq<Seq<u8>>) -> Seq<Corner> {
    Seq::new(
        args.len(),
        |k: int|
            match face_corner(m, args[k]) {
                Some(c) => c,
                None => (0u32, None, None),
            },
    )
}

/// The fan of a polygon, flattened: triangle `t` is corners `3t .. 3t+2`,
/// namely `poly[0], poly[t+1], poly[t+2]`.
pub open spec fn fan_indices(poly: Seq<Corner>) -> Seq<Corner> {
    Seq::new(
        (3 * (poly.len() - 2)) as nat,
        |j: int|
            if j % 3 == 0 {
                poly[0]
            } else if j % 3 == 1 {
                poly[j / 3 + 1]
            } else {
                poly[j / 3 + 2]
            },
    )
}

/// What one line does to the mesh read so far.
pub open spec fn apply_line(m: MeshModel, line: Seq<u8>) -> Result<MeshModel, ParseErrorKind> {
    let toks = tokens(line);
    if toks.len() == 0 || (toks[0].len() > 0 && toks[0][0] == HASH) {
        Ok(m)
    } else if toks[0] == seq![118u8] {
        if toks.len() < 4 || !is_float_literal(toks[1]) || !is_float_literal(toks[2])
            || !is_float_literal(toks[3]) {
            Err(ParseErrorKind::BadPosition)
        } else {
            Ok(MeshModel { positions: m.positions.push((toks[1], toks[2], toks[3])), ..m })
        }
    } else if toks[0] == seq![118u8, 116u8] {
        if toks.len() < 3 || !is_float_literal(toks[1]) || !is_float_literal(toks[2]) {
            Err(ParseErrorKind::BadTexcoord)
        } else {
            Ok(MeshModel { texcoords: m.texcoords.push((toks[1], toks[2])), ..m })
        }
    } else if toks[0] == seq![118u8, 110u8] {
        if toks.len() < 4 || !is_float_literal(toks[1]) || !is_float_literal(toks[2])
            || !is_float_literal(toks[3]) {
            Err(ParseErrorKind::BadNormal)
        } else {
            Ok(MeshModel { normals: m.normals.push((toks[1], toks[2], toks[3])), ..m })
        }
    } else if toks[0] == seq![102u8] {
        let args = toks.drop_first();
        if args.len() < 3 {
            Err(ParseErrorKind::TooFewFaceVertices)
        } else if exists|k: int| 0 <= k < args.len() && (#[trigger] face_corner(m, args[k])) is None {
            Err(ParseErrorKind::BadFaceIndex)
        } else {
            Ok(MeshModel { indices: m.indices + fan_indices(face_polygon(m, args)), ..m })
        }
    } else {
        Ok(m)
    }
}

/// Reads the lines that start at byte `i` (line number `lineno`) on top of `m`.
pub open spec fn parse_from(m: MeshModel, s: Seq<u8>, i: int, lineno: int) -> Result<
    MeshModel,
    ParseError,
>
    decreases s.len() - i,
{
    if i < 0 || i >= s.len() {
        Ok(m)
    } else {
        let e = find_byte(s, NEWLINE, i);
        match apply_line(m, s.subrange(i, e)) {
            Err(kind) => Err(ParseError { line: lineno as usize, kind }),
            Ok(m2) => if e < i || e >= s.len() {
                Ok(m2)
            } else {
                parse_from(m2, s, e + 1, lineno + 1)
            },
        }
    }
}

/// The mesh that the text `s` describes, or its first error.
pub open spec fn parse_spec(s: Seq<u8>) -> Result<MeshModel, ParseError> {
    parse_from(empty_model(), s, 0, 1)
}


fn apply_line_exec(mesh: &mut Mesh, line: &[u8]) -> (r: Result<(), ParseErrorKind>)
    ensures
        match apply_line(old(mesh)@, line@) {
            Ok(m2) => r is Ok && final(mesh)@ == m2,
            Err(k) => r == Err::<(), ParseErrorKind>(k),
        },
{
    let ghost m0 = mesh@;
    let toks = split_tokens(line);
    let ghost tv = views_of(toks@);
    assert(tv == tokens(line@));
    assert(forall|k: int| 0 <= k < toks@.len() ==> #[trigger] tv[k] == toks@[k]@);
    let nt = toks.len();
    if nt == 0 {
        return Ok(());
    }
    let tag = toks[0];
    if tag.len() > 0 && tag[0] == HASH {
        return Ok(());
    }
    let is_v = tag.len() == 1 && tag[0] == 118u8;
    let is_vt = tag.len() == 2 && tag[0] == 118u8 && tag[1] == 116u8;
    let is_vn = tag.len() == 2 && tag[0] == 118u8 && tag[1] == 110u8;
    let is_f = tag.len() == 1 && tag[0] == 102u8;
    proof {
        if is_v {
            assert(tv[0] =~= seq![118u8]);
        }
        if is_vt {
            assert(tv[0] =~= seq![118u8, 116u8]);
        }
        if is_vn {
            assert(tv[0] =~= seq![118u8, 110u8]);
        }
        if is_f {
            assert(tv[0] =~= seq![102u8]);
        }
    }
    if is_v || is_vn {
        if nt < 4 || !is_number(toks[1]) || !is_number(toks[2]) || !is_number(toks[3]) {
            return Err(if is_v { ParseErrorKind::BadPosition } else { ParseErrorKind::BadNormal });
        }
        let p = Vec3(
            vstd::slice::slice_to_vec(toks[1]),
            vstd::slice::slice_to_vec(toks[2]),
            vstd::slice::slice_to_vec(toks[3]),
        );
        if is_v {
            mesh.positions.push(p);
            assert(mesh@.positions =~= m0.positions.push((tv[1], tv[2], tv[3])));
        } else {
            mesh.normals.push(p);
            assert(mesh@.normals =~= m0.normals.push((tv[1], tv[2], tv[3])));
        }
        return Ok(());
    }
    if is_vt {
        if nt < 3 || !is_number(toks[1]) || !is_number(toks[2]) {
            return Err(ParseErrorKind::BadTexcoord);
        }
        let p = Vec2(vstd::slice::slice_to_vec(toks[1]), vstd::slice::slice_to_vec(toks[2]));
        mesh.texcoords.push(p);
        assert(mesh@.texcoords =~= m0.texcoords.push((tv[1], tv[2])));
        return Ok(());
    }
    if !is_f {
        return Ok(());
    }
    if nt < 4 {
        return Err(ParseErrorKind::TooFewFaceVertices);
    }
    let ghost args = tv.drop_first();
    let vlen = mesh.positions.len();
    let vtlen = mesh.texcoords.len();
    let vnlen = mesh.normals.len();
    let mut poly: Vec<Corner> = Vec::new();
    let mut k: usize = 1;
    while k < nt
        invariant
            1 <= k <= nt,
            nt >= 4,
            nt == toks@.len(),
            args == tv.drop_first(),
            tv == tokens(line@),
            tv[0] == seq![102u8],
            tv.len() == nt,
            forall|j: int| 0 <= j < toks@.len() ==> #[trigger] tv[j] == toks@[j]@,
            mesh@ == m0,
            m0 == old(mesh)@,
            vlen == m0.positions.len(),
            vtlen == m0.texcoords.len(),
            vnlen == m0.normals.len(),
            poly@.len() == k - 1,
            forall|j: int| 0 <= j < k - 1 ==> face_corner(m0, #[trigger] args[j]) == Some(poly@[j]),
        decreases nt - k,
    {
        match parse_face_vertex_bytes(toks[k], vlen, vtlen, vnlen) {
            Some(c) => {
                poly.push(c);
            },
            None => {
                assert(tv[k as int] == args[k - 1]);
                assert(face_corner(m0, args[k - 1]) is None);
                assert(0 <= k - 1 < args.len());
                assert(tv[0] != seq![118u8]);
                assert(tv[0] != seq![118u8, 116u8]);
                assert(tv[0] != seq![118u8, 110u8]);

                return Err(ParseErrorKind::BadFaceIndex);
            },
        }
        k = k + 1;
    }
    assert(poly@ =~= face_polygon(m0, args));
    let ghost fan = fan_indices(poly@);
    let tris = triangulate_fan(poly.as_slice());
    let mut t: usize = 0;
    while t < tris.len()
        invariant
            t <= tris@.len(),
            tris@.len() == poly@.len() - 2,
            poly@.len() >= 3,
            fan == fan_indices(poly@),
            forall|q: int|
                0 <= q < tris@.len() ==> (#[trigger] tris@[q])@ == seq![
                    poly@[0],
                    poly@[q + 1],
                    poly@[q + 2],
                ],
            mesh.positions@ == old(mesh).positions@,
            mesh.texcoords@ == old(mesh).texcoords@,
            mesh.normals@ == old(mesh).normals@,
            mesh.indices@ == m0.indices + fan.subrange(0, 3 * t),
        decreases tris@.len() - t,
    {
        let tri = tris[t];
        assert(tri@ == seq![poly@[0], poly@[t + 1], poly@[t + 2]]);
        proof {
            assert((3 * t + 1) / 3 == t);
            assert((3 * t + 2) / 3 == t);
            assert(fan[3 * t] == tri[0]);
            assert(fan[3 * t + 1] == tri[1]);
            assert(fan[3 * t + 2] == tri[2]);
        }
        mesh.indices.push(tri[0]);
        mesh.indices.push(tri[1]);
        mesh.indices.push(tri[2]);
        assert(mesh.indices@ =~= m0.indices + fan.subrange(0, 3 * t + 3));
        t = t + 1;
    }
    assert(fan.subrange(0, 3 * t) =~= fan);
    assert(mesh@.indices == m0.indices + fan_indices(face_polygon(m0, args)));
    Ok(())
}

/// Reads mesh text given as bytes; see `parse_obj`.
pub fn parse_obj_bytes(src: &[u8]) -> (r: Result<Mesh, ParseError>)
    ensures
        match parse_spec(src@) {
            Ok(m) => r matches Ok(mesh) && mesh@ == m,
            Err(e) => r matches Err(e2) && e2 == e,
        },
        r matches Ok(mesh) ==> mesh.wf(),
{
    proof {
        lemma_parse_wf(src@);
    }
    let n = src.len();
    let mut mesh = Mesh::new();
    let mut i: usize = 0;
    let mut lineno: usize = 1;
    while i < n
        invariant
            i <= n,
            n == src@.len(),
            1 <= lineno <= i + 1,
            parse_spec(src@) == parse_from(mesh@, src@, i as int, lineno as int),
        decreases n - i,
    {
        let e = find_byte_from(src, NEWLINE, i);
        let line = vstd::slice::slice_subrange(src, i, e);
        let ghost before = mesh@;
        match apply_line_exec(&mut mesh, line) {
            Err(kind) => {
                return Err(ParseError { line: lineno, kind });
            },
            Ok(()) => {},
        }
        assert(apply_line(before, src@.subrange(i as int, e as int)) == Ok::<MeshModel, ParseErrorKind>(mesh@));
        if e < n && e + 1 < n {
            assert(parse_from(before, src@, i as int, lineno as int) == parse_from(
                mesh@,
                src@,
                e + 1,
                lineno + 1,
            ));
            i = e + 1;
            lineno = lineno + 1;
        } else {
            assert(parse_from(before, src@, i as int, lineno as int) == Ok::<MeshModel, ParseError>(mesh@));
            i = n;
        }
    }
    Ok(mesh)
}

/// Reads mesh text: `v`, `vt` and `vn` lines append to their lists, `f` lines
/// append the fan triangulation of their polygon, blank lines, `#` comments and
/// other tags are skipped. The first malformed line ends the read.
pub fn parse_obj(text: &str) -> (r: Result<Mesh, ParseError>)
    ensures
        match parse_spec(text.spec_bytes()) {
            Ok(m) => r matches Ok(mesh) && mesh@ == m,
            Err(e) => r matches Err(e2) && e2 == e,
        },
        r matches Ok(mesh) ==> mesh.wf(),
{
    parse_obj_bytes(text.as_bytes())
}

proof fn lemma_apply_line_wf(m: MeshModel, line: Seq<u8>)
    requires
        model_wf(m),
    ensures
        apply_line(m, line) matches Ok(m2) ==> model_wf(m2),
{
    let toks = tokens(line);
    if apply_line(m, line) is Ok && toks.len() > 0 && !(toks[0].len() > 0 && toks[0][0] == HASH)
        && toks[0] == seq![102u8] {
        let args = toks.drop_first();
        let poly = face_polygon(m, args);
        let fan = fan_indices(poly);
        let m2 = MeshModel { indices: m.indices + fan, ..m };
        assert forall|j: int| 0 <= j < poly.len() implies {
            let c = #[trigger] poly[j];
            &&& (c.0 as int) < m.positions.len()
            &&& (c.1 matches Some(t) ==> (t as int) < m.texcoords.len())
            &&& (c.2 matches Some(n) ==> (n as int) < m.normals.len())
        } by {
            assert(face_corner(m, args[j]) is Some);
        }
        assert forall|k: int| 0 <= k < fan.len() implies {
            let c = #[trigger] fan[k];
            &&& (c.0 as int) < m.positions.len()
            &&& (c.1 matches Some(t) ==> (t as int) < m.texcoords.len())
            &&& (c.2 matches Some(n) ==> (n as int) < m.normals.len())
        } by {
            assert(0 <= k / 3 < poly.len() - 2);
        }
        assert forall|k: int| 0 <= k < m2.indices.len() implies {
            let c = #[trigger] m2.indices[k];
            &&& (c.0 as int) < m2.positions.len()
            &&& (c.1 matches Some(t) ==> (t as int) < m2.texcoords.len())
            &&& (c.2 matches Some(n) ==> (n as int) < m2.normals.len())
        } by {
            if k >= m.indices.len() {
                assert(m2.indices[k] == fan[k - m.indices.len()]);
            }
        }
    }
}

proof fn lemma_parse_from_wf(m: MeshModel, s: Seq<u8>, i: int, lineno: int)
    requires
        model_wf(m),
    ensures
        parse_from(m, s, i, lineno) matches Ok(m2) ==> model_wf(m2),
    decreases s.len() - i,
{
    if 0 <= i < s.len() {
        let e = find_byte(s, NEWLINE, i);
        lemma_apply_line_wf(m, s.subrange(i, e));
        if let Ok(m2) = apply_line(m, s.subrange(i, e)) {
            if !(e < i || e >= s.len()) {
                lemma_parse_from_wf(m2, s, e + 1, lineno + 1);
            }
        }
    }
}

/// Whatever text is read, a mesh that comes out holds whole triangles only
/// (its index count is a multiple of three), and each index lies inside the
/// list it refers to.
pub proof fn lemma_parse_wf(s: Seq<u8>)
    ensures
        parse_spec(s) matches Ok(m) ==> model_wf(m) && m.indices.len() % 3 == 0,
{
    lemma_parse_from_wf(empty_model(), s, 0, 1);
}

} // verus!
