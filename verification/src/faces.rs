//! Face traversal, naive fan triangulation and per-corner reindexing, built on
//! `topology.face_offsets`.

use crate::error::TopolyxError;
use crate::file::Mesh;
use crate::grouped::{flat_as, grouped_as, is_grouping, spec_f32_flat, spec_u32_flat};
use crate::util::{first_in, is_first, lemma_first_in_none, lemma_first_in_props, lemma_first_in_some};
use vstd::prelude::*;
use vstd::slice::slice_subrange;

verus! {

/// Number of triangles a fan over a polygon of `n` corners has.
pub open spec fn tri_count(n: int) -> int {
    if n < 3 {
        0
    } else {
        n - 2
    }
}

/// The first `t` fan triangles of the polygon `vs`, flattened: `vs[0], vs[i + 1], vs[i + 2]`
/// for each `i < t`.
pub open spec fn fan_vertices(vs: Seq<u32>, t: int) -> Seq<u32>
    decreases t,
{
    if t <= 0 {
        Seq::empty()
    } else {
        fan_vertices(vs, t - 1) + seq![vs[0], vs[t], vs[t + 1]]
    }
}

/// The first `t` fan triangles of a face whose corners start at corner index `s`, as corner
/// indices: `s, s + i + 1, s + i + 2` for each `i < t`.
pub open spec fn fan_corners(s: int, t: int) -> Seq<u32>
    decreases t,
{
    if t <= 0 {
        Seq::empty()
    } else {
        fan_corners(s, t - 1) + seq![s as u32, (s + t) as u32, (s + t + 1) as u32]
    }
}

/// The corner range of face `f` has at least 3 corners once it is read as `[fo[f], fo[f + 1])`.
pub open spec fn face_tri_count(fo: Seq<u32>, f: int) -> int {
    tri_count(fo[f + 1] - fo[f])
}

/// Fan triangles (vertex indices) of faces `0..f`, flattened.
pub open spec fn mesh_fan_vertices(fo: Seq<u32>, cv: Seq<u32>, f: int) -> Seq<u32>
    decreases f,
{
    if f <= 0 {
        Seq::empty()
    } else {
        mesh_fan_vertices(fo, cv, f - 1) + fan_vertices(
            cv.subrange(fo[f - 1] as int, fo[f] as int),
            face_tri_count(fo, f - 1),
        )
    }
}

/// Fan triangles (corner indices) of faces `0..f`, flattened.
pub open spec fn mesh_fan_corners(fo: Seq<u32>, f: int) -> Seq<u32>
    decreases f,
{
    if f <= 0 {
        Seq::empty()
    } else {
        mesh_fan_corners(fo, f - 1) + fan_corners(fo[f - 1] as int, face_tri_count(fo, f - 1))
    }
}

/// For each fan triangle of faces `0..f`, the face it comes from.
pub open spec fn mesh_fan_faces(fo: Seq<u32>, f: int) -> Seq<u32>
    decreases f,
{
    if f <= 0 {
        Seq::empty()
    } else {
        mesh_fan_faces(fo, f - 1) + Seq::new(face_tri_count(fo, f - 1) as nat, |i: int| (f - 1) as u32)
    }
}

/// Number of faces `face_offsets` describes (its length less one, at least zero).
pub open spec fn face_count(fo: Seq<u32>) -> int {
    if fo.len() == 0 {
        0
    } else {
        fo.len() - 1
    }
}

/// Every face's corner range `[fo[f], fo[f + 1])` is ordered and lies inside both corner
/// arrays.
pub open spec fn face_ranges_ok(fo: Seq<u32>, cv_len: int, ce_len: int) -> bool {
    forall|f: int|
        0 <= f < face_count(fo) ==> {
            &&& #[trigger] fo[f] <= fo[f + 1]
            &&& fo[f + 1] <= cv_len
            &&& fo[f + 1] <= ce_len
        }
}

/// One face's corners: slices of a mesh's `corner_vertices` and `corner_edges`, in polygon
/// order.
#[derive(Debug, Clone, Copy, PartialEq, Eq)]
pub struct Face<'a> {
    pub vertices: &'a [u32],
    pub edges: &'a [u32],
}

impl<'a> Face<'a> {
    /// Naive fan triangulation: `(vertices[0], vertices[i], vertices[i + 1])` for each `i` in
    /// `1..vertices.len() - 1`; nothing for a face with fewer than 3 vertices. Only correct for
    /// convex, planar faces.
    pub fn triangulate_fan(&self) -> (r: Vec<[u32; 3]>)
        ensures
            r@.len() == tri_count(self.vertices@.len() as int),
            forall|i: int|
                0 <= i < r@.len() ==> #[trigger] r@[i]@ == seq![
                    self.vertices@[0],
                    self.vertices@[i + 1],
                    self.vertices@[i + 2],
                ],
    {
        let mut out: Vec<[u32; 3]> = Vec::new();
        let n = self.vertices.len();
        if n < 3 {
            return out;
        }
        let first = self.vertices[0];
        let mut i: usize = 1;
        while i + 1 < n
            invariant
                1 <= i <= n - 1,
                n == self.vertices@.len(),
                n >= 3,
                first == self.vertices@[0],
                out@.len() == i - 1,
                forall|k: int|
                    0 <= k < out@.len() ==> #[trigger] out@[k]@ == seq![
                        self.vertices@[0],
                        self.vertices@[k + 1],
                        self.vertices@[k + 2],
                    ],
            decreases n - i,
        {
            let triangle = [first, self.vertices[i], self.vertices[i + 1]];
            assert(triangle@ == seq![first, self.vertices@[i as int], self.vertices@[i + 1]]);
            out.push(triangle);
            i = i + 1;
        }
        out
    }
}

/// Owned per-face corner data of a whole mesh, produced by `Mesh::faces`.
#[derive(Debug, Clone, PartialEq, Eq)]
pub struct FaceCorners {
    face_offsets: Vec<u32>,
    corner_vertices: Vec<u32>,
    corner_edges: Vec<u32>,
}

impl FaceCorners {
    /// The decoded `face_offsets`.
    pub closed spec fn offsets(&self) -> Seq<u32> {
        self.face_offsets@
    }

    /// The decoded `corner_vertices`.
    pub closed spec fn vertices(&self) -> Seq<u32> {
        self.corner_vertices@
    }

    /// The decoded `corner_edges`.
    pub closed spec fn edges(&self) -> Seq<u32> {
        self.corner_edges@
    }

    /// Every face's corner range can be sliced out of both corner arrays.
    pub open spec fn ranges_ok(&self) -> bool {
        face_ranges_ok(self.offsets(), self.vertices().len() as int, self.edges().len() as int)
    }

    /// Number of faces (`face_offsets.len() - 1`, or 0 when `face_offsets` is empty).
    pub fn len(&self) -> (r: usize)
        ensures
            r == face_count(self.offsets()),
    {
        self.face_offsets.len().saturating_sub(1)
    }

    /// Whether there are no faces.
    pub fn is_empty(&self) -> (r: bool)
        ensures
            r == (face_count(self.offsets()) == 0),
    {
        self.len() == 0
    }

    /// The `index`-th face's corners, or `None` if `index >= self.len()`.
    pub fn face(&self, index: usize) -> (r: Option<Face<'_>>)
        requires
            index < face_count(self.offsets()) ==> {
                &&& self.offsets()[index as int] <= self.offsets()[index + 1]
                &&& self.offsets()[index + 1] <= self.vertices().len()
                &&& self.offsets()[index + 1] <= self.edges().len()
            },
        ensures
            match r {
                Some(face) => {
                    &&& index < face_count(self.offsets())
                    &&& face.vertices@ == self.vertices().subrange(
                        self.offsets()[index as int] as int,
                        self.offsets()[index + 1] as int,
                    )
                    &&& face.edges@ == self.edges().subrange(
                        self.offsets()[index as int] as int,
                        self.offsets()[index + 1] as int,
                    )
                },
                None => index >= face_count(self.offsets()),
            },
    {
        if index >= self.face_offsets.len() || index + 1 >= self.face_offsets.len() {
            return None;
        }
        let start = self.face_offsets[index] as usize;
        let end = self.face_offsets[index + 1] as usize;
        Some(
            Face {
                vertices: slice_subrange(self.corner_vertices.as_slice(), start, end),
                edges: slice_subrange(self.corner_edges.as_slice(), start, end),
            },
        )
    }

    /// Checks every face's corner range can be sliced out of both corner arrays, reporting the
    /// first face whose range cannot.
    fn check_ranges(&self) -> (r: Result<(), TopolyxError>)
        ensures
            match first_bad_face(self.offsets(), self.vertices().len() as int, self.edges().len() as int) {
                Some(f) => r == Err::<(), TopolyxError>(
                    TopolyxError::InvalidFaceRange {
                        face: f as usize,
                        start: self.offsets()[f],
                        end: self.offsets()[f + 1],
                    },
                ),
                None => r is Ok && self.ranges_ok(),
            },
    {
        let ghost bad = face_range_bad(self.offsets(), self.vertices().len() as int, self.edges().len() as int);
        let n = self.len();
        let mut g: usize = 0;
        while g < n
            invariant
                g <= n,
                n == face_count(self.offsets()),
                bad == face_range_bad(self.offsets(), self.vertices().len() as int, self.edges().len() as int),
                forall|h: int| 0 <= h < g ==> !#[trigger] bad(h),
            decreases n - g,
        {
            let start = self.face_offsets[g];
            let end = self.face_offsets[g + 1];
            if start > end || end as usize > self.corner_vertices.len() || end as usize > self.corner_edges.len() {
                proof {
                    assert(bad(g as int));
                    assert(is_first(bad, 0, g as int));
                    lemma_first_in_some(0, n as int, bad, g as int);
                }
                return Err(TopolyxError::InvalidFaceRange { face: g, start, end });
            }
            g = g + 1;
        }
        proof {
            lemma_first_in_none(0, n as int, bad);
            assert forall|f: int| 0 <= f < face_count(self.offsets()) implies {
                &&& #[trigger] self.offsets()[f] <= self.offsets()[f + 1]
                &&& self.offsets()[f + 1] <= self.vertices().len()
                &&& self.offsets()[f + 1] <= self.edges().len()
            } by {
                assert(!bad(f));
            }
        }
        Ok(())
    }

    /// Every face, in order.
    pub fn iter(&self) -> (r: Vec<Face<'_>>)
        requires
            self.ranges_ok(),
        ensures
            r@.len() == face_count(self.offsets()),
            forall|i: int|
                0 <= i < r@.len() ==> {
                    &&& (#[trigger] r@[i]).vertices@ == self.vertices().subrange(
                        self.offsets()[i] as int,
                        self.offsets()[i + 1] as int,
                    )
                    &&& r@[i].edges@ == self.edges().subrange(
                        self.offsets()[i] as int,
                        self.offsets()[i + 1] as int,
                    )
                },
    {
        let n = self.len();
        let mut out: Vec<Face<'_>> = Vec::new();
        let mut i: usize = 0;
        while i < n
            invariant
                i <= n,
                n == face_count(self.offsets()),
                self.ranges_ok(),
                out@.len() == i,
                forall|k: int|
                    0 <= k < out@.len() ==> {
                        &&& (#[trigger] out@[k]).vertices@ == self.vertices().subrange(
                            self.offsets()[k] as int,
                            self.offsets()[k + 1] as int,
                        )
                        &&& out@[k].edges@ == self.edges().subrange(
                            self.offsets()[k] as int,
                            self.offsets()[k + 1] as int,
                        )
                    },
            decreases n - i,
        {
            assert(self.offsets()[i as int] <= self.offsets()[i + 1]);
            let face = self.face(i).unwrap();
            out.push(face);
            i = i + 1;
        }
        out
    }
}

/// Grouping a mesh's corner arrays by face: the three decoded arrays, or the first error.
pub open spec fn spec_faces(m: Mesh, bin: Seq<u8>) -> Result<(Seq<u32>, Seq<u32>, Seq<u32>), TopolyxError> {
    match spec_u32_flat(m.topology.face_offsets, bin, "topology.face_offsets", 1) {
        Err(e) => Err(e),
        Ok(fo) => match spec_u32_flat(m.topology.corner_vertices, bin, "topology.corner_vertices", 1) {
            Err(e) => Err(e),
            Ok(cv) => match spec_u32_flat(m.topology.corner_edges, bin, "topology.corner_edges", 1) {
                Err(e) => Err(e),
                Ok(ce) => Ok((fo, cv, ce)),
            },
        },
    }
}

/// The mesh's decoded face ranges can be sliced out of its decoded corner arrays (always true
/// when decoding fails).
pub open spec fn faces_sliceable(m: Mesh, bin: Seq<u8>) -> bool {
    spec_faces(m, bin) matches Ok((fo, cv, ce)) ==> face_ranges_ok(fo, cv.len() as int, ce.len() as int)
}

/// Face `f`'s corner range `[fo[f], fo[f + 1])` is reversed or runs past one of the corner
/// arrays.
pub open spec fn face_range_bad(fo: Seq<u32>, cv_len: int, ce_len: int) -> spec_fn(int) -> bool {
    |f: int| !(fo[f] <= fo[f + 1] && fo[f + 1] <= cv_len && fo[f + 1] <= ce_len)
}

/// The first face whose corner range cannot be sliced out of the corner arrays.
pub open spec fn first_bad_face(fo: Seq<u32>, cv_len: int, ce_len: int) -> Option<int> {
    first_in(0, face_count(fo), face_range_bad(fo, cv_len, ce_len))
}

/// The decoded `face_offsets` of a mesh, or the error decoding them.
pub open spec fn spec_face_offsets(m: Mesh, bin: Seq<u8>) -> Result<Seq<u32>, TopolyxError> {
    spec_u32_flat(m.topology.face_offsets, bin, "topology.face_offsets", 1)
}

/// An index of `indices` (at position `c`) that is out of range for `len` values.
pub open spec fn index_out_of_range(len: int, indices: Seq<u32>) -> spec_fn(int) -> bool {
    |c: int| indices[c] >= len
}

/// `r` is the reindexing of `values` by `indices` that `expand_by_index` gives.
pub open spec fn expanded<T>(
    values: Seq<T>,
    indices: Seq<u32>,
    field: &'static str,
    r: Result<Vec<T>, TopolyxError>,
) -> bool {
    match first_in(0, indices.len() as int, index_out_of_range(values.len() as int, indices)) {
        Some(c) => r == Err::<Vec<T>, TopolyxError>(
            TopolyxError::CornerIndexOutOfRange {
                field,
                corner: c as usize,
                index: indices[c] as usize,
                length: values.len() as usize,
            },
        ),
        None => r matches Ok(out) && out@.len() == indices.len() && forall|c: int|
            0 <= c < indices.len() ==> #[trigger] out@[c] == values[indices[c] as int],
    }
}

/// Reindexes `values` by `indices` (one output element per index), reporting the first index
/// that is out of range.
pub fn expand_by_index<T: Copy>(values: &[T], indices: &[u32], field: &'static str) -> (r: Result<Vec<T>, TopolyxError>)
    ensures
        expanded(values@, indices@, field, r),
{
    let mut out: Vec<T> = Vec::new();
    let mut c: usize = 0;
    while c < indices.len()
        invariant
            c <= indices@.len(),
            out@.len() == c,
            forall|j: int| 0 <= j < c ==> !#[trigger] index_out_of_range(values@.len() as int, indices@)(j),
            forall|j: int| 0 <= j < c ==> #[trigger] out@[j] == values@[indices@[j] as int],
        decreases indices@.len() - c,
    {
        let i = indices[c];
        if i as usize >= values.len() {
            proof {
                assert(is_first(index_out_of_range(values@.len() as int, indices@), 0, c as int));
                lemma_first_in_some(0, indices@.len() as int, index_out_of_range(values@.len() as int, indices@), c as int);
            }
            return Err(TopolyxError::CornerIndexOutOfRange { field, corner: c, index: i as usize, length: values.len() });
        }
        out.push(values[i as usize]);
        c = c + 1;
    }
    proof {
        lemma_first_in_none(0, indices@.len() as int, index_out_of_range(values@.len() as int, indices@));
    }
    Ok(out)
}

/// The decoded `f32` positions (`spec_f32_flat` of `topology.positions`), reindexed by the
/// decoded `corner_vertices`: what `Mesh::corner_positions` gives.
pub open spec fn corner_positions_result(m: Mesh, bin: Seq<u8>, r: Result<Vec<[u32; 3]>, TopolyxError>) -> bool {
    match spec_f32_flat(m.topology.positions, bin, "topology.positions", 3) {
        Err(e) => r == Err::<Vec<[u32; 3]>, TopolyxError>(e),
        Ok(p) => match spec_u32_flat(m.topology.corner_vertices, bin, "topology.corner_vertices", 1) {
            Err(e) => r == Err::<Vec<[u32; 3]>, TopolyxError>(e),
            Ok(cv) => match first_in(0, cv.len() as int, index_out_of_range((p.len() / 3) as int, cv)) {
                Some(c) => r == Err::<Vec<[u32; 3]>, TopolyxError>(
                    TopolyxError::CornerIndexOutOfRange {
                        field: "topology.positions",
                        corner: c as usize,
                        index: cv[c] as usize,
                        length: (p.len() / 3) as usize,
                    },
                ),
                None => r matches Ok(out) && out@.len() == cv.len() && forall|c: int|
                    0 <= c < cv.len() ==> #[trigger] out@[c]@ == seq![
                        p[3 * cv[c]],
                        p[3 * cv[c] + 1],
                        p[3 * cv[c] + 2],
                    ],
            },
        },
    }
}

proof fn lemma_group_len_three(glen: int, plen: int)
    requires
        glen * 3 == plen,
    ensures
        glen == plen / 3,
{
}

impl Mesh {
    /// Groups this mesh's `corner_vertices`/`corner_edges` by face, using
    /// `topology.face_offsets`.
    pub fn faces(&self, bin: &[u8]) -> (r: Result<FaceCorners, TopolyxError>)
        ensures
            match (r, spec_faces(*self, bin@)) {
                (Ok(fc), Ok((fo, cv, ce))) => fc.offsets() == fo && fc.vertices() == cv && fc.edges() == ce,
                (Err(e), Err(f)) => e == f,
                _ => false,
            },
    {
        let face_offsets = self.topology.face_offsets(bin)?;
        let corner_vertices = self.topology.corner_vertices(bin)?;
        let corner_edges = self.topology.corner_edges(bin)?;
        Ok(FaceCorners { face_offsets, corner_vertices, corner_edges })
    }

    /// A flat triangle-index buffer (vertex indices, 3 per triangle) fan-triangulating every
    /// face in order; see `Face::triangulate_fan` for the convexity caveat. A face whose corner
    /// range is reversed or runs past `corner_vertices` or `corner_edges` gives
    /// `InvalidFaceRange` for the first such face.
    pub fn triangulate_fan_indices(&self, bin: &[u8]) -> (r: Result<Vec<u32>, TopolyxError>)
        ensures
            match (r, spec_faces(*self, bin@)) {
                (Ok(v), Ok((fo, cv, ce))) => {
                    &&& first_bad_face(fo, cv.len() as int, ce.len() as int) is None
                    &&& v@ == mesh_fan_vertices(fo, cv, face_count(fo))
                },
                (Err(e), Ok((fo, cv, ce))) => match first_bad_face(fo, cv.len() as int, ce.len() as int) {
                    Some(f) => e == TopolyxError::InvalidFaceRange { face: f as usize, start: fo[f], end: fo[f + 1] },
                    None => false,
                },
                (Err(e), Err(x)) => e == x,
                _ => false,
            },
    {
        let corners = self.faces(bin)?;
        corners.check_ranges()?;
        let faces = corners.iter();
        let ghost fo = corners.offsets();
        let ghost cv = corners.vertices();
        let mut out: Vec<u32> = Vec::new();
        let mut f: usize = 0;
        while f < faces.len()
            invariant
                f <= faces@.len(),
                faces@.len() == face_count(fo),
                face_ranges_ok(fo, cv.len() as int, corners.edges().len() as int),
                forall|i: int|
                    0 <= i < faces@.len() ==> (#[trigger] faces@[i]).vertices@ == cv.subrange(
                        fo[i] as int,
                        fo[i + 1] as int,
                    ),
                out@ == mesh_fan_vertices(fo, cv, f as int),
            decreases faces@.len() - f,
        {
            let ghost vs = faces@[f as int].vertices@;
            assert(fo[f as int] <= fo[f + 1]);
            assert(tri_count(vs.len() as int) == face_tri_count(fo, f as int));
            let triangles = faces[f].triangulate_fan();
            let ghost prefix = out@;
            let mut t: usize = 0;
            while t < triangles.len()
                invariant
                    t <= triangles@.len(),
                    triangles@.len() == tri_count(vs.len() as int),
                    forall|i: int|
                        0 <= i < triangles@.len() ==> #[trigger] triangles@[i]@ == seq![vs[0], vs[i + 1], vs[i + 2]],
                    out@ == prefix + fan_vertices(vs, t as int),
                decreases triangles@.len() - t,
            {
                let triangle = triangles[t];
                assert(triangle@ == seq![vs[0], vs[t + 1], vs[t + 2]]);
                out.push(triangle[0]);
                out.push(triangle[1]);
                out.push(triangle[2]);
                assert(fan_vertices(vs, t + 1) == fan_vertices(vs, t as int) + seq![vs[0], vs[t + 1], vs[t + 2]]);
                assert(out@ == prefix + fan_vertices(vs, t + 1));
                t = t + 1;
            }
            assert(out@ == mesh_fan_vertices(fo, cv, f + 1));
            f = f + 1;
        }
        Ok(out)
    }

    /// A flat triangle-index buffer of *corner* indices (3 per triangle), fan-triangulating
    /// every face in order: pairs with per-corner vertex data such as `corner_positions` or
    /// CORNER-domain attributes. Faces with fewer than 3 corners give nothing.
    pub fn triangulate_fan_corner_indices(&self, bin: &[u8]) -> (r: Result<Vec<u32>, TopolyxError>)
        ensures
            match (r, spec_face_offsets(*self, bin@)) {
                (Ok(v), Ok(fo)) => v@ == mesh_fan_corners(fo, face_count(fo)),
                (Err(e), Err(f)) => e == f,
                _ => false,
            },
    {
        let offsets = self.topology.face_offsets(bin)?;
        let ghost fo = offsets@;
        let n = offsets.len().saturating_sub(1);
        let mut out: Vec<u32> = Vec::new();
        let mut f: usize = 0;
        while f < n
            invariant
                f <= n,
                n == face_count(fo),
                fo == offsets@,
                out@ == mesh_fan_corners(fo, f as int),
            decreases n - f,
        {
            let start = offsets[f];
            let end = offsets[f + 1];
            let ghost prefix = out@;
            if end > start && end - start >= 3 {
                let count = end - start - 2;
                let mut t: u32 = 0;
                while t < count
                    invariant
                        t <= count,
                        count == end - start - 2,
                        end - start >= 3,
                        out@ == prefix + fan_corners(start as int, t as int),
                    decreases count - t,
                {
                    out.push(start);
                    out.push(start + t + 1);
                    out.push(start + t + 2);
                    assert(fan_corners(start as int, t + 1) == fan_corners(start as int, t as int) + seq![
                        start,
                        (start + t + 1) as u32,
                        (start + t + 2) as u32,
                    ]);
                    t = t + 1;
                }
                assert(face_tri_count(fo, f as int) == count);
            } else {
                assert(face_tri_count(fo, f as int) == 0);
                assert(out@ == prefix + fan_corners(start as int, 0));
            }
            assert(out@ == mesh_fan_corners(fo, f + 1));
            f = f + 1;
        }
        Ok(out)
    }

    /// For each triangle of `triangulate_fan_corner_indices` (and `triangulate_fan_indices`),
    /// in order, the index of the face it comes from.
    pub fn triangulate_fan_face_indices(&self, bin: &[u8]) -> (r: Result<Vec<u32>, TopolyxError>)
        ensures
            match (r, spec_face_offsets(*self, bin@)) {
                (Ok(v), Ok(fo)) => v@ == mesh_fan_faces(fo, face_count(fo)),
                (Err(e), Err(f)) => e == f,
                _ => false,
            },
    {
        let offsets = self.topology.face_offsets(bin)?;
        let ghost fo = offsets@;
        let n = offsets.len().saturating_sub(1);
        let mut out: Vec<u32> = Vec::new();
        let mut f: usize = 0;
        while f < n
            invariant
                f <= n,
                n == face_count(fo),
                fo == offsets@,
                out@ == mesh_fan_faces(fo, f as int),
            decreases n - f,
        {
            let start = offsets[f];
            let end = offsets[f + 1];
            let ghost prefix = out@;
            let count: u32 = if end > start && end - start >= 3 {
                end - start - 2
            } else {
                0
            };
            assert(face_tri_count(fo, f as int) == count);
            let face = f as u32;
            let mut t: u32 = 0;
            while t < count
                invariant
                    t <= count,
                    face == f as u32,
                    out@ == prefix + Seq::new(t as nat, |i: int| face),
                decreases count - t,
            {
                out.push(face);
                assert(Seq::new((t + 1) as nat, |i: int| face) == Seq::new(t as nat, |i: int| face).push(face));
                t = t + 1;
            }
            assert(Seq::new(count as nat, |i: int| face) == Seq::new(face_tri_count(fo, f as int) as nat, |i: int| f as u32));
            assert(out@ == mesh_fan_faces(fo, f + 1));
            f = f + 1;
        }
        Ok(out)
    }

    /// `topology.positions` reindexed by `topology.corner_vertices`: one position (as `f32`
    /// bit patterns) per face corner instead of one per vertex.
    pub fn corner_positions(&self, bin: &[u8]) -> (r: Result<Vec<[u32; 3]>, TopolyxError>)
        ensures
            corner_positions_result(*self, bin@, r),
    {
        let positions = self.topology.positions(bin)?;
        let corner_vertices = self.topology.corner_vertices(bin)?;
        let r = expand_by_index(positions.as_slice(), corner_vertices.as_slice(), "topology.positions");
        proof {
            let p = spec_f32_flat(self.topology.positions, bin@, "topology.positions", 3).unwrap();
            let cv = corner_vertices@;
            lemma_group_len_three(positions@.len() as int, p.len() as int);
            lemma_first_in_props(0, cv.len() as int, index_out_of_range(positions@.len() as int, cv));
            if r is Ok {
                let out = r->Ok_0;
                assert forall|c: int| 0 <= c < cv.len() implies #[trigger] out@[c]@ == seq![
                    p[3 * cv[c]],
                    p[3 * cv[c] + 1],
                    p[3 * cv[c] + 2],
                ] by {
                    let k = cv[c] as int;
                    assert(!index_out_of_range(positions@.len() as int, cv)(c));
                    assert(out@[c] == positions@[k]);
                    assert(positions@[k]@[0] == p[k * 3 + 0]);
                    assert(positions@[k]@[1] == p[k * 3 + 1]);
                    assert(positions@[k]@[2] == p[k * 3 + 2]);
                    assert(out@[c]@ =~= seq![p[3 * k], p[3 * k + 1], p[3 * k + 2]]);
                }
            }
        }
        r
    }
}

/// Every entry of a non-decreasing `fo` is at most its last entry.
pub(crate) proof fn lemma_offsets_bounded(fo: Seq<u32>)
    requires
        fo.len() > 0,
        forall|k: int| 0 <= k < fo.len() - 1 ==> #[trigger] fo[k] <= fo[k + 1],
    ensures
        forall|k: int| 0 <= k < fo.len() ==> #[trigger] fo[k] <= fo.last(),
{
    assert forall|k: int| 0 <= k < fo.len() implies #[trigger] fo[k] <= fo.last() by {
        lemma_offsets_bounded_from(fo, k);
    }
}

proof fn lemma_offsets_bounded_from(fo: Seq<u32>, k: int)
    requires
        fo.len() > 0,
        0 <= k < fo.len(),
        forall|j: int| 0 <= j < fo.len() - 1 ==> #[trigger] fo[j] <= fo[j + 1],
    ensures
        fo[k] <= fo.last(),
    decreases fo.len() - k,
{
    if k < fo.len() - 1 {
        lemma_offsets_bounded_from(fo, k + 1);
    }
}

/// The corner slices `[fo[g], fo[g + 1])` of `xs` for faces `g < f`, concatenated in order.
pub open spec fn faces_concat(fo: Seq<u32>, xs: Seq<u32>, f: int) -> Seq<u32>
    decreases f,
{
    if f <= 0 {
        Seq::empty()
    } else {
        faces_concat(fo, xs, f - 1) + xs.subrange(fo[f - 1] as int, fo[f] as int)
    }
}

proof fn lemma_faces_concat_prefix(fo: Seq<u32>, xs: Seq<u32>, f: int)
    requires
        fo.len() > 0,
        fo[0] == 0,
        fo.last() == xs.len(),
        forall|k: int| 0 <= k < fo.len() - 1 ==> #[trigger] fo[k] <= fo[k + 1],
        0 <= f < fo.len(),
    ensures
        faces_concat(fo, xs, f) == xs.subrange(0, fo[f] as int),
    decreases f,
{
    lemma_offsets_bounded(fo);
    if f > 0 {
        lemma_faces_concat_prefix(fo, xs, f - 1);
        assert(fo[f - 1] <= fo[f]);
        assert(xs.subrange(0, fo[f - 1] as int) + xs.subrange(fo[f - 1] as int, fo[f] as int) == xs.subrange(
            0,
            fo[f] as int,
        ));
    } else {
        assert(xs.subrange(0, 0) == Seq::<u32>::empty());
    }
}

/// Law: when `fo` partitions the whole of `xs` (it starts at 0, never decreases and ends at
/// `xs.len()`), the faces' corner slices (`FaceCorners::iter`), concatenated in face order,
/// are exactly `xs`: every corner belongs to exactly one face, and faces follow corner order.
#[verifier::spinoff_prover]
pub proof fn lemma_faces_cover_corners(fo: Seq<u32>, xs: Seq<u32>)
    requires
        fo.len() > 0,
        fo[0] == 0,
        fo.last() == xs.len(),
        forall|k: int| 0 <= k < fo.len() - 1 ==> #[trigger] fo[k] <= fo[k + 1],
    ensures
        faces_concat(fo, xs, face_count(fo)) == xs,
{
    lemma_faces_concat_prefix(fo, xs, face_count(fo));
    assert(xs.subrange(0, xs.len() as int) == xs);
}

/// The first `t` fan triangles of a face with corners `[s, e)` use corner indices inside
/// `[s, e)`, three per triangle.
proof fn lemma_fan_corners_in_face(s: int, e: int, t: int)
    requires
        0 <= s <= e <= u32::MAX,
        0 <= t <= tri_count(e - s),
    ensures
        fan_corners(s, t).len() == 3 * t,
        forall|k: int| 0 <= k < 3 * t ==> s <= #[trigger] fan_corners(s, t)[k] < e,
    decreases t,
{
    if t > 0 {
        lemma_fan_corners_in_face(s, e, t - 1);
        let prev = fan_corners(s, t - 1);
        let cur = fan_corners(s, t);
        assert forall|k: int| 0 <= k < 3 * t implies s <= #[trigger] cur[k] < e by {
            if k < 3 * (t - 1) {
                assert(cur[k] == prev[k]);
            }
        }
    }
}

/// Within one face `[s, e)` of `cv`, the vertex fan is the corner fan looked up in `cv`.
proof fn lemma_fan_pair(cv: Seq<u32>, s: int, e: int, t: int)
    requires
        0 <= s <= e <= cv.len(),
        e <= u32::MAX,
        0 <= t <= tri_count(e - s),
    ensures
        fan_vertices(cv.subrange(s, e), t).len() == fan_corners(s, t).len(),
        forall|k: int|
            0 <= k < fan_corners(s, t).len() ==> #[trigger] fan_vertices(cv.subrange(s, e), t)[k]
                == cv[fan_corners(s, t)[k] as int],
    decreases t,
{
    lemma_fan_corners_in_face(s, e, t);
    if t > 0 {
        lemma_fan_pair(cv, s, e, t - 1);
        lemma_fan_corners_in_face(s, e, t - 1);
        let vs = cv.subrange(s, e);
        let pv = fan_vertices(vs, t - 1);
        let pc = fan_corners(s, t - 1);
        let v = fan_vertices(vs, t);
        let c = fan_corners(s, t);
        assert forall|k: int| 0 <= k < c.len() implies #[trigger] v[k] == cv[c[k] as int] by {
            if k < 3 * (t - 1) {
                assert(v[k] == pv[k]);
                assert(c[k] == pc[k]);
            }
        }
    }
}

/// Faces `0..f` each have an ordered corner range inside `cv`.
pub open spec fn faces_in(fo: Seq<u32>, len: int) -> bool {
    forall|g: int| 0 <= g < face_count(fo) ==> #[trigger] fo[g] <= fo[g + 1] && fo[g + 1] <= len
}

proof fn lemma_mesh_fan_pair(fo: Seq<u32>, cv: Seq<u32>, f: int)
    requires
        0 <= f <= face_count(fo),
        faces_in(fo, cv.len() as int),
    ensures
        mesh_fan_vertices(fo, cv, f).len() == mesh_fan_corners(fo, f).len(),
        forall|k: int|
            #![trigger mesh_fan_corners(fo, f)[k]]
            0 <= k < mesh_fan_corners(fo, f).len() ==> {
                &&& mesh_fan_corners(fo, f)[k] < cv.len()
                &&& mesh_fan_vertices(fo, cv, f)[k] == cv[mesh_fan_corners(fo, f)[k] as int]
            },
    decreases f,
{
    if f > 0 {
        lemma_mesh_fan_pair(fo, cv, f - 1);
        let s = fo[f - 1] as int;
        let e = fo[f] as int;
        assert(fo[f - 1] <= fo[f] && fo[f] <= cv.len());
        let t = face_tri_count(fo, f - 1);
        lemma_fan_pair(cv, s, e, t);
        lemma_fan_corners_in_face(s, e, t);
        let pv = mesh_fan_vertices(fo, cv, f - 1);
        let pc = mesh_fan_corners(fo, f - 1);
        let v = mesh_fan_vertices(fo, cv, f);
        let c = mesh_fan_corners(fo, f);
        assert forall|k: int| #![trigger c[k]] 0 <= k < c.len() implies {
            &&& c[k] < cv.len()
            &&& v[k] == cv[c[k] as int]
        } by {
            if k < pc.len() {
                assert(v[k] == pv[k]);
                assert(c[k] == pc[k]);
            } else {
                assert(v[k] == fan_vertices(cv.subrange(s, e), t)[k - pc.len()]);
                assert(c[k] == fan_corners(s, t)[k - pc.len()]);
            }
        }
    } else {
        assert(mesh_fan_corners(fo, f).len() == 0);
    }
}

/// Law: when every face's corner range lies inside `corner_vertices`, the vertex-index fan
/// buffer (`triangulate_fan_indices`) and the corner-index fan buffer
/// (`triangulate_fan_corner_indices`) describe the same triangles: they have the same length,
/// every corner index is a valid corner, and each vertex index is `corner_vertices` at the
/// matching corner index.
#[verifier::spinoff_prover]
pub proof fn lemma_corner_fan_resolves_to_vertex_fan(fo: Seq<u32>, cv: Seq<u32>)
    requires
        faces_in(fo, cv.len() as int),
    ensures
        mesh_fan_vertices(fo, cv, face_count(fo)).len() == mesh_fan_corners(fo, face_count(fo)).len(),
        forall|k: int|
            #![trigger mesh_fan_corners(fo, face_count(fo))[k]]
            0 <= k < mesh_fan_corners(fo, face_count(fo)).len() ==> {
                &&& mesh_fan_corners(fo, face_count(fo))[k] < cv.len()
                &&& mesh_fan_vertices(fo, cv, face_count(fo))[k] == cv[mesh_fan_corners(fo, face_count(fo))[k] as int]
            },
{
    lemma_mesh_fan_pair(fo, cv, face_count(fo));
}

proof fn lemma_mesh_fan_faces(fo: Seq<u32>, f: int)
    requires
        0 <= f <= face_count(fo),
        fo.len() <= u32::MAX,
    ensures
        mesh_fan_faces(fo, f).len() * 3 == mesh_fan_corners(fo, f).len(),
        forall|t: int| 0 <= t < mesh_fan_faces(fo, f).len() ==> #[trigger] mesh_fan_faces(fo, f)[t] < f,
        forall|k: int|
            0 <= k < mesh_fan_corners(fo, f).len() ==> fo[mesh_fan_faces(fo, f)[k / 3] as int]
                <= #[trigger] mesh_fan_corners(fo, f)[k] < fo[mesh_fan_faces(fo, f)[k / 3] + 1],
    decreases f,
{
    if f > 0 {
        lemma_mesh_fan_faces(fo, f - 1);
        let s = fo[f - 1] as int;
        let e = fo[f] as int;
        let t = face_tri_count(fo, f - 1);
        let pf = mesh_fan_faces(fo, f - 1);
        let pc = mesh_fan_corners(fo, f - 1);
        let faces = mesh_fan_faces(fo, f);
        let c = mesh_fan_corners(fo, f);
        if t > 0 {
            lemma_fan_corners_in_face(s, e, t);
        }
        assert(fan_corners(s, t).len() == 3 * t) by {
            if t == 0 {
                assert(fan_corners(s, 0).len() == 0);
            }
        }
        assert forall|t: int| 0 <= t < faces.len() implies #[trigger] faces[t] < f by {
            if t < pf.len() {
                assert(faces[t] == pf[t]);
            }
        }
        assert forall|k: int| 0 <= k < c.len() implies fo[faces[k / 3] as int] <= #[trigger] c[k] < fo[faces[k / 3] + 1] by {
            if k < pc.len() {
                assert(c[k] == pc[k]);
                assert(k / 3 < pf.len());
                assert(faces[k / 3] == pf[k / 3]);
            } else {
                let j = k - pc.len();
                assert(c[k] == fan_corners(s, t)[j]);
                assert(k / 3 >= pf.len());
                assert(faces[k / 3] == (f - 1) as u32);
            }
        }
    } else {
        assert(mesh_fan_corners(fo, f).len() == 0);
    }
}

/// Law: the face-index buffer (`triangulate_fan_face_indices`) runs parallel to the
/// corner-index buffer (`triangulate_fan_corner_indices`): one entry per triangle, and the
/// three corners of triangle `k / 3` all lie in the corner range of the face it names.
#[verifier::spinoff_prover]
pub proof fn lemma_face_indices_parallel_corner_indices(fo: Seq<u32>)
    requires
        fo.len() <= u32::MAX,
    ensures
        mesh_fan_faces(fo, face_count(fo)).len() * 3 == mesh_fan_corners(fo, face_count(fo)).len(),
        forall|t: int|
            0 <= t < mesh_fan_faces(fo, face_count(fo)).len() ==> #[trigger] mesh_fan_faces(fo, face_count(fo))[t]
                < face_count(fo),
        forall|k: int|
            0 <= k < mesh_fan_corners(fo, face_count(fo)).len() ==> fo[mesh_fan_faces(fo, face_count(fo))[k / 3] as int]
                <= #[trigger] mesh_fan_corners(fo, face_count(fo))[k] < fo[mesh_fan_faces(fo, face_count(fo))[k / 3] + 1],
{
    lemma_mesh_fan_faces(fo, face_count(fo));
}

} // verus!
