//! Grouping decoded flat arrays into per-element arrays `[T; N]`, according to the shapes the
//! format fixes for the topology fields and for each attribute `semantic`.

use crate::data::{lemma_extract_len, lemma_extract_reads_the_bytes, spec_extract, ComponentData, ComponentValues};
use crate::error::TopolyxError;
use crate::file::{Attribute, ComponentType, DataDescriptor, Mesh, Semantic, Topology};
use crate::util::{first_in, is_first, lemma_first_in_none, lemma_first_in_some};
use vstd::prelude::*;

verus! {

/// `g` is `flat` cut into consecutive elements of `N` values each.
pub open spec fn is_grouping<T, const N: usize>(flat: Seq<T>, g: Seq<[T; N]>) -> bool {
    &&& g.len() * N == flat.len()
    &&& forall|k: int, j: int|
        0 <= k < g.len() && 0 <= j < N ==> #[trigger] g[k]@[j] == flat[k * N + j]
}

/// A flat array of `len` values can be cut into elements of `N` values.
pub open spec fn groupable(len: nat, n: nat) -> bool {
    n != 0 && len % n == 0
}

proof fn lemma_next_group_fits(m: int, n: int, len: int)
    requires
        n > 0,
        len % n == 0,
        0 <= m * n < len,
        m >= 0,
    ensures
        m * n + n <= len,
{
    let q = len / n;
    assert(len == q * n) by (nonlinear_arith)
        requires
            n > 0,
            len % n == 0,
            q == len / n,
    ;
    assert(m < q) by (nonlinear_arith)
        requires
            n > 0,
            m * n < q * n,
    ;
    assert(m * n + n <= q * n) by (nonlinear_arith)
        requires
            n > 0,
            m + 1 <= q,
    ;
}

/// Cuts `slice` into consecutive `N`-value elements; `None` when `N == 0` or the length is not
/// a multiple of `N`.
pub fn group<T: Copy, const N: usize>(slice: &[T]) -> (r: Option<Vec<[T; N]>>)
    ensures
        r is Some <==> groupable(slice@.len(), N as nat),
        r is Some <==> N > 0 && slice@.len() % (N as nat) == 0,
        r matches Some(g) ==> is_grouping(slice@, g@),
        r matches Some(g) ==> g@.len() * N == slice@.len() && forall|k: int, j: int|
            0 <= k < g@.len() && 0 <= j < N ==> #[trigger] g@[k]@[j] == slice@[k * N + j],
{
    if N == 0 || slice.len() % N != 0 {
        return None;
    }
    let mut out: Vec<[T; N]> = Vec::new();
    let mut pos: usize = 0;
    while pos < slice.len()
        invariant
            N > 0,
            slice@.len() % (N as nat) == 0,
            pos <= slice@.len(),
            pos == out@.len() * N,
            forall|k: int, j: int|
                0 <= k < out@.len() && 0 <= j < N ==> #[trigger] out@[k]@[j] == slice@[k * N + j],
        decreases slice@.len() - pos,
    {
        proof {
            lemma_next_group_fits(out@.len() as int, N as int, slice@.len() as int);
        }
        let mut element: [T; N] = [slice[pos]; N];
        let mut j: usize = 0;
        while j < N
            invariant
                pos + N <= slice.len(),
                j <= N,
                forall|i: int| 0 <= i < j ==> #[trigger] element@[i] == slice@[pos + i],
            decreases N - j,
        {
            element[j] = slice[pos + j];
            j = j + 1;
        }
        let ghost m = out@.len() as int;
        out.push(element);
        assert forall|k: int, j: int|
            0 <= k < out@.len() && 0 <= j < N implies #[trigger] out@[k]@[j] == slice@[k * N + j] by {
            if k == m {
                assert(k * N == pos);
            }
        }
        pos = pos + N;
        assert(pos == out@.len() * N) by (nonlinear_arith)
            requires
                pos == m * N + N,
                out@.len() == m + 1,
        ;
    }
    Some(out)
}

impl ComponentData {
    /// Groups an `F32` buffer (bit patterns) into `N`-component elements; `None` if this is not
    /// an `F32` buffer or its length is not a multiple of `N`.
    pub fn grouped_f32<const N: usize>(&self) -> (r: Option<Vec<[u32; N]>>)
        ensures
            match self@ {
                ComponentValues::F32(v) => (r is Some <==> groupable(v.len(), N as nat)) && (
                r matches Some(g) ==> is_grouping(v, g@)),
                _ => r is None,
            },
    {
        group(self.as_f32()?)
    }

    /// Groups an `I32` buffer into `N`-component elements (see `grouped_f32`).
    pub fn grouped_i32<const N: usize>(&self) -> (r: Option<Vec<[i32; N]>>)
        ensures
            match self@ {
                ComponentValues::I32(v) => (r is Some <==> groupable(v.len(), N as nat)) && (
                r matches Some(g) ==> is_grouping(v, g@)),
                _ => r is None,
            },
    {
        group(self.as_i32()?)
    }

    /// Groups a `U32` buffer into `N`-component elements (see `grouped_f32`).
    pub fn grouped_u32<const N: usize>(&self) -> (r: Option<Vec<[u32; N]>>)
        ensures
            match self@ {
                ComponentValues::U32(v) => (r is Some <==> groupable(v.len(), N as nat)) && (
                r matches Some(g) ==> is_grouping(v, g@)),
                _ => r is None,
            },
    {
        group(self.as_u32()?)
    }

    /// Groups an `I8` buffer into `N`-component elements (see `grouped_f32`).
    pub fn grouped_i8<const N: usize>(&self) -> (r: Option<Vec<[i8; N]>>)
        ensures
            match self@ {
                ComponentValues::I8(v) => (r is Some <==> groupable(v.len(), N as nat)) && (
                r matches Some(g) ==> is_grouping(v, g@)),
                _ => r is None,
            },
    {
        group(self.as_i8()?)
    }

    /// Groups a `U8` buffer into `N`-component elements (see `grouped_f32`).
    pub fn grouped_u8<const N: usize>(&self) -> (r: Option<Vec<[u8; N]>>)
        ensures
            match self@ {
                ComponentValues::U8(v) => (r is Some <==> groupable(v.len(), N as nat)) && (
                r matches Some(g) ==> is_grouping(v, g@)),
                _ => r is None,
            },
    {
        group(self.as_u8()?)
    }

    /// Groups a `BOOL` buffer into `N`-component elements (see `grouped_f32`).
    pub fn grouped_bool<const N: usize>(&self) -> (r: Option<Vec<[bool; N]>>)
        ensures
            match self@ {
                ComponentValues::Bool(v) => (r is Some <==> groupable(v.len(), N as nat)) && (
                r matches Some(g) ==> is_grouping(v, g@)),
                _ => r is None,
            },
    {
        group(self.as_bool()?)
    }
}

/// The shape error a convenience accessor reports when descriptor `d` is not `t` x `n`.
pub open spec fn shape_error(d: DataDescriptor, field: &'static str, t: ComponentType, n: u32) -> Option<TopolyxError> {
    if d.component_type != t || d.component_count != n {
        Some(
            TopolyxError::UnexpectedComponentShape {
                field,
                expected_type: t,
                expected_count: n,
                found_type: d.component_type,
                found_count: d.component_count,
            },
        )
    } else {
        None
    }
}

/// The `F32` bit patterns of decoded values (empty for other types).
pub open spec fn f32_bits(v: ComponentValues) -> Seq<u32> {
    match v {
        ComponentValues::F32(s) => s,
        _ => Seq::empty(),
    }
}

/// The `U32` values of decoded values (empty for other types).
pub open spec fn u32_values(v: ComponentValues) -> Seq<u32> {
    match v {
        ComponentValues::U32(s) => s,
        _ => Seq::empty(),
    }
}

/// The `U8` values of decoded values (empty for other types).
pub open spec fn u8_values(v: ComponentValues) -> Seq<u8> {
    match v {
        ComponentValues::U8(s) => s,
        _ => Seq::empty(),
    }
}

/// Decoding `d` after checking it is `F32` x `n`: the flat bit patterns, or the error.
pub open spec fn spec_f32_flat(d: DataDescriptor, bin: Seq<u8>, field: &'static str, n: u32) -> Result<Seq<u32>, TopolyxError> {
    match shape_error(d, field, ComponentType::F32, n) {
        Some(e) => Err(e),
        None => match spec_extract(d, bin) {
            Ok(v) => Ok(f32_bits(v)),
            Err(e) => Err(e),
        },
    }
}

/// Decoding `d` after checking it is `U32` x `n`: the flat values, or the error.
pub open spec fn spec_u32_flat(d: DataDescriptor, bin: Seq<u8>, field: &'static str, n: u32) -> Result<Seq<u32>, TopolyxError> {
    match shape_error(d, field, ComponentType::U32, n) {
        Some(e) => Err(e),
        None => match spec_extract(d, bin) {
            Ok(v) => Ok(u32_values(v)),
            Err(e) => Err(e),
        },
    }
}

/// Decoding `d` after checking it is `U8` x `n`: the flat values, or the error.
pub open spec fn spec_u8_flat(d: DataDescriptor, bin: Seq<u8>, field: &'static str, n: u32) -> Result<Seq<u8>, TopolyxError> {
    match shape_error(d, field, ComponentType::U8, n) {
        Some(e) => Err(e),
        None => match spec_extract(d, bin) {
            Ok(v) => Ok(u8_values(v)),
            Err(e) => Err(e),
        },
    }
}

/// `r` is the grouped form of the flat result `flat`: the same error, or its grouping.
pub open spec fn grouped_as<T, const N: usize>(r: Result<Vec<[T; N]>, TopolyxError>, flat: Result<Seq<T>, TopolyxError>) -> bool {
    match (r, flat) {
        (Ok(g), Ok(s)) => is_grouping(s, g@),
        (Err(e), Err(f)) => e == f,
        _ => false,
    }
}

/// `r` is the flat result `flat`: the same error, or the same values.
pub open spec fn flat_as(r: Result<Vec<u32>, TopolyxError>, flat: Result<Seq<u32>, TopolyxError>) -> bool {
    match (r, flat) {
        (Ok(v), Ok(s)) => v@ == s,
        (Err(e), Err(f)) => e == f,
        _ => false,
    }
}

proof fn lemma_multiple_groupable(n: nat, ec: nat)
    requires
        n > 0,
    ensures
        groupable(n * ec, n),
{
    assert((n * ec) % n == 0) by (nonlinear_arith)
        requires
            n > 0,
    ;
}

/// Law: data that decodes can always be regrouped by its descriptor's `component_count`: this
/// is how a caller groups the values of an attribute with no role
/// (`AttributeValues::Unassigned`), whose shape the format does not fix, with
/// `ComponentData::grouped_*::<N>` for `N == component_count`.
pub proof fn lemma_decoded_data_groups_by_component_count(d: DataDescriptor, bin: Seq<u8>)
    requires
        d.component_count > 0,
    ensures
        spec_extract(d, bin) matches Ok(v) ==> groupable(v.len(), d.component_count as nat),
{
    lemma_extract_len(d, bin);
    lemma_multiple_groupable(d.component_count as nat, d.element_count as nat);
}

/// `g` holds `d.element_count` elements, each `N` consecutive little-endian 32-bit words of
/// `bin`, read from byte `d.byte_offset` on.
pub open spec fn words_from_bytes<const N: usize>(g: Seq<[u32; N]>, d: DataDescriptor, bin: Seq<u8>) -> bool {
    &&& g.len() == d.element_count
    &&& forall|k: int, j: int|
        0 <= k < g.len() && 0 <= j < N ==> {
            let off = d.byte_offset + 4 * (k * N + j);
            #[trigger] g[k]@[j] == bin[off] + 256 * bin[off + 1] + 65536 * bin[off + 2] + 16777216 * bin[off + 3]
        }
}

/// `g` holds `d.element_count` elements, each `N` consecutive bytes of `bin`, read from byte
/// `d.byte_offset` on.
pub open spec fn bytes_from_bytes<const N: usize>(g: Seq<[u8; N]>, d: DataDescriptor, bin: Seq<u8>) -> bool {
    &&& g.len() == d.element_count
    &&& forall|k: int, j: int| 0 <= k < g.len() && 0 <= j < N ==> #[trigger] g[k]@[j] == bin[d.byte_offset + k * N + j]
}

proof fn lemma_group_count(glen: int, n: int, ec: int)
    requires
        n > 0,
        glen * n == n * ec,
    ensures
        glen == ec,
{
    assert(glen == ec) by (nonlinear_arith)
        requires
            n > 0,
            glen * n == n * ec,
    ;
}

/// Law: a grouped `F32` (or `U32`) result is exactly the descriptor's bytes read as
/// little-endian words, `N` per element, one element per `element_count`; and the result is an
/// error exactly when the descriptor is not of that type with `N` components or does not decode.
#[verifier::spinoff_prover]
pub proof fn lemma_grouped_words_read_the_bytes<const N: usize>(
    d: DataDescriptor,
    bin: Seq<u8>,
    field: &'static str,
    t: ComponentType,
    r: Result<Vec<[u32; N]>, TopolyxError>,
)
    requires
        0 < N <= u32::MAX,
        t == ComponentType::F32 || t == ComponentType::U32,
        t == ComponentType::F32 ==> grouped_as(r, spec_f32_flat(d, bin, field, N as u32)),
        t == ComponentType::U32 ==> grouped_as(r, spec_u32_flat(d, bin, field, N as u32)),
    ensures
        r is Ok <==> d.component_type == t && d.component_count == N && spec_extract(d, bin) is Ok,
        (d.component_type != t || d.component_count != N) ==> r == Err::<Vec<[u32; N]>, TopolyxError>(
            TopolyxError::UnexpectedComponentShape {
                field,
                expected_type: t,
                expected_count: N as u32,
                found_type: d.component_type,
                found_count: d.component_count,
            },
        ),
        r matches Ok(g) ==> words_from_bytes(g@, d, bin),
{
    lemma_extract_reads_the_bytes(d, bin);
    lemma_extract_len(d, bin);
    if let Ok(g) = r {
        let s = if t == ComponentType::F32 {
            f32_bits(spec_extract(d, bin)->Ok_0)
        } else {
            u32_values(spec_extract(d, bin)->Ok_0)
        };
        assert(is_grouping(s, g@));
        lemma_group_count(g@.len() as int, N as int, d.element_count as int);
        assert forall|k: int, j: int| 0 <= k < g@.len() && 0 <= j < N implies {
            let off = d.byte_offset + 4 * (k * N + j);
            #[trigger] g@[k]@[j] == bin[off] + 256 * bin[off + 1] + 65536 * bin[off + 2] + 16777216 * bin[off + 3]
        } by {
            assert(0 <= k * N + j < g@.len() * N) by (nonlinear_arith)
                requires
                    0 <= k < g@.len(),
                    0 <= j < N,
            ;
            assert(g@[k]@[j] == s[k * N + j]);
        }
    }
}

/// Law: a grouped `U8` result is exactly the descriptor's bytes, `N` per element, one element
/// per `element_count`; and it is an error exactly when the descriptor is not `U8` with `N`
/// components or does not decode.
#[verifier::spinoff_prover]
pub proof fn lemma_grouped_bytes_read_the_bytes<const N: usize>(
    d: DataDescriptor,
    bin: Seq<u8>,
    field: &'static str,
    r: Result<Vec<[u8; N]>, TopolyxError>,
)
    requires
        0 < N <= u32::MAX,
        grouped_as(r, spec_u8_flat(d, bin, field, N as u32)),
    ensures
        r is Ok <==> d.component_type == ComponentType::U8 && d.component_count == N && spec_extract(d, bin) is Ok,
        r matches Ok(g) ==> bytes_from_bytes(g@, d, bin),
{
    lemma_extract_reads_the_bytes(d, bin);
    lemma_extract_len(d, bin);
    if let Ok(g) = r {
        let s = u8_values(spec_extract(d, bin)->Ok_0);
        assert(is_grouping(s, g@));
        lemma_group_count(g@.len() as int, N as int, d.element_count as int);
        assert forall|k: int, j: int| 0 <= k < g@.len() && 0 <= j < N implies #[trigger] g@[k]@[j] == bin[d.byte_offset
            + k * N + j] by {
            assert(0 <= k * N + j < g@.len() * N) by (nonlinear_arith)
                requires
                    0 <= k < g@.len(),
                    0 <= j < N,
            ;
            assert(g@[k]@[j] == s[k * N + j]);
        }
    }
}

impl DataDescriptor {
    /// Checks this descriptor is `expected_type` x `expected_count`.
    pub fn check_shape(&self, field: &'static str, expected_type: ComponentType, expected_count: u32) -> (r: Result<(), TopolyxError>)
        ensures
            match shape_error(*self, field, expected_type, expected_count) {
                Some(e) => r == Err::<(), TopolyxError>(e),
                None => r is Ok,
            },
    {
        if self.component_type != expected_type || self.component_count != expected_count {
            return Err(
                TopolyxError::UnexpectedComponentShape {
                    field,
                    expected_type,
                    expected_count,
                    found_type: self.component_type,
                    found_count: self.component_count,
                },
            );
        }
        Ok(())
    }

    /// Decodes and groups this descriptor's data, checking it is `F32` x `N` first.
    pub fn extract_f32<const N: usize>(&self, bin: &[u8], field: &'static str) -> (r: Result<Vec<[u32; N]>, TopolyxError>)
        requires
            0 < N <= u32::MAX,
        ensures
            grouped_as(r, spec_f32_flat(*self, bin@, field, N as u32)),
    {
        self.check_shape(field, ComponentType::F32, N as u32)?;
        let data = self.extract(bin)?;
        proof {
            lemma_extract_len(*self, bin@);
            lemma_multiple_groupable(N as nat, self.element_count as nat);
        }
        Ok(data.grouped_f32::<N>().unwrap())
    }

    /// Decodes and groups this descriptor's data, checking it is `U32` x `N` first.
    pub fn extract_u32<const N: usize>(&self, bin: &[u8], field: &'static str) -> (r: Result<Vec<[u32; N]>, TopolyxError>)
        requires
            0 < N <= u32::MAX,
        ensures
            grouped_as(r, spec_u32_flat(*self, bin@, field, N as u32)),
    {
        self.check_shape(field, ComponentType::U32, N as u32)?;
        let data = self.extract(bin)?;
        proof {
            lemma_extract_len(*self, bin@);
            lemma_multiple_groupable(N as nat, self.element_count as nat);
        }
        Ok(data.grouped_u32::<N>().unwrap())
    }

    /// Decodes and groups this descriptor's data, checking it is `U8` x `N` first.
    pub fn extract_u8<const N: usize>(&self, bin: &[u8], field: &'static str) -> (r: Result<Vec<[u8; N]>, TopolyxError>)
        requires
            0 < N <= u32::MAX,
        ensures
            grouped_as(r, spec_u8_flat(*self, bin@, field, N as u32)),
    {
        self.check_shape(field, ComponentType::U8, N as u32)?;
        let data = self.extract(bin)?;
        proof {
            lemma_extract_len(*self, bin@);
            lemma_multiple_groupable(N as nat, self.element_count as nat);
        }
        Ok(data.grouped_u8::<N>().unwrap())
    }

    /// Decodes this descriptor's data as a flat `U32` array, checking it is `U32` x 1 first.
    pub fn extract_u32_scalar(&self, bin: &[u8], field: &'static str) -> (r: Result<Vec<u32>, TopolyxError>)
        ensures
            flat_as(r, spec_u32_flat(*self, bin@, field, 1)),
    {
        let grouped = self.extract_u32::<1>(bin, field)?;
        let mut out: Vec<u32> = Vec::new();
        let mut k: usize = 0;
        while k < grouped.len()
            invariant
                k <= grouped@.len(),
                out@.len() == k,
                forall|i: int| 0 <= i < k ==> #[trigger] out@[i] == grouped@[i]@[0],
            decreases grouped@.len() - k,
        {
            let element = grouped[k];
            out.push(element[0]);
            k = k + 1;
        }
        proof {
            let flat = spec_u32_flat(*self, bin@, field, 1).unwrap();
            assert forall|i: int| 0 <= i < out@.len() implies out@[i] == flat[i] by {
                assert(grouped@[i]@[0] == flat[i * 1 + 0]);
            }
            assert(grouped@.len() * 1 == flat.len());
            assert(out@ =~= flat);
        }
        Ok(out)
    }
}

impl Topology {
    /// The local-space position of each vertex, as `f32` bit patterns.
    pub fn positions(&self, bin: &[u8]) -> (r: Result<Vec<[u32; 3]>, TopolyxError>)
        ensures
            grouped_as(r, spec_f32_flat(self.positions, bin@, "topology.positions", 3)),
    {
        self.positions.extract_f32::<3>(bin, "topology.positions")
    }

    /// The two vertex indices of each edge.
    pub fn edges(&self, bin: &[u8]) -> (r: Result<Vec<[u32; 2]>, TopolyxError>)
        ensures
            grouped_as(r, spec_u32_flat(self.edges, bin@, "topology.edges", 2)),
    {
        self.edges.extract_u32::<2>(bin, "topology.edges")
    }

    /// The vertex referenced by each face corner.
    pub fn corner_vertices(&self, bin: &[u8]) -> (r: Result<Vec<u32>, TopolyxError>)
        ensures
            flat_as(r, spec_u32_flat(self.corner_vertices, bin@, "topology.corner_vertices", 1)),
    {
        self.corner_vertices.extract_u32_scalar(bin, "topology.corner_vertices")
    }

    /// The edge leading from each face corner to the next corner of the same face.
    pub fn corner_edges(&self, bin: &[u8]) -> (r: Result<Vec<u32>, TopolyxError>)
        ensures
            flat_as(r, spec_u32_flat(self.corner_edges, bin@, "topology.corner_edges", 1)),
    {
        self.corner_edges.extract_u32_scalar(bin, "topology.corner_edges")
    }

    /// The first corner of each face, plus a trailing total corner count.
    pub fn face_offsets(&self, bin: &[u8]) -> (r: Result<Vec<u32>, TopolyxError>)
        ensures
            flat_as(r, spec_u32_flat(self.face_offsets, bin@, "topology.face_offsets", 1)),
    {
        self.face_offsets.extract_u32_scalar(bin, "topology.face_offsets")
    }
}

/// Attribute values grouped according to the attribute's `semantic` (`f32` values as bit
/// patterns).
#[derive(Debug, Clone, PartialEq, Eq)]
pub enum AttributeValues {
    Position(Vec<[u32; 3]>),
    Direction(Vec<[u32; 3]>),
    Normal(Vec<[u32; 3]>),
    Rotation(Vec<[u32; 4]>),
    Tangent(Vec<[u32; 4]>),
    ColorF32(Vec<[u32; 4]>),
    ColorU8(Vec<[u8; 4]>),
    /// No semantic: the shape is not fixed, so the data is left ungrouped.
    Unassigned(ComponentData),
}

/// `r` is what `Attribute::values` gives for attribute `a` over BIN bytes `bin`.
pub open spec fn values_result(a: Attribute, bin: Seq<u8>, r: Result<AttributeValues, TopolyxError>) -> bool {
    let field = "attribute.data";
    let d = a.data;
    match a.semantic {
        Semantic::Position => match r {
            Ok(AttributeValues::Position(g)) => grouped_as(Ok(g), spec_f32_flat(d, bin, field, 3)),
            Err(e) => grouped_as(Err::<Vec<[u32; 3]>, TopolyxError>(e), spec_f32_flat(d, bin, field, 3)),
            _ => false,
        },
        Semantic::Direction => match r {
            Ok(AttributeValues::Direction(g)) => grouped_as(Ok(g), spec_f32_flat(d, bin, field, 3)),
            Err(e) => grouped_as(Err::<Vec<[u32; 3]>, TopolyxError>(e), spec_f32_flat(d, bin, field, 3)),
            _ => false,
        },
        Semantic::Normal => match r {
            Ok(AttributeValues::Normal(g)) => grouped_as(Ok(g), spec_f32_flat(d, bin, field, 3)),
            Err(e) => grouped_as(Err::<Vec<[u32; 3]>, TopolyxError>(e), spec_f32_flat(d, bin, field, 3)),
            _ => false,
        },
        Semantic::Rotation => match r {
            Ok(AttributeValues::Rotation(g)) => grouped_as(Ok(g), spec_f32_flat(d, bin, field, 4)),
            Err(e) => grouped_as(Err::<Vec<[u32; 4]>, TopolyxError>(e), spec_f32_flat(d, bin, field, 4)),
            _ => false,
        },
        Semantic::Tangent => match r {
            Ok(AttributeValues::Tangent(g)) => grouped_as(Ok(g), spec_f32_flat(d, bin, field, 4)),
            Err(e) => grouped_as(Err::<Vec<[u32; 4]>, TopolyxError>(e), spec_f32_flat(d, bin, field, 4)),
            _ => false,
        },
        Semantic::Color => if d.component_type == ComponentType::U8 {
            match r {
                Ok(AttributeValues::ColorU8(g)) => grouped_as(Ok(g), spec_u8_flat(d, bin, field, 4)),
                Err(e) => grouped_as(Err::<Vec<[u8; 4]>, TopolyxError>(e), spec_u8_flat(d, bin, field, 4)),
                _ => false,
            }
        } else {
            match r {
                Ok(AttributeValues::ColorF32(g)) => grouped_as(Ok(g), spec_f32_flat(d, bin, field, 4)),
                Err(e) => grouped_as(Err::<Vec<[u32; 4]>, TopolyxError>(e), spec_f32_flat(d, bin, field, 4)),
                _ => false,
            }
        },
        Semantic::Unassigned => match (r, spec_extract(d, bin)) {
            (Ok(AttributeValues::Unassigned(c)), Ok(v)) => c@ == v,
            (Err(e), Err(f)) => e == f,
            _ => false,
        },
    }
}

/// Law: what `Attribute::values` gives in terms of the attribute's bytes. It succeeds exactly
/// when the data decodes and has the shape the semantic fixes (`F32` x 3 for `POSITION`,
/// `DIRECTION` and `NORMAL`; `F32` x 4 for `ROTATION` and `TANGENT`; `F32` or `U8` x 4 for
/// `COLOR`; any shape with no semantic), and each grouped variant then holds the data's bytes
/// read as little-endian words (or single bytes for `U8` colors), one element per
/// `element_count`.
#[verifier::spinoff_prover]
pub proof fn lemma_values_read_the_bytes(a: Attribute, bin: Seq<u8>, r: Result<AttributeValues, TopolyxError>)
    requires
        values_result(a, bin, r),
    ensures
        ({
            let d = a.data;
            let ok = spec_extract(d, bin) is Ok;
            match a.semantic {
                Semantic::Position | Semantic::Direction | Semantic::Normal => r is Ok <==> (d.component_type
                    == ComponentType::F32 && d.component_count == 3 && ok),
                Semantic::Rotation | Semantic::Tangent => r is Ok <==> (d.component_type == ComponentType::F32
                    && d.component_count == 4 && ok),
                Semantic::Color => r is Ok <==> ((d.component_type == ComponentType::F32 || d.component_type
                    == ComponentType::U8) && d.component_count == 4 && ok),
                Semantic::Unassigned => r is Ok <==> ok,
            }
        }),
        r matches Ok(AttributeValues::Position(g)) ==> words_from_bytes(g@, a.data, bin),
        r matches Ok(AttributeValues::Direction(g)) ==> words_from_bytes(g@, a.data, bin),
        r matches Ok(AttributeValues::Normal(g)) ==> words_from_bytes(g@, a.data, bin),
        r matches Ok(AttributeValues::Rotation(g)) ==> words_from_bytes(g@, a.data, bin),
        r matches Ok(AttributeValues::Tangent(g)) ==> words_from_bytes(g@, a.data, bin),
        r matches Ok(AttributeValues::ColorF32(g)) ==> words_from_bytes(g@, a.data, bin),
        r matches Ok(AttributeValues::ColorU8(g)) ==> bytes_from_bytes(g@, a.data, bin),
        r matches Ok(AttributeValues::Unassigned(c)) ==> spec_extract(a.data, bin) == Ok::<ComponentValues, TopolyxError>(c@),
{
    let d = a.data;
    let field = "attribute.data";
    match a.semantic {
        Semantic::Position | Semantic::Direction | Semantic::Normal => {
            let g3: Result<Vec<[u32; 3]>, TopolyxError> = match r {
                Ok(AttributeValues::Position(g)) => Ok(g),
                Ok(AttributeValues::Direction(g)) => Ok(g),
                Ok(AttributeValues::Normal(g)) => Ok(g),
                Err(e) => Err(e),
                _ => Err(TopolyxError::DataOutOfBounds),
            };
            assert(grouped_as(g3, spec_f32_flat(d, bin, field, 3)));
            lemma_grouped_words_read_the_bytes::<3>(d, bin, field, ComponentType::F32, g3);
        },
        Semantic::Rotation | Semantic::Tangent => {
            let g4: Result<Vec<[u32; 4]>, TopolyxError> = match r {
                Ok(AttributeValues::Rotation(g)) => Ok(g),
                Ok(AttributeValues::Tangent(g)) => Ok(g),
                Err(e) => Err(e),
                _ => Err(TopolyxError::DataOutOfBounds),
            };
            assert(grouped_as(g4, spec_f32_flat(d, bin, field, 4)));
            lemma_grouped_words_read_the_bytes::<4>(d, bin, field, ComponentType::F32, g4);
        },
        Semantic::Color => {
            if d.component_type == ComponentType::U8 {
                let g4: Result<Vec<[u8; 4]>, TopolyxError> = match r {
                    Ok(AttributeValues::ColorU8(g)) => Ok(g),
                    Err(e) => Err(e),
                    _ => Err(TopolyxError::DataOutOfBounds),
                };
                assert(grouped_as(g4, spec_u8_flat(d, bin, field, 4)));
                lemma_grouped_bytes_read_the_bytes::<4>(d, bin, field, g4);
            } else {
                let g4: Result<Vec<[u32; 4]>, TopolyxError> = match r {
                    Ok(AttributeValues::ColorF32(g)) => Ok(g),
                    Err(e) => Err(e),
                    _ => Err(TopolyxError::DataOutOfBounds),
                };
                assert(grouped_as(g4, spec_f32_flat(d, bin, field, 4)));
                lemma_grouped_words_read_the_bytes::<4>(d, bin, field, ComponentType::F32, g4);
            }
        },
        Semantic::Unassigned => {},
    }
}

/// Law: a flat `U32` x 1 result (`corner_vertices`, `corner_edges`, `face_offsets`) is exactly
/// the descriptor's bytes read as little-endian words, one per `element_count`; it is an error
/// exactly when the descriptor is not `U32` x 1 or does not decode.
#[verifier::spinoff_prover]
pub proof fn lemma_flat_words_read_the_bytes(
    d: DataDescriptor,
    bin: Seq<u8>,
    field: &'static str,
    r: Result<Vec<u32>, TopolyxError>,
)
    requires
        flat_as(r, spec_u32_flat(d, bin, field, 1)),
    ensures
        r is Ok <==> d.component_type == ComponentType::U32 && d.component_count == 1 && spec_extract(d, bin) is Ok,
        r matches Ok(v) ==> {
            &&& v@.len() == d.element_count
            &&& forall|k: int|
                0 <= k < v@.len() ==> {
                    let off = d.byte_offset + 4 * k;
                    #[trigger] v@[k] == bin[off] + 256 * bin[off + 1] + 65536 * bin[off + 2] + 16777216 * bin[off + 3]
                }
        },
{
    lemma_extract_reads_the_bytes(d, bin);
    lemma_extract_len(d, bin);
}

impl Attribute {
    /// Decodes and groups this attribute's data according to its `semantic`.
    pub fn values(&self, bin: &[u8]) -> (r: Result<AttributeValues, TopolyxError>)
        ensures
            values_result(*self, bin@, r),
            r matches Ok(v) ==> match self.semantic {
                Semantic::Position => v is Position,
                Semantic::Direction => v is Direction,
                Semantic::Normal => v is Normal,
                Semantic::Rotation => v is Rotation,
                Semantic::Tangent => v is Tangent,
                Semantic::Color => if self.data.component_type == ComponentType::U8 {
                    v is ColorU8
                } else {
                    v is ColorF32
                },
                Semantic::Unassigned => v is Unassigned,
            },
    {
        let field: &'static str = "attribute.data";
        match self.semantic {
            Semantic::Position => Ok(AttributeValues::Position(self.data.extract_f32::<3>(bin, field)?)),
            Semantic::Direction => Ok(AttributeValues::Direction(self.data.extract_f32::<3>(bin, field)?)),
            Semantic::Normal => Ok(AttributeValues::Normal(self.data.extract_f32::<3>(bin, field)?)),
            Semantic::Rotation => Ok(AttributeValues::Rotation(self.data.extract_f32::<4>(bin, field)?)),
            Semantic::Tangent => Ok(AttributeValues::Tangent(self.data.extract_f32::<4>(bin, field)?)),
            Semantic::Color => if self.data.component_type == ComponentType::U8 {
                Ok(AttributeValues::ColorU8(self.data.extract_u8::<4>(bin, field)?))
            } else {
                Ok(AttributeValues::ColorF32(self.data.extract_f32::<4>(bin, field)?))
            },
            Semantic::Unassigned => Ok(AttributeValues::Unassigned(self.data.extract(bin)?)),
        }
    }
}

/// The attribute at `i` of `attrs` is named `name`.
pub open spec fn named(attrs: Seq<Attribute>, name: Seq<char>) -> spec_fn(int) -> bool {
    |i: int| attrs[i].name@ == name
}

/// The attribute has role `semantic`.
pub open spec fn has_semantic(semantic: Semantic) -> spec_fn(Attribute) -> bool {
    |a: Attribute| a.semantic == semantic
}

impl Mesh {
    /// The first attribute of this mesh named `name`, if any.
    pub fn attribute(&self, name: &str) -> (r: Option<&Attribute>)
        ensures
            match first_in(0, self.attributes@.len() as int, named(self.attributes@, name@)) {
                Some(i) => r matches Some(a) && *a == self.attributes@[i],
                None => r is None,
            },
    {
        let wanted = name.to_owned();
        let mut i: usize = 0;
        while i < self.attributes.len()
            invariant
                i <= self.attributes@.len(),
                wanted@ == name@,
                forall|j: int| 0 <= j < i ==> !#[trigger] named(self.attributes@, name@)(j),
            decreases self.attributes@.len() - i,
        {
            if self.attributes[i].name == wanted {
                proof {
                    assert(is_first(named(self.attributes@, name@), 0, i as int));
                    lemma_first_in_some(0, self.attributes@.len() as int, named(self.attributes@, name@), i as int);
                }
                return Some(&self.attributes[i]);
            }
            i = i + 1;
        }
        proof {
            lemma_first_in_none(0, self.attributes@.len() as int, named(self.attributes@, name@));
        }
        None
    }

    /// This mesh's attributes with the given `semantic`, in order.
    pub fn attributes_by_semantic(&self, semantic: Semantic) -> (r: Vec<&Attribute>)
        ensures
            r@.len() == self.attributes@.filter(has_semantic(semantic)).len(),
            forall|i: int| 0 <= i < r@.len() ==> *r@[i] == #[trigger] self.attributes@.filter(has_semantic(semantic))[i],
    {
        let ghost pred = has_semantic(semantic);
        let mut out: Vec<&Attribute> = Vec::new();
        let mut i: usize = 0;
        while i < self.attributes.len()
            invariant
                i <= self.attributes@.len(),
                pred == has_semantic(semantic),
                out@.len() == self.attributes@.take(i as int).filter(pred).len(),
                forall|k: int| 0 <= k < out@.len() ==> *out@[k] == #[trigger] self.attributes@.take(i as int).filter(pred)[k],
            decreases self.attributes@.len() - i,
        {
            proof {
                reveal(Seq::filter);
                assert(self.attributes@.take(i + 1).drop_last() == self.attributes@.take(i as int));
            }
            if self.attributes[i].semantic == semantic {
                out.push(&self.attributes[i]);
            }
            i = i + 1;
        }
        assert(self.attributes@.take(self.attributes@.len() as int) == self.attributes@);
        out
    }
}

} // verus!
