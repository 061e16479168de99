//! Decoding of the BIN bytes a `DataDescriptor` refers to into typed component arrays.

use crate::error::TopolyxError;
use crate::file::{spec_byte_size, ComponentType, DataDescriptor};
use crate::util::{first_in, is_first, lemma_first_in_none, lemma_first_in_props, lemma_first_in_some, le_u32, read_u32_le};
use vstd::prelude::*;
use vstd::slice::slice_subrange;

verus! {

/// Decoded, flat component values of one array, one variant per `ComponentType`.
///
/// The length is always `component_count * element_count` of the originating descriptor.
/// `F32` values are kept as their IEEE-754 bit patterns (exactly the four little-endian bytes
/// of the BIN chunk).
#[derive(Debug, Clone, PartialEq, Eq)]
pub enum ComponentData {
    F32(Vec<u32>),
    I32(Vec<i32>),
    U32(Vec<u32>),
    I8(Vec<i8>),
    U8(Vec<u8>),
    Bool(Vec<bool>),
}

/// The mathematical content of a `ComponentData`: which type, and the sequence of values.
pub enum ComponentValues {
    F32(Seq<u32>),
    I32(Seq<i32>),
    U32(Seq<u32>),
    I8(Seq<i8>),
    U8(Seq<u8>),
    Bool(Seq<bool>),
}

impl ComponentValues {
    /// Number of scalar values.
    pub open spec fn len(self) -> nat {
        match self {
            ComponentValues::F32(v) => v.len(),
            ComponentValues::I32(v) => v.len(),
            ComponentValues::U32(v) => v.len(),
            ComponentValues::I8(v) => v.len(),
            ComponentValues::U8(v) => v.len(),
            ComponentValues::Bool(v) => v.len(),
        }
    }

    /// The component type these values are of.
    pub open spec fn component_type(self) -> ComponentType {
        match self {
            ComponentValues::F32(_) => ComponentType::F32,
            ComponentValues::I32(_) => ComponentType::I32,
            ComponentValues::U32(_) => ComponentType::U32,
            ComponentValues::I8(_) => ComponentType::I8,
            ComponentValues::U8(_) => ComponentType::U8,
            ComponentValues::Bool(_) => ComponentType::Bool,
        }
    }
}

impl View for ComponentData {
    type V = ComponentValues;

    open spec fn view(&self) -> ComponentValues {
        match self {
            ComponentData::F32(v) => ComponentValues::F32(v@),
            ComponentData::I32(v) => ComponentValues::I32(v@),
            ComponentData::U32(v) => ComponentValues::U32(v@),
            ComponentData::I8(v) => ComponentValues::I8(v@),
            ComponentData::U8(v) => ComponentValues::U8(v@),
            ComponentData::Bool(v) => ComponentValues::Bool(v@),
        }
    }
}

impl ComponentData {
    /// Number of decoded scalar values (`component_count * element_count`).
    pub fn len(&self) -> (r: usize)
        ensures
            r == self@.len(),
    {
        match self {
            ComponentData::F32(v) => v.len(),
            ComponentData::I32(v) => v.len(),
            ComponentData::U32(v) => v.len(),
            ComponentData::I8(v) => v.len(),
            ComponentData::U8(v) => v.len(),
            ComponentData::Bool(v) => v.len(),
        }
    }

    /// Whether there are no values at all.
    pub fn is_empty(&self) -> (r: bool)
        ensures
            r == (self@.len() == 0),
    {
        self.len() == 0
    }

    /// The values as IEEE-754 bit patterns, if this is an `F32` array.
    pub fn as_f32(&self) -> (r: Option<&[u32]>)
        ensures
            match self@ {
                ComponentValues::F32(v) => r matches Some(s) && s@ == v,
                _ => r is None,
            },
    {
        match self {
            ComponentData::F32(v) => Some(v.as_slice()),
            _ => None,
        }
    }

    /// The values, if this is an `I32` array.
    pub fn as_i32(&self) -> (r: Option<&[i32]>)
        ensures
            match self@ {
                ComponentValues::I32(v) => r matches Some(s) && s@ == v,
                _ => r is None,
            },
    {
        match self {
            ComponentData::I32(v) => Some(v.as_slice()),
            _ => None,
        }
    }

    /// The values, if this is a `U32` array.
    pub fn as_u32(&self) -> (r: Option<&[u32]>)
        ensures
            match self@ {
                ComponentValues::U32(v) => r matches Some(s) && s@ == v,
                _ => r is None,
            },
    {
        match self {
            ComponentData::U32(v) => Some(v.as_slice()),
            _ => None,
        }
    }

    /// The values, if this is an `I8` array.
    pub fn as_i8(&self) -> (r: Option<&[i8]>)
        ensures
            match self@ {
                ComponentValues::I8(v) => r matches Some(s) && s@ == v,
                _ => r is None,
            },
    {
        match self {
            ComponentData::I8(v) => Some(v.as_slice()),
            _ => None,
        }
    }

    /// The values, if this is a `U8` array.
    pub fn as_u8(&self) -> (r: Option<&[u8]>)
        ensures
            match self@ {
                ComponentValues::U8(v) => r matches Some(s) && s@ == v,
                _ => r is None,
            },
    {
        match self {
            ComponentData::U8(v) => Some(v.as_slice()),
            _ => None,
        }
    }

    /// The values, if this is a `BOOL` array.
    pub fn as_bool(&self) -> (r: Option<&[bool]>)
        ensures
            match self@ {
                ComponentValues::Bool(v) => r matches Some(s) && s@ == v,
                _ => r is None,
            },
    {
        match self {
            ComponentData::Bool(v) => Some(v.as_slice()),
            _ => None,
        }
    }
}

/// The consecutive little-endian 4-byte words of `s`.
pub open spec fn le_words(s: Seq<u8>) -> Seq<u32> {
    Seq::new(s.len() / 4, |k: int| le_u32(s, 4 * k) as u32)
}

/// Two's-complement reading of a 32-bit word.
pub open spec fn word_to_i32(w: u32) -> i32 {
    if w < 0x8000_0000 {
        w as i32
    } else {
        (w - 0x1_0000_0000) as i32
    }
}

/// Two's-complement reading of a byte.
pub open spec fn byte_to_i8(b: u8) -> i8 {
    if b < 0x80 {
        b as i8
    } else {
        (b - 0x100) as i8
    }
}

/// The byte at `i` of `s` is neither `0x00` nor `0x01`.
pub open spec fn not_bool_byte(s: Seq<u8>) -> spec_fn(int) -> bool {
    |i: int| s[i] != 0u8 && s[i] != 1u8
}

/// The bytes a descriptor refers to, once its range is known to lie inside `bin`.
pub open spec fn descriptor_bytes(d: DataDescriptor, bin: Seq<u8>) -> Seq<u8> {
    bin.subrange(d.byte_offset as int, d.byte_offset + d.byte_length)
}

/// The range checks on a descriptor, before any byte is decoded.
pub open spec fn descriptor_range_error(d: DataDescriptor, bin_len: int) -> Option<TopolyxError> {
    if d.byte_offset % 4 != 0 {
        Some(TopolyxError::UnalignedByteOffset(d.byte_offset))
    } else if spec_byte_size(d.component_type) * d.component_count * d.element_count != d.byte_length {
        Some(TopolyxError::ByteLengthMismatch)
    } else if d.byte_offset + d.byte_length > bin_len {
        Some(TopolyxError::DataOutOfBounds)
    } else {
        None
    }
}

/// Decoding bytes `s` as components of type `t`.
pub open spec fn decode_bytes(t: ComponentType, s: Seq<u8>) -> Result<ComponentValues, TopolyxError> {
    match t {
        ComponentType::F32 => Ok(ComponentValues::F32(le_words(s))),
        ComponentType::I32 => Ok(ComponentValues::I32(le_words(s).map_values(|w: u32| word_to_i32(w)))),
        ComponentType::U32 => Ok(ComponentValues::U32(le_words(s))),
        ComponentType::I8 => Ok(ComponentValues::I8(s.map_values(|b: u8| byte_to_i8(b)))),
        ComponentType::U8 => Ok(ComponentValues::U8(s)),
        ComponentType::Bool => match first_in(0, s.len() as int, not_bool_byte(s)) {
            Some(i) => Err(TopolyxError::InvalidBoolValue(s[i])),
            None => Ok(ComponentValues::Bool(s.map_values(|b: u8| b == 1u8))),
        },
    }
}

/// What `DataDescriptor::extract` gives for descriptor `d` over BIN bytes `bin`.
pub open spec fn spec_extract(d: DataDescriptor, bin: Seq<u8>) -> Result<ComponentValues, TopolyxError> {
    match descriptor_range_error(d, bin.len() as int) {
        Some(e) => Err(e),
        None => decode_bytes(d.component_type, descriptor_bytes(d, bin)),
    }
}

/// Reads every little-endian 4-byte word of `s` (whose length is a multiple of 4).
pub fn decode_le(s: &[u8]) -> (r: Vec<u32>)
    requires
        s@.len() % 4 == 0,
    ensures
        r@ == le_words(s@),
{
    let mut out: Vec<u32> = Vec::new();
    let mut pos: usize = 0;
    while pos < s.len()
        invariant
            s@.len() % 4 == 0,
            pos % 4 == 0,
            pos <= s@.len(),
            out@.len() * 4 == pos,
            forall|k: int| 0 <= k < out@.len() ==> #[trigger] out@[k] == le_u32(s@, 4 * k) as u32,
        decreases s@.len() - pos,
    {
        let w = read_u32_le(s, pos);
        out.push(w);
        pos = pos + 4;
    }
    assert(out@ == le_words(s@));
    out
}

/// Two's-complement reading of a 32-bit word.
fn word_as_i32(w: u32) -> (r: i32)
    ensures
        r == word_to_i32(w),
{
    if w < 0x8000_0000 {
        w as i32
    } else {
        ((w - 0x8000_0000) as i32) - 0x4000_0000 - 0x4000_0000
    }
}

/// Two's-complement reading of a byte.
fn byte_as_i8(b: u8) -> (r: i8)
    ensures
        r == byte_to_i8(b),
{
    if b < 0x80 {
        b as i8
    } else {
        ((b - 0x80) as i8) - 0x40 - 0x40
    }
}

impl DataDescriptor {
    /// Decodes the bytes this descriptor refers to out of `bin`, the BIN chunk's data.
    pub fn extract(&self, bin: &[u8]) -> (r: Result<ComponentData, TopolyxError>)
        ensures
            match (r, spec_extract(*self, bin@)) {
                (Ok(c), Ok(v)) => c@ == v,
                (Err(e), Err(f)) => e == f,
                _ => false,
            },
    {
        if self.byte_offset % 4 != 0 {
            return Err(TopolyxError::UnalignedByteOffset(self.byte_offset));
        }

        let component_size = self.component_type.byte_size() as u64;
        let size_times_count: u64 = if component_size == 4 {
            (self.component_count as u64) * 4
        } else {
            self.component_count as u64
        };
        assert(size_times_count == spec_byte_size(self.component_type) * self.component_count);
        let expected = size_times_count.checked_mul(self.element_count as u64);
        let matches = match expected {
            Some(n) => n == self.byte_length as u64,
            None => false,
        };
        if !matches {
            return Err(TopolyxError::ByteLengthMismatch);
        }
        proof {
            let cc = self.component_count as int;
            let ec = self.element_count as int;
            assert((4 * cc) * ec == 4 * (cc * ec)) by (nonlinear_arith);
        }

        let start = self.byte_offset as usize;
        let length = self.byte_length as usize;
        if start > bin.len() || length > bin.len() - start {
            return Err(TopolyxError::DataOutOfBounds);
        }
        let slice = slice_subrange(bin, start, start + length);
        assert(slice@ == descriptor_bytes(*self, bin@));

        match self.component_type {
            ComponentType::F32 => Ok(ComponentData::F32(decode_le(slice))),
            ComponentType::U32 => Ok(ComponentData::U32(decode_le(slice))),
            ComponentType::I32 => {
                let words = decode_le(slice);
                let mut out: Vec<i32> = Vec::new();
                let mut k: usize = 0;
                while k < words.len()
                    invariant
                        k <= words@.len(),
                        out@ == words@.take(k as int).map_values(|w: u32| word_to_i32(w)),
                    decreases words@.len() - k,
                {
                    out.push(word_as_i32(words[k]));
                    assert(words@.take(k + 1) == words@.take(k as int).push(words@[k as int]));
                    k = k + 1;
                }
                assert(words@.take(words@.len() as int) == words@);
                Ok(ComponentData::I32(out))
            },
            ComponentType::I8 => {
                let mut out: Vec<i8> = Vec::new();
                let mut k: usize = 0;
                while k < slice.len()
                    invariant
                        k <= slice@.len(),
                        out@ == slice@.take(k as int).map_values(|b: u8| byte_to_i8(b)),
                    decreases slice@.len() - k,
                {
                    out.push(byte_as_i8(slice[k]));
                    assert(slice@.take(k + 1) == slice@.take(k as int).push(slice@[k as int]));
                    k = k + 1;
                }
                assert(slice@.take(slice@.len() as int) == slice@);
                Ok(ComponentData::I8(out))
            },
            ComponentType::U8 => {
                let mut out: Vec<u8> = Vec::new();
                let mut k: usize = 0;
                while k < slice.len()
                    invariant
                        k <= slice@.len(),
                        out@ == slice@.take(k as int),
                    decreases slice@.len() - k,
                {
                    out.push(slice[k]);
                    assert(slice@.take(k + 1) == slice@.take(k as int).push(slice@[k as int]));
                    k = k + 1;
                }
                assert(slice@.take(slice@.len() as int) == slice@);
                Ok(ComponentData::U8(out))
            },
            ComponentType::Bool => {
                let mut out: Vec<bool> = Vec::new();
                let mut k: usize = 0;
                while k < slice.len()
                    invariant
                        k <= slice@.len(),
                        out@ == slice@.take(k as int).map_values(|b: u8| b == 1u8),
                        forall|j: int| 0 <= j < k ==> !#[trigger] not_bool_byte(slice@)(j),
                        slice@ == descriptor_bytes(*self, bin@),
                        descriptor_range_error(*self, bin@.len() as int) is None,
                        self.component_type == ComponentType::Bool,
                    decreases slice@.len() - k,
                {
                    let b = slice[k];
                    if b == 0 {
                        out.push(false);
                    } else if b == 1 {
                        out.push(true);
                    } else {
                        proof {
                            assert(is_first(not_bool_byte(slice@), 0, k as int));
                            lemma_first_in_some(0, slice@.len() as int, not_bool_byte(slice@), k as int);
                        }
                        return Err(TopolyxError::InvalidBoolValue(b));
                    }
                    assert(slice@.take(k + 1) == slice@.take(k as int).push(slice@[k as int]));
                    k = k + 1;
                }
                proof {
                    lemma_first_in_none(0, slice@.len() as int, not_bool_byte(slice@));
                }
                assert(slice@.take(slice@.len() as int) == slice@);
                Ok(ComponentData::Bool(out))
            },
        }
    }
}

/// Law: decoding succeeds exactly when the offset is 4-byte aligned, the length is the
/// component size (4 bytes for `F32`/`I32`/`U32`, 1 for `I8`/`U8`/`BOOL`) times
/// `component_count * element_count`, the range lies inside the BIN chunk, and (for `BOOL`)
/// every byte is 0 or 1. The values are then the range's bytes read as little-endian words or
/// single bytes of the descriptor's type (two's complement for signed types; `BOOL` is `true`
/// for byte 1).
#[verifier::spinoff_prover]
pub proof fn lemma_extract_reads_the_bytes(d: DataDescriptor, bin: Seq<u8>)
    ensures
        spec_extract(d, bin) is Ok <==> {
            &&& d.byte_offset % 4 == 0
            &&& (if d.component_type == ComponentType::F32 || d.component_type == ComponentType::I32
                || d.component_type == ComponentType::U32 {
                4int
            } else {
                1int
            }) * d.component_count * d.element_count == d.byte_length
            &&& d.byte_offset + d.byte_length <= bin.len()
            &&& d.component_type == ComponentType::Bool ==> forall|k: int|
                0 <= k < d.byte_length ==> #[trigger] bin[d.byte_offset + k] == 0u8 || bin[d.byte_offset + k] == 1u8
        },
        spec_extract(d, bin) matches Ok(v) ==> {
            let o = d.byte_offset as int;
            match v {
                ComponentValues::F32(w) => d.component_type == ComponentType::F32 && w.len() * 4 == d.byte_length
                    && forall|k: int|
                    0 <= k < w.len() ==> #[trigger] w[k] == bin[o + 4 * k] + 256 * bin[o + 4 * k + 1] + 65536 * bin[o
                        + 4 * k + 2] + 16777216 * bin[o + 4 * k + 3],
                ComponentValues::U32(w) => d.component_type == ComponentType::U32 && w.len() * 4 == d.byte_length
                    && forall|k: int|
                    0 <= k < w.len() ==> #[trigger] w[k] == bin[o + 4 * k] + 256 * bin[o + 4 * k + 1] + 65536 * bin[o
                        + 4 * k + 2] + 16777216 * bin[o + 4 * k + 3],
                ComponentValues::I32(w) => d.component_type == ComponentType::I32 && w.len() * 4 == d.byte_length
                    && forall|k: int|
                    0 <= k < w.len() ==> {
                        let u = bin[o + 4 * k] + 256 * bin[o + 4 * k + 1] + 65536 * bin[o + 4 * k + 2] + 16777216 * bin[o
                            + 4 * k + 3];
                        #[trigger] w[k] == if u < 0x8000_0000 {
                            u
                        } else {
                            u - 0x1_0000_0000
                        }
                    },
                ComponentValues::U8(b) => d.component_type == ComponentType::U8 && b.len() == d.byte_length && forall|
                    k: int,
                | 0 <= k < b.len() ==> #[trigger] b[k] == bin[o + k],
                ComponentValues::I8(b) => d.component_type == ComponentType::I8 && b.len() == d.byte_length && forall|
                    k: int,
                | 0 <= k < b.len() ==> #[trigger] b[k] == if bin[o + k] < 0x80 {
                    bin[o + k] as int
                } else {
                    bin[o + k] - 0x100
                },
                ComponentValues::Bool(b) => d.component_type == ComponentType::Bool && b.len() == d.byte_length
                    && forall|k: int| 0 <= k < b.len() ==> #[trigger] b[k] == (bin[o + k] == 1u8),
            }
        },
{
    let o = d.byte_offset as int;
    let t = d.component_type;
    let cc = d.component_count as int;
    let ec = d.element_count as int;
    assert((4 * cc) * ec == 4 * cc * ec);
    if descriptor_range_error(d, bin.len() as int) is None {
        let s = descriptor_bytes(d, bin);
        assert(s.len() == d.byte_length);
        assert forall|k: int| 0 <= k < s.len() implies #[trigger] s[k] == bin[o + k] by {}
        if t == ComponentType::Bool {
            lemma_first_in_props(0, s.len() as int, not_bool_byte(s));
            if let Some(i) = first_in(0, s.len() as int, not_bool_byte(s)) {
                assert(not_bool_byte(s)(i));
                assert(!(bin[o + i] == 0u8 || bin[o + i] == 1u8));
            } else {
                assert forall|k: int| 0 <= k < d.byte_length implies #[trigger] bin[d.byte_offset + k] == 0u8 || bin[d.byte_offset + k] == 1u8 by {
                    assert(!not_bool_byte(s)(k));
                    assert(s[k] == bin[o + k]);
                }
            }
        }
        if spec_byte_size(t) == 4 {
            assert(s.len() % 4 == 0) by {
                assert(s.len() == 4 * (cc * ec)) by (nonlinear_arith)
                    requires s.len() == (4 * cc) * ec;
            }
            assert forall|k: int| 0 <= k < s.len() / 4 implies #[trigger] le_u32(s, 4 * k) == bin[o + 4 * k] + 256 * bin[o + 4 * k + 1] + 65536 * bin[o + 4 * k + 2] + 16777216 * bin[o + 4 * k + 3] by {
                assert(s[4 * k] == bin[o + 4 * k]);
                assert(s[4 * k + 1] == bin[o + 4 * k + 1]);
                assert(s[4 * k + 2] == bin[o + 4 * k + 2]);
                assert(s[4 * k + 3] == bin[o + 4 * k + 3]);
            }
        }
    }
}

/// A successful decode yields `component_count * element_count` values of the descriptor's
/// component type.
pub proof fn lemma_extract_len(d: DataDescriptor, bin: Seq<u8>)
    ensures
        spec_extract(d, bin) matches Ok(v) ==> {
            &&& v.len() == d.component_count * d.element_count
            &&& v.component_type() == d.component_type
        },
{
    if let Ok(v) = spec_extract(d, bin) {
        let s = descriptor_bytes(d, bin);
        let cc = d.component_count as int;
        let ec = d.element_count as int;
        assert(s.len() == d.byte_length);
        if spec_byte_size(d.component_type) == 4 {
            assert((4 * cc) * ec == 4 * (cc * ec)) by (nonlinear_arith);
            assert(s.len() / 4 == cc * ec);
        } else {
            assert(s.len() == cc * ec);
        }
    }
}

} // verus!
