//! Splitting a `.tlyx` container into its JSON and BIN chunks, and the container-level checks
//! made once the JSON chunk has been parsed.

use crate::error::TopolyxError;
use crate::util::{first_in, is_first, lemma_first_in_none, lemma_first_in_some, le_u32, read_u32_le, str_chars};
use vstd::prelude::*;
use vstd::slice::slice_subrange;

verus! {

/// Where the pieces of a well-formed container lie: the container version, and the byte
/// ranges `[json_start, json_end)` and `[bin_start, bin_end)` of the two chunks' data.
pub struct ContainerLayout {
    pub version: u32,
    pub json_start: int,
    pub json_end: int,
    pub bin_start: int,
    pub bin_end: int,
}

/// The four type bytes of a chunk header at `offset` are `ty`.
pub open spec fn chunk_type_is(d: Seq<u8>, offset: int, ty: Seq<u8>) -> bool {
    &&& d[offset + 4] == ty[0]
    &&& d[offset + 5] == ty[1]
    &&& d[offset + 6] == ty[2]
    &&& d[offset + 7] == ty[3]
}

/// Reading the chunk whose 8-byte header starts at `offset`, expected to be of type `ty`:
/// the end of its data, or the error.
pub open spec fn spec_read_chunk(d: Seq<u8>, offset: int, ty: Seq<u8>) -> Result<int, TopolyxError> {
    if offset + 8 > d.len() {
        Err(TopolyxError::MalformedContainer)
    } else if !chunk_type_is(d, offset, ty) {
        Err(TopolyxError::MalformedContainer)
    } else if le_u32(d, offset) % 4 != 0 {
        Err(TopolyxError::MalformedContainer)
    } else if offset + 8 + le_u32(d, offset) > d.len() {
        Err(TopolyxError::MalformedContainer)
    } else {
        Ok(offset + 8 + le_u32(d, offset))
    }
}

/// Chunk type `JSON`.
pub open spec fn json_type() -> Seq<u8> {
    seq![0x4Au8, 0x53u8, 0x4Fu8, 0x4Eu8]
}

/// Chunk type `BIN\0`.
pub open spec fn bin_type() -> Seq<u8> {
    seq![0x42u8, 0x49u8, 0x4Eu8, 0x00u8]
}

/// The container starts with the magic bytes `TLYX`.
pub open spec fn has_magic(d: Seq<u8>) -> bool {
    d[0] == 0x54 && d[1] == 0x4C && d[2] == 0x59 && d[3] == 0x58
}

/// How a container splits: header (magic, version 1, total length), a `JSON` chunk at byte 12,
/// a `BIN\0` chunk right after it, and nothing after that.
pub open spec fn spec_parse_container(d: Seq<u8>) -> Result<ContainerLayout, TopolyxError> {
    if d.len() < 12 {
        Err(TopolyxError::MalformedContainer)
    } else if !has_magic(d) {
        Err(TopolyxError::InvalidMagic)
    } else if le_u32(d, 4) != 1 {
        Err(TopolyxError::UnsupportedContainerVersion(le_u32(d, 4) as u32))
    } else if le_u32(d, 8) != d.len() {
        Err(TopolyxError::TotalLengthMismatch)
    } else {
        match spec_read_chunk(d, 12, json_type()) {
            Err(e) => Err(e),
            Ok(json_end) => match spec_read_chunk(d, json_end, bin_type()) {
                Err(e) => Err(e),
                Ok(bin_end) => if bin_end != d.len() {
                    Err(TopolyxError::TrailingBytes((d.len() - bin_end) as usize))
                } else {
                    Ok(
                        ContainerLayout {
                            version: 1,
                            json_start: 20,
                            json_end,
                            bin_start: json_end + 8,
                            bin_end,
                        },
                    )
                },
            },
        }
    }
}

/// Splits a whole file into the container version, the JSON chunk's data and the BIN chunk's
/// data.
pub fn parse_container(data: &[u8]) -> (r: Result<(u32, &[u8], &[u8]), TopolyxError>)
    ensures
        match (r, spec_parse_container(data@)) {
            (Ok((version, json, bin)), Ok(layout)) => {
                &&& version == layout.version
                &&& json@ == data@.subrange(layout.json_start, layout.json_end)
                &&& bin@ == data@.subrange(layout.bin_start, layout.bin_end)
            },
            (Err(e), Err(f)) => e == f,
            _ => false,
        },
{
    if data.len() < 12 {
        return Err(TopolyxError::MalformedContainer);
    }
    if !(data[0] == 0x54 && data[1] == 0x4C && data[2] == 0x59 && data[3] == 0x58) {
        return Err(TopolyxError::InvalidMagic);
    }
    let version = read_u32_le(data, 4);
    if version != 1 {
        return Err(TopolyxError::UnsupportedContainerVersion(version));
    }
    let total_length = read_u32_le(data, 8) as usize;
    if total_length != data.len() {
        return Err(TopolyxError::TotalLengthMismatch);
    }

    let json_tag: [u8; 4] = [0x4A, 0x53, 0x4F, 0x4E];
    assert(json_tag@ == json_type());
    let (json_start, json_end) = read_chunk(data, 12, &json_tag)?;

    let bin_tag: [u8; 4] = [0x42, 0x49, 0x4E, 0x00];
    assert(bin_tag@ == bin_type());
    let (bin_start, bin_end) = read_chunk(data, json_end, &bin_tag)?;

    if bin_end != data.len() {
        return Err(TopolyxError::TrailingBytes(data.len() - bin_end));
    }

    let json_bytes = slice_subrange(data, json_start, json_end);
    let bin_bytes = slice_subrange(data, bin_start, bin_end);
    Ok((version, json_bytes, bin_bytes))
}

/// Locates the chunk whose header starts at `offset`: the range of its data.
pub fn read_chunk(data: &[u8], offset: usize, expected_type: &[u8; 4]) -> (r: Result<(usize, usize), TopolyxError>)
    ensures
        match (r, spec_read_chunk(data@, offset as int, expected_type@)) {
            (Ok((start, end)), Ok(e)) => start == offset + 8 && end == e,
            (Err(e), Err(f)) => e == f,
            _ => false,
        },
{
    if offset > data.len() || data.len() - offset < 8 {
        return Err(TopolyxError::MalformedContainer);
    }
    let chunk_length = read_u32_le(data, offset) as usize;
    if !(data[offset + 4] == expected_type[0] && data[offset + 5] == expected_type[1]
        && data[offset + 6] == expected_type[2] && data[offset + 7] == expected_type[3]) {
        return Err(TopolyxError::MalformedContainer);
    }
    if chunk_length % 4 != 0 {
        return Err(TopolyxError::MalformedContainer);
    }
    let data_start = offset + 8;
    if chunk_length > data.len() - data_start {
        return Err(TopolyxError::MalformedContainer);
    }
    Ok((data_start, data_start + chunk_length))
}

/// The byte at `i` of `s` is not the space character `0x20`.
pub open spec fn not_space(s: Seq<u8>) -> spec_fn(int) -> bool {
    |i: int| s[i] != 0x20u8
}

/// Every byte of the JSON chunk after its first `consumed` bytes must be `0x20`: the first
/// other byte, if any, is reported.
pub open spec fn spec_json_padding(s: Seq<u8>, consumed: int) -> Result<(), TopolyxError> {
    match first_in(consumed, s.len() as int, not_space(s)) {
        Some(i) => Err(TopolyxError::InvalidPadding { chunk: "JSON", expected: 0x20u8, found: s[i] }),
        None => Ok(()),
    }
}

/// Checks that every byte of `json_bytes` after the `consumed` bytes of actual JSON content is
/// the padding byte `0x20`.
pub fn check_json_padding(json_bytes: &[u8], consumed: usize) -> (r: Result<(), TopolyxError>)
    requires
        consumed <= json_bytes@.len(),
    ensures
        r == spec_json_padding(json_bytes@, consumed as int),
        r is Ok <==> forall|j: int| consumed <= j < json_bytes@.len() ==> json_bytes@[j] == 0x20u8,
        r matches Err(e) ==> exists|j: int|
            consumed <= j < json_bytes@.len() && json_bytes@[j] != 0x20u8 && (forall|k: int|
                consumed <= k < j ==> json_bytes@[k] == 0x20u8) && e == (TopolyxError::InvalidPadding {
                chunk: "JSON",
                expected: 0x20u8,
                found: #[trigger] json_bytes@[j],
            }),
{
    let mut i = consumed;
    while i < json_bytes.len()
        invariant
            consumed <= i <= json_bytes@.len(),
            forall|j: int| consumed <= j < i ==> !#[trigger] not_space(json_bytes@)(j),
        decreases json_bytes@.len() - i,
    {
        let byte = json_bytes[i];
        if byte != 0x20 {
            proof {
                assert(is_first(not_space(json_bytes@), consumed as int, i as int));
                lemma_first_in_some(consumed as int, json_bytes@.len() as int, not_space(json_bytes@), i as int);
                assert forall|k: int| consumed <= k < i implies json_bytes@[k] == 0x20u8 by {
                    assert(!not_space(json_bytes@)(k));
                }
                assert(json_bytes@[i as int] == byte);
            }
            return Err(TopolyxError::InvalidPadding { chunk: "JSON", expected: 0x20, found: byte });
        }
        i = i + 1;
    }
    proof {
        lemma_first_in_none(consumed as int, json_bytes@.len() as int, not_space(json_bytes@));
        assert forall|j: int| consumed <= j < json_bytes@.len() implies json_bytes@[j] == 0x20u8 by {
            assert(!not_space(json_bytes@)(j));
        }
    }
    Ok(())
}


/// `c` is an ASCII decimal digit.
pub open spec fn is_digit(c: char) -> bool {
    '0' <= c && c <= '9'
}

/// Value of the decimal digit `c`.
pub open spec fn digit_value(c: char) -> int {
    c as int - '0' as int
}

/// Value of the digit string `s` read in base 10 (empty string: 0).
pub open spec fn decimal_value(s: Seq<char>) -> int
    decreases s.len(),
{
    if s.len() == 0 {
        0
    } else {
        decimal_value(s.drop_last()) * 10 + digit_value(s.last())
    }
}

/// Every character of `s` is a decimal digit.
pub open spec fn all_digits(s: Seq<char>) -> bool {
    forall|i: int| 0 <= i < s.len() ==> is_digit(#[trigger] s[i])
}

/// `s` without one leading `+`, if it has one.
pub open spec fn strip_plus(s: Seq<char>) -> Seq<char> {
    if s.len() > 0 && s[0] == '+' {
        s.drop_first()
    } else {
        s
    }
}

/// How the standard library reads `s` as a `u32`: an optional `+`, then one or more decimal
/// digits whose value fits in 32 bits.
pub open spec fn spec_parse_u32(s: Seq<char>) -> Option<u32> {
    let d = strip_plus(s);
    if d.len() > 0 && all_digits(d) && decimal_value(d) <= u32::MAX {
        Some(decimal_value(d) as u32)
    } else {
        None
    }
}

/// The character at `i` of `s` is `.`.
pub open spec fn is_dot(s: Seq<char>) -> spec_fn(int) -> bool {
    |i: int| s[i] == '.'
}

/// The major version `x` of an `"x.y"` version string: the text before its first `.`, read as
/// a `u32`. `None` when there is no `.` or that text is not a `u32`.
pub open spec fn spec_json_major(s: Seq<char>) -> Option<u32> {
    match first_in(0, s.len() as int, is_dot(s)) {
        Some(k) => spec_parse_u32(s.take(k)),
        None => None,
    }
}

/// A digit string's value is at least that of any of its prefixes.
pub proof fn lemma_decimal_prefix_le(d: Seq<char>, i: int)
    requires
        0 <= i <= d.len(),
        all_digits(d),
    ensures
        decimal_value(d.take(i)) <= decimal_value(d),
    decreases d.len(),
{
    if i < d.len() {
        let p = d.drop_last();
        assert(all_digits(p)) by {
            assert forall|j: int| 0 <= j < p.len() implies is_digit(#[trigger] p[j]) by {
                assert(p[j] == d[j]);
            }
        }
        lemma_decimal_prefix_le(p, i);
        assert(p.take(i) == d.take(i));
        assert(is_digit(d[d.len() - 1]));
        assert(decimal_value(d) == decimal_value(p) * 10 + digit_value(d.last()));
        assert(decimal_value(p) >= 0) by {
            lemma_decimal_nonneg(p);
        }
    } else {
        assert(d.take(i) == d);
    }
}

/// A digit string has a non-negative value.
pub proof fn lemma_decimal_nonneg(d: Seq<char>)
    requires
        all_digits(d),
    ensures
        decimal_value(d) >= 0,
    decreases d.len(),
{
    if d.len() > 0 {
        let p = d.drop_last();
        assert(all_digits(p)) by {
            assert forall|j: int| 0 <= j < p.len() implies is_digit(#[trigger] p[j]) by {
                assert(p[j] == d[j]);
            }
        }
        lemma_decimal_nonneg(p);
        assert(is_digit(d[d.len() - 1]));
    }
}

/// Reads `s[0..end]` as a `u32` the way `str::parse::<u32>` does.
fn parse_u32_prefix(s: &Vec<char>, end: usize) -> (r: Option<u32>)
    requires
        end <= s@.len(),
    ensures
        r == spec_parse_u32(s@.take(end as int)),
{
    let ghost t = s@.take(end as int);
    let mut i: usize = 0;
    if end > 0 && s[0] == '+' {
        i = 1;
    }
    let ghost d = strip_plus(t);
    assert(d == t.subrange(i as int, t.len() as int));
    if i == end {
        return None;
    }
    let start = i;
    let mut value: u32 = 0;
    while i < end
        invariant
            start <= i <= end <= s@.len(),
            t == s@.take(end as int),
            d == t.subrange(start as int, t.len() as int),
            d == strip_plus(t),
            all_digits(d.take(i - start)),
            value == decimal_value(d.take(i - start)),
        decreases end - i,
    {
        let c = s[i];
        let ghost k = i - start;
        assert(d[k] == c);
        if !('0' <= c && c <= '9') {
            assert(!all_digits(d));
            return None;
        }
        assert(d.take(k + 1).drop_last() == d.take(k));
        assert(d.take(k + 1).last() == c);
        let digit = (c as u32) - ('0' as u32);
        assert(digit == digit_value(c));
        assert(all_digits(d.take(k + 1))) by {
            assert forall|j: int| 0 <= j < k + 1 implies is_digit(#[trigger] d.take(k + 1)[j]) by {
                if j < k {
                    assert(d.take(k + 1)[j] == d.take(k)[j]);
                }
            }
        }
        if value > 429496729 || (value == 429496729 && digit > 5) {
            proof {
                assert(decimal_value(d.take(k + 1)) > u32::MAX);
                if all_digits(d) {
                    lemma_decimal_prefix_le(d, k + 1);
                }
            }
            return None;
        }
        value = value * 10 + digit;
        i = i + 1;
    }
    assert(d.take(d.len() as int) == d);
    Some(value)
}

/// Checks that the container's major version matches the `x` of the JSON `header.version`
/// (`"x.y"`).
pub fn check_header_version(container_version: u32, json_version: &str) -> (r: Result<(), TopolyxError>)
    ensures
        match spec_json_major(json_version@) {
            None => r matches Err(TopolyxError::InvalidHeaderVersion(text)) && text@ == json_version@,
            Some(major) => if major == container_version {
                r == Ok::<(), TopolyxError>(())
            } else {
                r == Err::<(), TopolyxError>(
                    TopolyxError::HeaderVersionMismatch { container_version, json_major: major },
                )
            },
        },
{
    let chars = str_chars(json_version);
    let mut k: usize = 0;
    while k < chars.len() && chars[k] != '.'
        invariant
            k <= chars@.len(),
            chars@ == json_version@,
            forall|j: int| 0 <= j < k ==> !#[trigger] is_dot(chars@)(j),
        decreases chars@.len() - k,
    {
        k = k + 1;
    }
    if k == chars.len() {
        proof {
            lemma_first_in_none(0, chars@.len() as int, is_dot(chars@));
        }
        return Err(TopolyxError::InvalidHeaderVersion(json_version.to_owned()));
    }
    proof {
        assert(is_first(is_dot(chars@), 0, k as int));
        lemma_first_in_some(0, chars@.len() as int, is_dot(chars@), k as int);
    }
    match parse_u32_prefix(&chars, k) {
        None => Err(TopolyxError::InvalidHeaderVersion(json_version.to_owned())),
        Some(json_major) => {
            if container_version != json_major {
                Err(TopolyxError::HeaderVersionMismatch { container_version, json_major })
            } else {
                Ok(())
            }
        },
    }
}

/// Law: a container splits successfully exactly when it is a 12-byte header (magic `TLYX`,
/// version 1, total length equal to the file's length) followed by an 8-byte `JSON` chunk
/// header and its data, then an 8-byte `BIN\0` chunk header and its data, with nothing left
/// over and both chunk lengths multiples of 4; the JSON data is then bytes `20..20 + L1` and
/// the BIN data the rest after its header (lengths read little-endian).
#[verifier::spinoff_prover]
pub proof fn lemma_container_layout(d: Seq<u8>)
    ensures
        ({
            let w = |off: int| d[off] + 256 * d[off + 1] + 65536 * d[off + 2] + 16777216 * d[off + 3];
            let l1 = w(12);
            let j = 20 + l1;
            spec_parse_container(d) is Ok <==> {
                &&& d.len() >= 20
                &&& d[0] == 0x54u8 && d[1] == 0x4Cu8 && d[2] == 0x59u8 && d[3] == 0x58u8
                &&& w(4) == 1
                &&& w(8) == d.len()
                &&& d[16] == 0x4Au8 && d[17] == 0x53u8 && d[18] == 0x4Fu8 && d[19] == 0x4Eu8
                &&& l1 % 4 == 0
                &&& j + 8 <= d.len()
                &&& d[j + 4] == 0x42u8 && d[j + 5] == 0x49u8 && d[j + 6] == 0x4Eu8 && d[j + 7] == 0x00u8
                &&& w(j) % 4 == 0
                &&& j + 8 + w(j) == d.len()
            }
        }),
        spec_parse_container(d) matches Ok(l) ==> {
            &&& l.version == 1
            &&& l.json_start == 20
            &&& l.json_end == 20 + (d[12] + 256 * d[13] + 65536 * d[14] + 16777216 * d[15])
            &&& l.bin_start == l.json_end + 8
            &&& l.bin_end == d.len()
        },
{
    let w = |off: int| d[off] + 256 * d[off + 1] + 65536 * d[off + 2] + 16777216 * d[off + 3];
    assert(forall|off: int| #[trigger] le_u32(d, off) == w(off));
}

} // verus!
