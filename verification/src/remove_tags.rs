//! Locating and cutting out the tag block that precedes the audio data.
//!
//! A tag block opens with a ten-byte header: the three bytes `ID3`, a
//! version byte, a flags byte that must be zero, one byte that is not
//! examined, and a four-byte size field. The size field counts the bytes
//! that follow the header and belong to the block.

use vstd::prelude::*;
use vstd::slice::slice_subrange;

verus! {

/// Length of a tag header in bytes.
pub const HEADER_LEN: usize = 10;

/// The marker `ID3` read as a 24-bit big-endian number.
pub const MARKER: u32 = 0x49_4433;

/// The 24-bit big-endian number held by the three bytes at `offset`.
pub open spec fn u24_be_at(s: Seq<u8>, offset: int) -> int
    recommends
        0 <= offset,
        offset + 3 <= s.len(),
{
    s[offset] * 0x1_0000 + s[offset + 1] * 0x100 + s[offset + 2]
}

/// The marker `ID3` stands at `p`.
pub open spec fn marker_at(s: Seq<u8>, p: int) -> bool {
    &&& 0 <= p
    &&& p + 3 <= s.len()
    &&& s[p] == 0x49
    &&& s[p + 1] == 0x44
    &&& s[p + 2] == 0x33
}

/// A tag header stands at `p`: the marker, a version of 2, 3 or 4, and a
/// zero flags byte, with all ten bytes inside the buffer.
///
/// The size field is not part of this test. A header whose size field is
/// not synchsafe is still a header, and makes the buffer malformed.
pub open spec fn header_at(s: Seq<u8>, p: int) -> bool {
    &&& marker_at(s, p)
    &&& p + HEADER_LEN <= s.len()
    &&& (s[p + 3] == 2 || s[p + 3] == 3 || s[p + 3] == 4)
    &&& s[p + 4] == 0
}

/// The size field of the header at `p`.
pub open spec fn size_field(s: Seq<u8>, p: int) -> Seq<u8> {
    s.subrange(p + 6, p + 10)
}

/// Every byte of a size field keeps its high bit clear.
pub open spec fn is_synchsafe(field: Seq<u8>) -> bool {
    forall|k: int| 0 <= k < 4 ==> #[trigger] field[k] < 0x80
}

/// The number a four-byte size field stands for: seven bits from each byte,
/// most significant byte first.
pub open spec fn synchsafe_value(field: Seq<u8>) -> int
    recommends
        field.len() >= 4,
{
    field[0] * 0x20_0000 + field[1] * 0x4000 + field[2] * 0x80 + field[3]
}

/// Reads three bytes at `offset` as a big-endian number, if the buffer holds
/// them.
pub fn read_u24_be(buffer: &[u8], offset: usize) -> (value: Option<u32>)
    ensures
        match value {
            Some(v) => offset + 3 <= buffer@.len() && v == u24_be_at(buffer@, offset as int),
            None => offset + 3 > buffer@.len(),
        },
{
    let len = buffer.len();
    if offset > len || len - offset < 3 {
        return None;
    }
    let b0: u32 = buffer[offset] as u32;
    let b1: u32 = buffer[offset + 1] as u32;
    let b2: u32 = buffer[offset + 2] as u32;
    assert((b0 << 16) | (b1 << 8) | b2 == b0 * 0x1_0000 + b1 * 0x100 + b2) by (bit_vector)
        requires
            b0 < 256,
            b1 < 256,
            b2 < 256,
    ;
    Some((b0 << 16) | (b1 << 8) | b2)
}

/// Three bytes spell the marker exactly when their big-endian value is
/// `MARKER`.
pub proof fn lemma_marker_value(s: Seq<u8>, p: int)
    requires
        0 <= p,
        p + 3 <= s.len(),
    ensures
        marker_at(s, p) <==> u24_be_at(s, p) == MARKER,
{
}

/// Tests whether a tag header stands at the start of `buffer`.
pub fn is_valid_id3_header(buffer: &[u8]) -> (valid: bool)
    ensures
        valid == header_at(buffer@, 0),
{
    if buffer.len() < HEADER_LEN {
        return false;
    }
    proof {
        lemma_marker_value(buffer@, 0);
    }
    match read_u24_be(buffer, 0) {
        Some(x) => x == MARKER && (buffer[3] == 0x02 || buffer[3] == 0x03 || buffer[3] == 0x04)
            && buffer[4] == 0x00,
        None => false,
    }
}

/// Decodes the size field of a tag header.
pub fn decode_size(h_size: &[u8]) -> (size: usize)
    requires
        h_size@.len() >= 4,
    ensures
        size == synchsafe_value(h_size@),
{
    let h_size0: usize = h_size[0] as usize;
    let h_size1: usize = h_size[1] as usize;
    let h_size2: usize = h_size[2] as usize;
    let h_size3: usize = h_size[3] as usize;
    assert(h_size0 << 21 == h_size0 * 0x20_0000) by (bit_vector)
        requires
            h_size0 < 256,
    ;
    assert(h_size1 << 14 == h_size1 * 0x4000) by (bit_vector)
        requires
            h_size1 < 256,
    ;
    assert(h_size2 << 7 == h_size2 * 0x80) by (bit_vector)
        requires
            h_size2 < 256,
    ;
    (h_size0 << 21) + (h_size1 << 14) + (h_size2 << 7) + h_size3
}

/// `p` is the first place at which a tag header stands.
pub open spec fn is_first_header(s: Seq<u8>, p: int) -> bool {
    &&& header_at(s, p)
    &&& forall|q: int| 0 <= q < p ==> !header_at(s, q)
}

/// The place of the first tag header, if the buffer holds one.
pub open spec fn first_header(s: Seq<u8>) -> Option<int> {
    if exists|p: int| is_first_header(s, p) {
        Some(choose|p: int| is_first_header(s, p))
    } else {
        None
    }
}

/// A buffer has at most one first header.
pub proof fn lemma_first_header_is(s: Seq<u8>, p: int)
    requires
        is_first_header(s, p),
    ensures
        first_header(s) == Some(p),
{
    let c = choose|c: int| is_first_header(s, c);
    assert(is_first_header(s, c));
    if c < p {
        assert(!header_at(s, c));
    } else if p < c {
        assert(!header_at(s, p));
    }
}

/// A buffer that holds a header has a first header, at or before it.
pub proof fn header_implies_first_header(s: Seq<u8>, p: int)
    requires
        header_at(s, p),
    ensures
        first_header(s) is Some,
        0 <= first_header(s)->0 <= p,
        is_first_header(s, first_header(s)->0),
    decreases p,
{
    if forall|q: int| 0 <= q < p ==> !header_at(s, q) {
        lemma_first_header_is(s, p);
    } else {
        let q = choose|q: int| 0 <= q < p && header_at(s, q);
        header_implies_first_header(s, q);
    }
}

/// A buffer without a header has no first header.
pub proof fn lemma_first_header_none(s: Seq<u8>)
    requires
        forall|q: int| !header_at(s, q),
    ensures
        first_header(s) is None,
{
}

/// The marker does not overlap itself: where it stands at `p`, it stands
/// neither one nor two bytes further on.
pub proof fn lemma_marker_apart(s: Seq<u8>, p: int)
    requires
        marker_at(s, p),
    ensures
        !marker_at(s, p + 1),
        !marker_at(s, p + 2),
{
}

/// Finds the first place at or after `start` where the marker stands.
pub fn find_marker(buffer: &[u8], start: usize) -> (found: Option<usize>)
    ensures
        match found {
            Some(x) => {
                &&& start <= x
                &&& marker_at(buffer@, x as int)
                &&& forall|q: int| start <= q < x ==> !marker_at(buffer@, q)
            },
            None => forall|q: int| start <= q ==> !marker_at(buffer@, q),
        },
{
    let len = buffer.len();
    if len < 3 || start > len - 3 {
        return None;
    }
    let mut i: usize = start;
    while i <= len - 3
        invariant
            len == buffer@.len(),
            len >= 3,
            start <= i <= len - 2,
            forall|q: int| start <= q < i ==> !marker_at(buffer@, q),
        decreases len - i,
    {
        if buffer[i] == 0x49 && buffer[i + 1] == 0x44 && buffer[i + 2] == 0x33 {
            return Some(i);
        }
        i += 1;
    }
    None
}

/// Finds the first tag header of a buffer.
///
/// The search runs from the start. A marker that opens no header is passed
/// over and the search goes on behind it.
pub fn get_frame_position(buffer: &Vec<u8>) -> (position: Option<usize>)
    ensures
        match position {
            Some(p) => is_first_header(buffer@, p as int),
            None => forall|q: int| !header_at(buffer@, q),
        },
        first_header(buffer@) == match position {
            Some(p) => Some(p as int),
            None => None::<int>,
        },
{
    let len = buffer.len();
    let mut next_position: usize = 0;
    loop
        invariant
            len == buffer@.len(),
            next_position <= len,
            forall|q: int| 0 <= q < next_position ==> !header_at(buffer@, q),
        decreases len - next_position,
    {
        let x = match find_marker(buffer.as_slice(), next_position) {
            Some(x) => x,
            None => {
                proof {
                    lemma_first_header_none(buffer@);
                }
                return None;
            },
        };
        if len - x < HEADER_LEN {
            proof {
                lemma_first_header_none(buffer@);
            }
            return None;
        }
        let slice = slice_subrange(buffer.as_slice(), x, x + HEADER_LEN);
        assert(header_at(slice@, 0) == header_at(buffer@, x as int));
        if is_valid_id3_header(slice) {
            proof {
                lemma_first_header_is(buffer@, x as int);
            }
            return Some(x);
        }
        proof {
            lemma_marker_apart(buffer@, x as int);
        }
        next_position = x + 3;
    }
}

/// What stripping a buffer gives.
#[derive(Debug, PartialEq, Eq)]
pub enum Outcome {
    /// The buffer holds no tag block that can be cut out; these are its bytes.
    Unchanged(Vec<u8>),
    /// The tag block was cut out; these are the bytes before and behind it.
    Stripped(Vec<u8>),
    /// The size field of the tag header is not synchsafe.
    Malformed,
}

/// The mathematical value of an [`Outcome`].
pub enum OutcomeView {
    Unchanged(Seq<u8>),
    Stripped(Seq<u8>),
    Malformed,
}

impl View for Outcome {
    type V = OutcomeView;

    open spec fn view(&self) -> OutcomeView {
        match self {
            Outcome::Unchanged(bytes) => OutcomeView::Unchanged(bytes@),
            Outcome::Stripped(bytes) => OutcomeView::Stripped(bytes@),
            Outcome::Malformed => OutcomeView::Malformed,
        }
    }
}

/// The first byte behind the tag block whose header stands at `p`.
pub open spec fn block_end(s: Seq<u8>, p: int) -> int {
    p + HEADER_LEN + synchsafe_value(size_field(s, p))
}

/// What stripping gives for a buffer whose first header stands at `p`.
pub open spec fn strip_at(s: Seq<u8>, p: int) -> OutcomeView {
    if !is_synchsafe(size_field(s, p)) {
        OutcomeView::Malformed
    } else if block_end(s, p) <= s.len() {
        OutcomeView::Stripped(s.subrange(0, p) + s.subrange(block_end(s, p), s.len() as int))
    } else {
        OutcomeView::Unchanged(s)
    }
}

/// What stripping gives for a buffer.
pub open spec fn strip_outcome(s: Seq<u8>) -> OutcomeView {
    match first_header(s) {
        Some(p) => strip_at(s, p),
        None => OutcomeView::Unchanged(s),
    }
}

/// The bytes to hash for a buffer, or `None` where the buffer is malformed.
pub open spec fn stripped_bytes(s: Seq<u8>) -> Option<Seq<u8>> {
    match strip_outcome(s) {
        OutcomeView::Unchanged(bytes) => Some(bytes),
        OutcomeView::Stripped(bytes) => Some(bytes),
        OutcomeView::Malformed => None,
    }
}

/// Cuts the first tag block out of a buffer.
///
/// A buffer without a header, or whose block would run past its end, comes
/// back unchanged. A header whose size field is not synchsafe makes the
/// buffer malformed.
pub fn strip(data: Vec<u8>) -> (outcome: Outcome)
    ensures
        outcome@ == strip_outcome(data@),
{
    let frame_position = match get_frame_position(&data) {
        Some(x) => x,
        None => return Outcome::Unchanged(data),
    };
    let len = data.len();
    assert(header_at(data@, frame_position as int));
    let h_size = slice_subrange(data.as_slice(), frame_position + 6, frame_position + 10);
    let b0: u8 = h_size[0];
    let b1: u8 = h_size[1];
    let b2: u8 = h_size[2];
    let b3: u8 = h_size[3];
    assert(((b0 | b1 | b2 | b3) & 0x80 != 0) <==> (b0 >= 0x80 || b1 >= 0x80 || b2 >= 0x80 || b3
        >= 0x80)) by (bit_vector);
    if (b0 | b1 | b2 | b3) & 0x80 != 0 {
        return Outcome::Malformed;
    }
    let size = decode_size(h_size);
    if len - (frame_position + HEADER_LEN) >= size {
        let mut ret1: Vec<u8> = Vec::new();
        ret1.extend_from_slice(slice_subrange(data.as_slice(), 0, frame_position));
        ret1.extend_from_slice(
            slice_subrange(data.as_slice(), frame_position + HEADER_LEN + size, len),
        );
        assert(ret1@ =~= data@.subrange(0, frame_position as int) + data@.subrange(
            block_end(data@, frame_position as int),
            len as int,
        ));
        return Outcome::Stripped(ret1);
    }
    Outcome::Unchanged(data)
}

/// Cuts the first tag block out of a buffer and gives the bytes to hash, or
/// `None` where the buffer is malformed.
pub fn remove_tags_from_buffer(data: Vec<u8>) -> (content: Option<Vec<u8>>)
    ensures
        match content {
            Some(bytes) => stripped_bytes(data@) == Some(bytes@),
            None => stripped_bytes(data@) is None,
        },
{
    match strip(data) {
        Outcome::Unchanged(bytes) => Some(bytes),
        Outcome::Stripped(bytes) => Some(bytes),
        Outcome::Malformed => None,
    }
}

/// The first five bytes of a header stand at `p` inside `s`: the marker, a
/// version of 2, 3 or 4, and a zero flags byte.
pub open spec fn header_opens_at(s: Seq<u8>, p: int) -> bool {
    &&& marker_at(s, p)
    &&& p + 5 <= s.len()
    &&& (s[p + 3] == 2 || s[p + 3] == 3 || s[p + 3] == 4)
    &&& s[p + 4] == 0
}

/// A buffer in which the marker stands nowhere is left unchanged, byte for
/// byte.
pub proof fn strip_without_marker_is_identity(s: Seq<u8>)
    requires
        forall|q: int| !marker_at(s, q),
    ensures
        strip_outcome(s) == OutcomeView::Unchanged(s),
        stripped_bytes(s) == Some(s),
{
    lemma_first_header_none(s);
}

/// A buffer made of a prefix, a header with a synchsafe size field, as
/// many payload bytes as the field says, and a suffix, is stripped to the
/// prefix followed by the suffix, provided that no header opens inside
/// the prefix.
pub proof fn strip_removes_block(
    prefix: Seq<u8>,
    header: Seq<u8>,
    payload: Seq<u8>,
    suffix: Seq<u8>,
)
    requires
        header.len() == HEADER_LEN,
        header_at(header, 0),
        is_synchsafe(size_field(header, 0)),
        synchsafe_value(size_field(header, 0)) == payload.len(),
        forall|q: int| !header_opens_at(prefix, q),
    ensures
        strip_outcome(prefix + header + payload + suffix) == OutcomeView::Stripped(prefix + suffix),
        stripped_bytes(prefix + header + payload + suffix) == Some(prefix + suffix),
{
    let s = prefix + header + payload + suffix;
    let p = prefix.len() as int;
    assert forall|k: int| 0 <= k < 10 implies #[trigger] s[p + k] == header[k] by {}
    assert(header_at(s, p));
    assert forall|q: int| 0 <= q < p implies !header_at(s, q) by {
        if header_at(s, q) {
            // The header's own first byte is none of the four bytes that
            // follow a marker's first byte in a header.
            assert(s[p] == 0x49);
            assert(q + 5 <= p);
            assert(s[q] == prefix[q] && s[q + 1] == prefix[q + 1] && s[q + 2] == prefix[q + 2]
                && s[q + 3] == prefix[q + 3] && s[q + 4] == prefix[q + 4]);
            assert(header_opens_at(prefix, q));
        }
    }
    lemma_first_header_is(s, p);
    assert(size_field(s, p) =~= size_field(header, 0));
    assert(s.subrange(0, p) =~= prefix);
    assert(s.subrange(block_end(s, p), s.len() as int) =~= suffix);
}

/// Where a size byte of the first header has its high bit set, the buffer
/// is malformed, whatever else it holds.
pub proof fn strip_rejects_unsafe_size(s: Seq<u8>, p: int, k: int)
    requires
        is_first_header(s, p),
        6 <= k < 10,
        s[p + k] >= 0x80,
    ensures
        strip_outcome(s) == OutcomeView::Malformed,
        stripped_bytes(s) is None,
{
    lemma_first_header_is(s, p);
    assert(size_field(s, p)[k - 6] == s[p + k]);
}

/// Where the size field of the first header is synchsafe and the block it
/// announces would end behind the buffer, the buffer is left unchanged.
pub proof fn strip_keeps_truncated(s: Seq<u8>, p: int)
    requires
        is_first_header(s, p),
        is_synchsafe(size_field(s, p)),
        block_end(s, p) > s.len(),
    ensures
        strip_outcome(s) == OutcomeView::Unchanged(s),
        stripped_bytes(s) == Some(s),
{
    lemma_first_header_is(s, p);
}

} // verus!
