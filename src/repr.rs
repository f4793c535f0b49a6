//! The eight-byte string slot: either an inline string, or the length of a
//! shared string and a signed offset from the slot to its bytes.
use vstd::prelude::*;
use vstd::utf8::*;

verus! {

/// The number of bytes a slot can hold inline.
pub const INLINE_CAPACITY: usize = 8;

/// The size in bytes of one string slot.
pub const REPR_SIZE: usize = 8;

/// The largest length an out-of-line string may have.
pub const OUT_OF_LINE_CAPACITY: usize = 1073741823;

/// Why a slot could not be produced.
#[derive(Debug, Clone, Copy, PartialEq, Eq, Structural)]
pub enum ReprError {
    /// The string is longer than an out-of-line slot can describe.
    TooLong,
    /// The distance from the slot to the shared bytes does not fit in 32 signed bits.
    OffsetOutOfRange,
}

/// Four bytes of `x`, least significant first.
pub open spec fn le4(x: u32) -> Seq<u8> {
    seq![(x & 0xff) as u8, ((x >> 8u32) & 0xff) as u8, ((x >> 16u32) & 0xff) as u8, ((x >> 24u32) & 0xff) as u8]
}

/// The `u32` stored least significant byte first in `s[at..at + 4]`.
pub open spec fn read_le4(s: Seq<u8>, at: int) -> u32 {
    (s[at] as u32) | ((s[at + 1] as u32) << 8u32) | ((s[at + 2] as u32) << 16u32) | ((s[at + 3] as u32) << 24u32)
}

/// The length word of an out-of-line slot: the two top bits of the first
/// byte read `10`, which no inline slot's first byte does.
pub open spec fn pack_len(l: u32) -> u32 {
    (l & 0x3f) | 0x80 | ((l & !0x3fu32) << 2u32)
}

/// The length stored in a length word.
pub open spec fn unpack_len(p: u32) -> u32 {
    (p & 0x3f) | ((p & !0xffu32) >> 2u32)
}

/// The two's complement bits of a signed 32-bit offset.
pub open spec fn offset_bits(off: int) -> u32 {
    if off >= 0 { off as u32 } else { (off + 0x1_0000_0000) as u32 }
}

/// The signed offset held in two's complement bits.
pub open spec fn offset_of_bits(b: u32) -> int {
    if b < 0x8000_0000 { b as int } else { b - 0x1_0000_0000 }
}

pub open spec fn fits_i32(off: int) -> bool {
    -0x8000_0000 <= off < 0x8000_0000
}

/// The inline slot of `s`: its bytes, then `0xff` up to the slot's size.
pub open spec fn inline_slot(s: Seq<u8>) -> Seq<u8> {
    Seq::new(8, |i: int| if i < s.len() { s[i] } else { 0xffu8 })
}

/// The out-of-line slot of a string of `len` bytes whose data lies `off` bytes
/// from the slot.
pub open spec fn out_of_line_slot(len: nat, off: int) -> Seq<u8> {
    le4(pack_len(len as u32)) + le4(offset_bits(off))
}

/// A slot is inline unless the top two bits of its first byte read `10`.
pub open spec fn tag_is_inline(b: u8) -> bool {
    !(0x80 <= b && b < 0xc0)
}

/// The index of the first `0xff` in `slot` at or after `i`, or the slot's size.
pub open spec fn inline_len_from(slot: Seq<u8>, i: int) -> int
    decreases 8 - i,
{
    if i >= 8 || i >= slot.len() || slot[i] == 0xff {
        i
    } else {
        inline_len_from(slot, i + 1)
    }
}

/// Where the string of the slot at `pos` lies in `buf`: its start and length,
/// when the slot and its bytes are inside the buffer.
pub open spec fn slot_span(buf: Seq<u8>, pos: int) -> Option<(int, int)> {
    if pos < 0 || pos + 8 > buf.len() {
        None
    } else if tag_is_inline(buf[pos]) {
        Some((pos, inline_len_from(buf.subrange(pos, pos + 8), 0)))
    } else {
        let len = unpack_len(read_le4(buf, pos)) as int;
        let start = pos + offset_of_bits(read_le4(buf, pos + 4));
        if 0 <= start && start + len <= buf.len() {
            Some((start, len))
        } else {
            None
        }
    }
}

/// The bytes of the string that the slot at `pos` stands for.
pub open spec fn slot_bytes(buf: Seq<u8>, pos: int) -> Option<Seq<u8>> {
    match slot_span(buf, pos) {
        Some((start, len)) => Some(buf.subrange(start, start + len)),
        None => None,
    }
}

/// The slot at `pos` is inside `buf`, points inside `buf`, and its string is
/// valid UTF-8.
pub open spec fn slot_valid(buf: Seq<u8>, pos: int) -> bool {
    match slot_bytes(buf, pos) {
        Some(b) => valid_utf8(b),
        None => false,
    }
}

/// The address of the shared bytes of the slot at `pos`, for an out-of-line slot.
pub open spec fn slot_target(buf: Seq<u8>, pos: int) -> Option<int> {
    if 0 <= pos && pos + 8 <= buf.len() && !tag_is_inline(buf[pos]) {
        Some(pos + offset_of_bits(read_le4(buf, pos + 4)))
    } else {
        None
    }
}

proof fn lemma_le4_round_trip(x: u32)
    ensures
        read_le4(le4(x), 0) == x,
        le4(x).len() == 4,
{
    let b0 = (x & 0xff) as u8;
    let b1 = ((x >> 8u32) & 0xff) as u8;
    let b2 = ((x >> 16u32) & 0xff) as u8;
    let b3 = ((x >> 24u32) & 0xff) as u8;
    assert(((b0 as u32) | ((b1 as u32) << 8u32) | ((b2 as u32) << 16u32) | ((b3 as u32) << 24u32)) == x)
        by (bit_vector)
        requires
            b0 == (x & 0xff) as u8,
            b1 == ((x >> 8u32) & 0xff) as u8,
            b2 == ((x >> 16u32) & 0xff) as u8,
            b3 == ((x >> 24u32) & 0xff) as u8,
    ;
}

proof fn lemma_pack_len(l: u32)
    requires
        l <= 1073741823,
    ensures
        unpack_len(pack_len(l)) == l,
        !tag_is_inline((pack_len(l) & 0xff) as u8),
{
    assert(unpack_len(pack_len(l)) == l) by (bit_vector)
        requires
            l <= 1073741823,
    ;
    let b = (pack_len(l) & 0xff) as u8;
    assert(0x80 <= b && b < 0xc0) by (bit_vector)
        requires
            b == (((l & 0x3f) | 0x80 | ((l & !0x3fu32) << 2u32)) & 0xff) as u8,
    ;
}

proof fn lemma_offset_bits(off: int)
    requires
        fits_i32(off),
    ensures
        offset_of_bits(offset_bits(off)) == off,
{
}

/// Valid UTF-8 holds no `0xff` byte and does not start with a continuation byte.
pub proof fn lemma_utf8_bytes(b: Seq<u8>)
    requires
        valid_utf8(b),
    ensures
        forall|i: int| 0 <= i < b.len() ==> b[i] != 0xff,
        b.len() > 0 ==> !is_continuation_byte(b[0]),
    decreases b.len(),
{
    if b.len() > 0 {
        let rest = pop_first_scalar(b);
        let n = length_of_first_scalar(b);
        lemma_utf8_bytes(rest);
        assert forall|i: int| 0 <= i < b.len() implies b[i] != 0xff by {
            if i >= n {
                assert(b[i] == rest[i - n]);
            }
        }
    }
}

/// The inline slot of a string of at most eight bytes gives the string back.
pub proof fn lemma_inline_slot_bytes(buf: Seq<u8>, pos: int, s: Seq<u8>)
    requires
        valid_utf8(s),
        s.len() <= 8,
        0 <= pos,
        pos + 8 <= buf.len(),
        buf.subrange(pos, pos + 8) == inline_slot(s),
    ensures
        slot_bytes(buf, pos) == Some(s),
        slot_target(buf, pos).is_none(),
{
    lemma_utf8_bytes(s);
    let slot = buf.subrange(pos, pos + 8);
    assert(buf[pos] == slot[0]);
    assert forall|i: int| 0 <= i <= s.len() implies inline_len_from(slot, i) == s.len() by {
        lemma_inline_len_from(slot, s, i);
    }
    assert(buf.subrange(pos, pos + s.len()) =~= s) by {
        assert forall|i: int| 0 <= i < s.len() implies buf.subrange(pos, pos + s.len())[i] == s[i] by {
            assert(buf[pos + i] == slot[i]);
        }
    }
}

proof fn lemma_inline_len_from(slot: Seq<u8>, s: Seq<u8>, i: int)
    requires
        s.len() <= 8,
        slot == inline_slot(s),
        forall|j: int| 0 <= j < s.len() ==> s[j] != 0xff,
        0 <= i <= s.len(),
    ensures
        inline_len_from(slot, i) == s.len(),
    decreases 8 - i,
{
    if i < s.len() {
        lemma_inline_len_from(slot, s, i + 1);
    }
}

/// An out-of-line slot leads to the `len` bytes at `pos + off`.
pub proof fn lemma_out_of_line_slot_bytes(buf: Seq<u8>, pos: int, len: nat, off: int)
    requires
        len <= OUT_OF_LINE_CAPACITY,
        fits_i32(off),
        0 <= pos,
        pos + 8 <= buf.len(),
        0 <= pos + off,
        pos + off + len <= buf.len(),
        buf.subrange(pos, pos + 8) == out_of_line_slot(len, off),
    ensures
        slot_bytes(buf, pos) == Some(buf.subrange(pos + off, pos + off + len)),
        slot_target(buf, pos) == Some(pos + off),
{
    let slot = buf.subrange(pos, pos + 8);
    lemma_le4_round_trip(pack_len(len as u32));
    lemma_le4_round_trip(offset_bits(off));
    lemma_pack_len(len as u32);
    lemma_offset_bits(off);
    assert(buf[pos] == slot[0]);
    assert(read_le4(buf, pos) == read_le4(le4(pack_len(len as u32)), 0)) by {
        assert(buf[pos + 1] == slot[1]);
        assert(buf[pos + 2] == slot[2]);
        assert(buf[pos + 3] == slot[3]);
    }
    assert(read_le4(buf, pos + 4) == read_le4(le4(offset_bits(off)), 0)) by {
        assert(buf[pos + 4] == slot[4]);
        assert(buf[pos + 5] == slot[5]);
        assert(buf[pos + 6] == slot[6]);
        assert(buf[pos + 7] == slot[7]);
    }
}

fn push_le4(out: &mut Vec<u8>, x: u32)
    ensures
        final(out)@ == old(out)@ + le4(x),
{
    out.push((x & 0xff) as u8);
    out.push(((x >> 8u32) & 0xff) as u8);
    out.push(((x >> 16u32) & 0xff) as u8);
    out.push(((x >> 24u32) & 0xff) as u8);
    assert(final(out)@ =~= old(out)@ + le4(x));
}

fn get_le4(buf: &[u8], at: usize) -> (r: u32)
    requires
        at + 4 <= buf@.len(),
    ensures
        r == read_le4(buf@, at as int),
{
    (buf[at] as u32) | ((buf[at + 1] as u32) << 8u32) | ((buf[at + 2] as u32) << 16u32) | ((
    buf[at + 3] as u32) << 24u32)
}

/// The inline slot of `value`, which must fit in the slot.
pub fn emplace_inline(value: &[u8]) -> (r: Vec<u8>)
    requires
        value@.len() <= INLINE_CAPACITY,
    ensures
        r@ == inline_slot(value@),
{
    let mut r: Vec<u8> = Vec::new();
    let mut i: usize = 0;
    while i < INLINE_CAPACITY
        invariant
            i <= INLINE_CAPACITY,
            value@.len() <= INLINE_CAPACITY,
            r@.len() == i,
            forall|j: int| 0 <= j < i ==> r@[j] == inline_slot(value@)[j],
        decreases INLINE_CAPACITY - i,
    {
        if i < value.len() {
            r.push(value[i]);
        } else {
            r.push(0xffu8);
        }
        i = i + 1;
    }
    assert(r@ =~= inline_slot(value@));
    r
}

/// The out-of-line slot, placed at `slot_pos`, of a string of `len` bytes
/// whose data starts at `target`.
pub fn emplace_out_of_line(len: usize, slot_pos: usize, target: usize) -> (r: Result<
    Vec<u8>,
    ReprError,
>)
    ensures
        len > OUT_OF_LINE_CAPACITY ==> r == Err::<Vec<u8>, ReprError>(ReprError::TooLong),
        len <= OUT_OF_LINE_CAPACITY && !fits_i32(target - slot_pos) ==> r == Err::<
            Vec<u8>,
            ReprError,
        >(ReprError::OffsetOutOfRange),
        len <= OUT_OF_LINE_CAPACITY && fits_i32(target - slot_pos) ==> (r matches Ok(slot)
            && slot@ == out_of_line_slot(len as nat, target - slot_pos)),
{
    if len > OUT_OF_LINE_CAPACITY {
        return Err(ReprError::TooLong);
    }
    let bits: u32;
    if target >= slot_pos {
        if target - slot_pos >= 0x8000_0000 {
            return Err(ReprError::OffsetOutOfRange);
        }
        bits = (target - slot_pos) as u32;
    } else {
        if slot_pos - target > 0x8000_0000 {
            return Err(ReprError::OffsetOutOfRange);
        }
        bits = (0x1_0000_0000u64 - (slot_pos - target) as u64) as u32;
    }
    assert(bits == offset_bits(target - slot_pos));
    let l = len as u32;
    let packed = (l & 0x3f) | 0x80 | ((l & !0x3fu32) << 2u32);
    let mut r: Vec<u8> = Vec::new();
    push_le4(&mut r, packed);
    push_le4(&mut r, bits);
    assert(r@ =~= out_of_line_slot(len as nat, target - slot_pos));
    Ok(r)
}

/// Whether the slot at `pos` holds its string inline.
pub fn is_inline(buf: &[u8], pos: usize) -> (r: bool)
    requires
        pos < buf@.len(),
    ensures
        r == tag_is_inline(buf@[pos as int]),
{
    let b = buf[pos];
    !(0x80u8 <= b && b < 0xc0u8)
}

/// Where the string of the slot at `pos` lies in `buf`: `None` when the slot
/// or its bytes fall outside the buffer.
pub fn locate(buf: &[u8], pos: usize) -> (r: Option<(usize, usize)>)
    ensures
        match slot_span(buf@, pos as int) {
            Some((start, len)) => r == Some((start as usize, len as usize)) && 0 <= start && 0
                <= len && start + len <= buf@.len(),
            None => r.is_none(),
        },
        r matches Some((start, len)) ==> start + len <= buf@.len(),
{
    if buf.len() < 8 || pos > buf.len() - 8 {
        return None;
    }
    if is_inline(buf, pos) {
        let ghost slot = buf@.subrange(pos as int, pos + 8);
        let mut i: usize = 0;
        while i < 8 && buf[pos + i] != 0xffu8
            invariant
                0 <= i <= 8,
                pos + 8 <= buf@.len(),
                buf@.len() <= usize::MAX,
                slot == buf@.subrange(pos as int, pos + 8),
                inline_len_from(slot, i as int) == inline_len_from(slot, 0),
            decreases 8 - i,
        {
            assert(slot[i as int] == buf@[pos + i]);
            i = i + 1;
        }
        if i < 8 {
            assert(slot[i as int] == buf@[pos + i]);
        }
        Some((pos, i))
    } else {
        let len = unpack_len_exec(get_le4(buf, pos)) as usize;
        let bits = get_le4(buf, pos + 4);
        if bits < 0x8000_0000u32 {
            let off = bits as usize;
            if off > buf.len() - pos || len > buf.len() - pos - off {
                return None;
            }
            Some((pos + off, len))
        } else {
            let back = (0x1_0000_0000u64 - bits as u64) as usize;
            if back > pos || len > buf.len() - (pos - back) {
                return None;
            }
            Some((pos - back, len))
        }
    }
}

fn unpack_len_exec(p: u32) -> (r: u32)
    ensures
        r == unpack_len(p),
{
    (p & 0x3f) | ((p & !0xffu32) >> 2u32)
}

} // verus!
