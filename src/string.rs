//! Interned strings: the two encoding phases and reading a slot back.
use vstd::prelude::*;
use vstd::slice::slice_subrange;
use vstd::utf8::{
    decode_utf8, decode_utf8_encode_utf8, encode_utf8, encode_utf8_decode_utf8, encode_utf8_valid_utf8,
    valid_utf8,
};
use crate::adapter::{InternSerializeError, InternSerializerAdapter, Positional, Writer};
use crate::registry::InternSerializeRegistry;
use crate::repr::{
    emplace_inline, emplace_out_of_line, fits_i32, inline_slot, locate, out_of_line_slot,
    slot_bytes, slot_valid, ReprError, INLINE_CAPACITY, OUT_OF_LINE_CAPACITY,
};

verus! {

/// Marks a string field as one to intern.
#[derive(Debug)]
pub struct Intern;

/// What the first phase leaves for the second: where the shared bytes of a
/// long string were written (unused for a short one).
pub struct InternedStringResolver {
    pos: usize,
}

impl InternedStringResolver {
    /// The position of the shared bytes.
    pub closed spec fn spec_pos(&self) -> usize {
        self.pos
    }

    /// A resolver for the same position.
    pub fn copy_of(other: &Self) -> (r: Self)
        ensures
            r.spec_pos() == other.spec_pos(),
    {
        InternedStringResolver { pos: other.pos }
    }
}

/// A string slot at a position of an archive buffer.
#[derive(Debug, Clone, Copy, PartialEq, Eq, Structural)]
pub struct ArchivedInternedString {
    pub pos: usize,
}

/// Whether a string of these bytes is stored in its slot.
pub open spec fn is_short(b: Seq<u8>) -> bool {
    b.len() <= INLINE_CAPACITY
}

/// The slot, at `slot_pos`, of a string with bytes `b` whose shared bytes
/// start at `target`.
pub open spec fn slot_for(b: Seq<u8>, slot_pos: int, target: int) -> Seq<u8> {
    if is_short(b) {
        inline_slot(b)
    } else {
        out_of_line_slot(b.len(), target - slot_pos)
    }
}

/// Relies on core::str::from_utf8: it accepts exactly the valid UTF-8 byte
/// sequences, and the string it gives back holds those bytes.
#[verifier::external_body]
pub(crate) fn str_from_utf8(b: &[u8]) -> (r: Option<&str>)
    ensures
        r.is_some() == valid_utf8(b@),
        r matches Some(s) ==> s@ == decode_utf8(b@),
{
    core::str::from_utf8(b).ok()
}

impl ArchivedInternedString {
    /// The string of this slot in `buf`: `None` when the slot or its bytes
    /// fall outside the buffer or the bytes are not UTF-8.
    pub fn as_str<'a>(&self, buf: &'a [u8]) -> (r: Option<&'a str>)
        ensures
            r.is_some() == slot_valid(buf@, self.pos as int),
            r matches Some(s) ==> s@ == decode_utf8(slot_bytes(buf@, self.pos as int).unwrap()),
    {
        proof {
            vstd::slice::axiom_spec_len(buf);
        }
        match locate(buf, self.pos) {
            Some((start, len)) => str_from_utf8(slice_subrange(buf, start, start + len)),
            None => None,
        }
    }

    /// Whether this slot in `buf` holds exactly the string `other`, compared
    /// by content.
    pub fn eq_str(&self, buf: &[u8], other: &str) -> (r: bool)
        ensures
            r == (slot_valid(buf@, self.pos as int) && decode_utf8(
                slot_bytes(buf@, self.pos as int).unwrap(),
            ) == other@),
    {
        let (start, len) = match locate(buf, self.pos) {
            Some(span) => span,
            None => {
                return false;
            },
        };
        let theirs = other.as_bytes();
        let ghost mine = buf@.subrange(start as int, start + len);
        proof {
            vstd::slice::axiom_spec_len(buf);
            assert(slot_bytes(buf@, self.pos as int) == Some(mine));
            assert(theirs@ == encode_utf8(other@));
            encode_utf8_valid_utf8(other@);
            encode_utf8_decode_utf8(other@);
            if valid_utf8(mine) {
                decode_utf8_encode_utf8(mine);
            }
        }
        if theirs.len() != len {
            return false;
        }
        let mut i: usize = 0;
        while i < len
            invariant
                i <= len,
                theirs@.len() == len,
                start + len <= buf@.len(),
                mine == buf@.subrange(start as int, start + len),
                buf@.len() <= usize::MAX,
                theirs@ == encode_utf8(other@),
                slot_bytes(buf@, self.pos as int) == Some(mine),
                valid_utf8(mine) ==> encode_utf8(decode_utf8(mine)) == mine,
                forall|j: int| 0 <= j < i ==> mine[j] == theirs@[j],
            decreases len - i,
        {
            if buf[start + i] != theirs[i] {
                assert(mine[i as int] != theirs@[i as int]);
                return false;
            }
            i = i + 1;
        }
        assert(mine =~= theirs@);
        true
    }

    /// First phase: writes the bytes of a long string unless the registry
    /// already holds its content. A short string needs nothing.
    pub fn serialize_from_str<S: Writer, T: InternSerializeRegistry>(
        value: &str,
        serializer: &mut InternSerializerAdapter<S, T>,
    ) -> (r: Result<InternedStringResolver, InternSerializeError<S::Error>>)
        ensures
            is_short(encode_utf8(value@)) ==> (r matches Ok(res) && res.spec_pos() == 0)
                && *final(serializer) == *old(serializer),
            !is_short(encode_utf8(value@)) && old(serializer).interned().contains_key(value@)
                ==> (r matches Ok(res) && res.spec_pos() == old(serializer).interned()[value@])
                && *final(serializer) == *old(serializer),
            !is_short(encode_utf8(value@)) && !old(serializer).interned().contains_key(value@)
                && old(serializer).written().len() + encode_utf8(value@).len() > old(
                serializer,
            ).capacity() ==> (r matches Err(
                InternSerializeError::Encoder(_),
            )) && final(serializer).interned() == old(serializer).interned(),
            !is_short(encode_utf8(value@)) && !old(serializer).interned().contains_key(value@)
                && old(serializer).written().len() + encode_utf8(value@).len() <= old(
                serializer,
            ).capacity() ==> (r matches Ok(res)
                && res.spec_pos() == old(serializer).written().len()) && old(serializer).written().len()
                + encode_utf8(value@).len() <= usize::MAX && final(serializer).capacity() == old(
                serializer,
            ).capacity() && final(serializer).written()
                == old(serializer).written() + encode_utf8(value@) && final(serializer).interned()
                == old(serializer).interned().insert(
                value@,
                old(serializer).written().len() as usize,
            ),
    {
        if value.as_bytes().len() <= INLINE_CAPACITY {
            Ok(InternedStringResolver { pos: 0 })
        } else {
            match serializer.serialize_interned(value) {
                Ok(pos) => Ok(InternedStringResolver { pos }),
                Err(e) => Err(e),
            }
        }
    }

    /// Second phase: the slot of `value` once its own position `slot_pos` is
    /// known. Fails when a long string is too long for a slot or its bytes
    /// lie too far from it.
    pub fn resolve_from_str(value: &str, resolver: InternedStringResolver, slot_pos: usize) -> (r:
        Result<Vec<u8>, ReprError>)
        ensures
            is_short(encode_utf8(value@)) ==> (r matches Ok(slot) && slot@ == inline_slot(
                encode_utf8(value@),
            )),
            !is_short(encode_utf8(value@)) && encode_utf8(value@).len() > OUT_OF_LINE_CAPACITY
                ==> r == Err::<Vec<u8>, ReprError>(ReprError::TooLong),
            !is_short(encode_utf8(value@)) && encode_utf8(value@).len() <= OUT_OF_LINE_CAPACITY
                && !fits_i32(resolver.spec_pos() - slot_pos) ==> r == Err::<Vec<u8>, ReprError>(
                ReprError::OffsetOutOfRange,
            ),
            !is_short(encode_utf8(value@)) && encode_utf8(value@).len() <= OUT_OF_LINE_CAPACITY
                && fits_i32(resolver.spec_pos() - slot_pos) ==> (r matches Ok(slot) && slot@
                == slot_for(encode_utf8(value@), slot_pos as int, resolver.spec_pos() as int)),
    {
        let bytes = value.as_bytes();
        if bytes.len() <= INLINE_CAPACITY {
            Ok(emplace_inline(bytes))
        } else {
            emplace_out_of_line(bytes.len(), slot_pos, resolver.pos)
        }
    }
}

/// First phase for an optional string: an absent one needs nothing and
/// touches nothing; a present one goes through `serialize_from_str`.
pub fn serialize_option_from_str<S: Writer, T: InternSerializeRegistry>(
    value: Option<&str>,
    serializer: &mut InternSerializerAdapter<S, T>,
) -> (r: Result<Option<InternedStringResolver>, InternSerializeError<S::Error>>)
    ensures
        value.is_none() ==> (r matches Ok(None)) && *final(serializer) == *old(serializer),
        value matches Some(v) ==> {
            &&& is_short(encode_utf8(v@)) ==> (r matches Ok(Some(res)) && res.spec_pos() == 0)
                && *final(serializer) == *old(serializer)
            &&& !is_short(encode_utf8(v@)) && old(serializer).interned().contains_key(v@) ==> (r matches Ok(
                Some(res),
            ) && res.spec_pos() == old(serializer).interned()[v@]) && *final(serializer) == *old(
                serializer,
            )
            &&& !is_short(encode_utf8(v@)) && !old(serializer).interned().contains_key(v@)
                && old(serializer).written().len() + encode_utf8(v@).len() > old(
                serializer,
            ).capacity() ==> (r matches Err(InternSerializeError::Encoder(_)))
            &&& !is_short(encode_utf8(v@)) && !old(serializer).interned().contains_key(v@)
                && old(serializer).written().len() + encode_utf8(v@).len() <= old(
                serializer,
            ).capacity() ==> (r matches Ok(Some(res)) && res.spec_pos() == old(
                serializer,
            ).written().len()) && final(serializer).written() == old(serializer).written()
                + encode_utf8(v@) && final(serializer).interned() == old(
                serializer,
            ).interned().insert(v@, old(serializer).written().len() as usize)
        },
{
    match value {
        None => Ok(None),
        Some(v) => match ArchivedInternedString::serialize_from_str(v, serializer) {
            Ok(res) => Ok(Some(res)),
            Err(e) => Err(e),
        },
    }
}

/// Second phase for an optional string: an absent one has no slot; a present
/// one is resolved by `resolve_from_str` with its resolver.
pub fn resolve_option_from_str(
    value: Option<&str>,
    resolver: Option<InternedStringResolver>,
    slot_pos: usize,
) -> (r: Result<Option<Vec<u8>>, ReprError>)
    requires
        value.is_some() == resolver.is_some(),
    ensures
        value.is_none() ==> (r matches Ok(None)),
        value matches Some(v) ==> {
            let res = resolver.unwrap();
            let b = encode_utf8(v@);
            &&& is_short(b) ==> (r matches Ok(Some(slot)) && slot@ == inline_slot(b))
            &&& !is_short(b) && b.len() > OUT_OF_LINE_CAPACITY ==> r == Err::<
                Option<Vec<u8>>,
                ReprError,
            >(ReprError::TooLong)
            &&& !is_short(b) && b.len() <= OUT_OF_LINE_CAPACITY && !fits_i32(
                res.spec_pos() - slot_pos,
            ) ==> r == Err::<Option<Vec<u8>>, ReprError>(ReprError::OffsetOutOfRange)
            &&& !is_short(b) && b.len() <= OUT_OF_LINE_CAPACITY && fits_i32(
                res.spec_pos() - slot_pos,
            ) ==> (r matches Ok(Some(slot)) && slot@ == slot_for(b, slot_pos as int, res.spec_pos() as int))
        },
{
    match (value, resolver) {
        (Some(v), Some(res)) => match ArchivedInternedString::resolve_from_str(v, res, slot_pos) {
            Ok(slot) => Ok(Some(slot)),
            Err(e) => Err(e),
        },
        _ => Ok(None),
    }
}

} // verus!
