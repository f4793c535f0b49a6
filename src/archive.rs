//! One encoding pass over a list of strings, reading it back, and the laws
//! that tie the two together.
use vstd::prelude::*;
use vstd::utf8::{decode_utf8, encode_utf8, encode_utf8_decode_utf8, encode_utf8_valid_utf8};
use crate::adapter::{
    ByteWriter, InternSerializeError, InternSerializerAdapter, Positional, WriteError, Writer,
};
use crate::registry::{InternSerializeMap, InternSerializeMapError, InternSerializeRegistry};
use crate::repr::{
    fits_i32, inline_slot, lemma_inline_slot_bytes, lemma_out_of_line_slot_bytes, slot_bytes, slot_target,
    slot_valid, ReprError, OUT_OF_LINE_CAPACITY, REPR_SIZE,
};
use crate::string::{is_short, slot_for, ArchivedInternedString, InternedStringResolver};

verus! {

/// Why an encoding pass failed.
#[derive(Debug, Clone, Copy, PartialEq, Eq, Structural)]
pub enum EncodeError {
    /// The output would pass the writer's capacity.
    Write(WriteError),
    /// The registry refused an entry.
    Intern(InternSerializeMapError),
    /// A slot could not describe its string.
    Repr(ReprError),
}

/// An earlier string than `values[i]` has the same content.
pub open spec fn seen_before(values: Seq<String>, i: int) -> bool {
    exists|j: int| 0 <= j < i && #[trigger] values[j]@ == values[i]@
}

/// The shared bytes that the first `n` strings leave: each long string's
/// bytes, once, in the order its content first occurs.
pub open spec fn shared_section(values: Seq<String>, n: int) -> Seq<u8>
    decreases n,
{
    if n <= 0 || n > values.len() {
        Seq::empty()
    } else {
        let b = encode_utf8(values[n - 1]@);
        shared_section(values, n - 1) + if !is_short(b) && !seen_before(values, n - 1) {
            b
        } else {
            Seq::empty()
        }
    }
}

/// The first index from `j` on whose string has the content of `values[i]`.
pub open spec fn first_from(values: Seq<String>, i: int, j: int) -> int
    decreases i - j,
{
    if j >= i {
        i
    } else if values[j]@ == values[i]@ {
        j
    } else {
        first_from(values, i, j + 1)
    }
}

/// Where the shared bytes of `values[i]` start: after the shared bytes of
/// the strings before the first one with its content.
pub open spec fn shared_pos(values: Seq<String>, i: int) -> int {
    shared_section(values, first_from(values, i, 0)).len() as int
}

/// What goes wrong, if anything, with slot `k` when slots start at `base`.
pub open spec fn slot_outcome(values: Seq<String>, base: int, capacity: int, k: int) -> Option<
    EncodeError,
> {
    let b = encode_utf8(values[k]@);
    let p = slot_pos(base, k);
    if !is_short(b) && b.len() > OUT_OF_LINE_CAPACITY {
        Some(EncodeError::Repr(ReprError::TooLong))
    } else if !is_short(b) && !fits_i32(shared_pos(values, k) - p) {
        Some(EncodeError::Repr(ReprError::OffsetOutOfRange))
    } else if p + REPR_SIZE > capacity {
        Some(EncodeError::Write(WriteError::OutOfSpace))
    } else {
        None
    }
}

/// The first failure among the slots from `k` on.
pub open spec fn slots_outcome(values: Seq<String>, base: int, capacity: int, k: int) -> Option<
    EncodeError,
>
    decreases values.len() - k,
{
    if k < 0 || k >= values.len() {
        None
    } else {
        match slot_outcome(values, base, capacity, k) {
            Some(e) => Some(e),
            None => slots_outcome(values, base, capacity, k + 1),
        }
    }
}

/// How encoding `values` into `capacity` bytes fails, if it does: the shared
/// bytes must fit, then each slot in turn must be describable and fit.
pub open spec fn encode_outcome(values: Seq<String>, capacity: int) -> Option<EncodeError> {
    let shared = shared_section(values, values.len() as int);
    if shared.len() > capacity {
        Some(EncodeError::Write(WriteError::OutOfSpace))
    } else {
        slots_outcome(values, shared.len() as int, capacity, 0)
    }
}

/// The position of slot `i` in a buffer whose slots start at `base`.
pub open spec fn slot_pos(base: int, i: int) -> int {
    base + REPR_SIZE * i
}

/// Every entry of `m` names a place of `w` that holds the entry's bytes.
pub open spec fn registry_sound(m: Map<Seq<char>, usize>, w: Seq<u8>) -> bool {
    forall|k: Seq<char>| #[trigger]
        m.contains_key(k) ==> m[k] + encode_utf8(k).len() <= w.len() && w.subrange(
            m[k] as int,
            m[k] + encode_utf8(k).len(),
        ) == encode_utf8(k) && !is_short(encode_utf8(k))
}

proof fn lemma_shared_mono(values: Seq<String>, i: int, j: int)
    requires
        0 <= i <= j <= values.len(),
    ensures
        shared_section(values, i).len() <= shared_section(values, j).len(),
    decreases j - i,
{
    if i < j {
        lemma_shared_mono(values, i, j - 1);
    }
}

proof fn lemma_first_new(values: Seq<String>, i: int, j: int)
    requires
        0 <= j <= i < values.len(),
        !seen_before(values, i),
    ensures
        first_from(values, i, j) == i,
    decreases i - j,
{
    if j < i {
        assert(values[j]@ != values[i]@);
        lemma_first_new(values, i, j + 1);
    }
}

proof fn lemma_first_same(values: Seq<String>, i: int, j: int, k: int)
    requires
        0 <= k <= j < i < values.len(),
        values[j]@ == values[i]@,
    ensures
        first_from(values, i, k) == first_from(values, j, k),
    decreases j - k,
{
    if k < j {
        lemma_first_same(values, i, j, k + 1);
    }
}

proof fn lemma_sound_extend(m: Map<Seq<char>, usize>, w: Seq<u8>, extra: Seq<u8>)
    requires
        registry_sound(m, w),
    ensures
        registry_sound(m, w + extra),
{
    assert forall|k: Seq<char>| #[trigger] m.contains_key(k) implies (w + extra).subrange(
        m[k] as int,
        m[k] + encode_utf8(k).len(),
    ) == encode_utf8(k) by {
        assert((w + extra).subrange(m[k] as int, m[k] + encode_utf8(k).len()) =~= w.subrange(
            m[k] as int,
            m[k] + encode_utf8(k).len(),
        ));
    }
}

/// Encodes `values` into a buffer of at most `capacity` bytes: first the
/// shared bytes of each distinct long string, once, then one slot per value.
/// Returns the buffer and the position of the first slot.
pub fn encode_strings(values: &Vec<String>, capacity: usize) -> (r: Result<
    (Vec<u8>, usize),
    EncodeError,
>)
    ensures
        r.is_ok() == encode_outcome(values@, capacity as int).is_none(),
        r matches Err(e) ==> encode_outcome(values@, capacity as int) == Some(e),
        r matches Ok((buf, base)) ==> {
            &&& buf@.len() == slot_pos(base as int, values@.len() as int)
            &&& buf@.subrange(0, base as int) == shared_section(values@, values@.len() as int)
            &&& forall|i: int|
                0 <= i < values@.len() ==> slot_bytes(buf@, #[trigger] slot_pos(base as int, i))
                    == Some(encode_utf8(values@[i]@))
            &&& forall|i: int, j: int|
                0 <= i < values@.len() && 0 <= j < values@.len() && values@[i]@ == values@[j]@
                    && !is_short(encode_utf8(values@[i]@)) ==> slot_target(
                    buf@,
                    #[trigger] slot_pos(base as int, i),
                ).is_some() && slot_target(buf@, slot_pos(base as int, i)) == slot_target(
                    buf@,
                    #[trigger] slot_pos(base as int, j),
                )
        },
{
    let n = values.len();
    let ghost vals = values@;
    let mut ser = InternSerializerAdapter::new(
        ByteWriter::with_limit(capacity),
        InternSerializeMap::new(),
    );
    let mut resolvers: Vec<InternedStringResolver> = Vec::new();
    let mut i: usize = 0;
    while i < n
        invariant
            n == vals.len(),
            vals == values@,
            0 <= i <= n,
            resolvers@.len() == i,
            ser.written().len() <= capacity,
            ser.written() == shared_section(vals, i as int),
            ser.capacity() == capacity,
            forall|key: Seq<char>|
                #[trigger] ser.interned().contains_key(key) ==> exists|j: int|
                    0 <= j < i && #[trigger] vals[j]@ == key,
            registry_sound(ser.interned(), ser.written()),
            forall|j: int|
                0 <= j < i && !is_short(encode_utf8(#[trigger] vals[j]@)) ==> ser.interned().contains_key(
                    vals[j]@,
                ) && resolvers@[j].spec_pos() == ser.interned()[vals[j]@] && resolvers@[j].spec_pos()
                    == shared_pos(vals, j),
        decreases n - i,
    {
        let ghost before = ser;
        proof {
            lemma_shared_mono(vals, i + 1, n as int);
        }
        let value = values[i].as_str();
        let res = match ArchivedInternedString::serialize_from_str(value, &mut ser) {
            Ok(res) => res,
            Err(InternSerializeError::Encoder(e)) => {
                return Err(EncodeError::Write(e));
            },
            Err(InternSerializeError::Intern(e)) => {
                return Err(EncodeError::Intern(e));
            },
        };
        proof {
            let b = encode_utf8(value@);
            if !is_short(b) && !before.interned().contains_key(value@) {
                assert(!seen_before(vals, i as int)) by {
                    if seen_before(vals, i as int) {
                        let j = choose|j: int| 0 <= j < i && #[trigger] vals[j]@ == vals[i as int]@;
                        assert(!is_short(encode_utf8(vals[j]@)));
                    }
                }
            }
            if !is_short(b) && before.interned().contains_key(value@) {
                let j = choose|j: int| 0 <= j < i && #[trigger] vals[j]@ == value@;
                assert(seen_before(vals, i as int));
                lemma_first_same(vals, i as int, j, 0);
            }
            if !is_short(b) && !before.interned().contains_key(value@) {
                lemma_first_new(vals, i as int, 0);
            }
            assert(ser.written() =~= shared_section(vals, i + 1));
            if !is_short(encode_utf8(value@)) && !before.interned().contains_key(value@) {
                lemma_sound_extend(before.interned(), before.written(), encode_utf8(value@));
                let w2 = ser.written();
                assert(w2.subrange(
                    before.written().len() as int,
                    before.written().len() + encode_utf8(value@).len() as int,
                ) =~= encode_utf8(value@));
            }
        }
        resolvers.push(res);
        i = i + 1;
    }
    let ghost m = ser.interned();
    let ghost shared = ser.written();
    let base = ser.pos();
    let mut k: usize = 0;
    while k < n
        invariant
            n == vals.len(),
            vals == values@,
            0 <= k <= n,
            resolvers@.len() == n,
            base == shared.len(),
            shared == shared_section(vals, n as int),
            base <= capacity,
            ser.capacity() == capacity,
            slots_outcome(vals, base as int, capacity as int, 0) == slots_outcome(
                vals,
                base as int,
                capacity as int,
                k as int,
            ),
            forall|j: int|
                0 <= j < n && !is_short(encode_utf8(#[trigger] vals[j]@)) ==> resolvers@[j].spec_pos()
                    == shared_pos(vals, j),
            ser.written().len() == slot_pos(base as int, k as int),
            ser.written().subrange(0, base as int) == shared,
            registry_sound(m, shared),
            forall|j: int|
                0 <= j < n && !is_short(encode_utf8(#[trigger] vals[j]@)) ==> m.contains_key(vals[j]@)
                    && resolvers@[j].spec_pos() == m[vals[j]@],
            forall|j: int|
                0 <= j < k ==> ser.written().subrange(
                    #[trigger] slot_pos(base as int, j),
                    slot_pos(base as int, j) + REPR_SIZE,
                ) == slot_for(
                    encode_utf8(vals[j]@),
                    slot_pos(base as int, j),
                    resolvers@[j].spec_pos() as int,
                ),
            forall|j: int|
                0 <= j < k && !is_short(encode_utf8(#[trigger] vals[j]@)) ==> encode_utf8(vals[j]@).len()
                    <= OUT_OF_LINE_CAPACITY && fits_i32(resolvers@[j].spec_pos() - slot_pos(base as int, j)),
        decreases n - k,
    {
        let ghost w0 = ser.written();
        let pos = ser.pos();
        let value = values[k].as_str();
        let resolver = InternedStringResolver::copy_of(&resolvers[k]);
        proof {
            if !is_short(encode_utf8(value@)) {
                assert(m.contains_key(vals[k as int]@));
            }
        }
        let slot = match ArchivedInternedString::resolve_from_str(value, resolver, pos) {
            Ok(slot) => slot,
            Err(e) => {
                return Err(EncodeError::Repr(e));
            },
        };
        match ser.write(slot.as_slice()) {
            Ok(()) => {},
            Err(e) => {
                return Err(EncodeError::Write(e));
            },
        }
        proof {
            let w1 = ser.written();
            assert(w1.subrange(0, base as int) =~= w0.subrange(0, base as int));
            assert forall|j: int| 0 <= j < k + 1 implies w1.subrange(
                #[trigger] slot_pos(base as int, j),
                slot_pos(base as int, j) + REPR_SIZE,
            ) == slot_for(
                encode_utf8(vals[j]@),
                slot_pos(base as int, j),
                resolvers@[j].spec_pos() as int,
            ) by {
                if j < k {
                    assert(w1.subrange(slot_pos(base as int, j), slot_pos(base as int, j) + REPR_SIZE)
                        =~= w0.subrange(slot_pos(base as int, j), slot_pos(base as int, j) + REPR_SIZE));
                } else {
                    assert(w1.subrange(slot_pos(base as int, j), slot_pos(base as int, j) + REPR_SIZE)
                        =~= slot@);
                }
            }
        }
        k = k + 1;
    }
    let ghost buf = ser.written();
    proof {
        assert forall|i: int| 0 <= i < n implies slot_bytes(buf, #[trigger] slot_pos(base as int, i))
            == Some(encode_utf8(vals[i]@)) && (!is_short(encode_utf8(vals[i]@)) ==> slot_target(
            buf,
            slot_pos(base as int, i),
        ) == Some(m[vals[i]@] as int)) by {
            let b = encode_utf8(vals[i]@);
            let p = slot_pos(base as int, i);
            encode_utf8_valid_utf8(vals[i]@);
            if is_short(b) {
                lemma_inline_slot_bytes(buf, p, b);
            } else {
                let t = m[vals[i]@] as int;
                assert(buf.subrange(t, t + b.len()) =~= shared.subrange(t, t + b.len()));
                lemma_out_of_line_slot_bytes(buf, p, b.len(), t - p);
            }
        }
    }
    let out = ser.into_serializer().into_bytes();
    Ok((out, base))
}

/// Reads back `n` strings whose slots start at `base`: `None` unless every
/// slot lies in the buffer, points inside it, and holds valid UTF-8.
pub fn decode_strings(buf: &[u8], base: usize, n: usize) -> (r: Option<Vec<String>>)
    ensures
        r.is_some() == forall|i: int| 0 <= i < n ==> slot_valid(buf@, #[trigger] slot_pos(base as int, i)),
        r matches Some(out) ==> out@.len() == n && forall|i: int|
            0 <= i < n ==> (#[trigger] out@[i])@ == decode_utf8(
                slot_bytes(buf@, slot_pos(base as int, i)).unwrap(),
            ),
{
    let mut out: Vec<String> = Vec::new();
    let mut pos: usize = base;
    let mut i: usize = 0;
    while i < n
        invariant
            0 <= i <= n,
            i < n ==> pos == slot_pos(base as int, i as int),
            out@.len() == i,
            forall|j: int| 0 <= j < i ==> slot_valid(buf@, #[trigger] slot_pos(base as int, j)),
            forall|j: int|
                0 <= j < i ==> (#[trigger] out@[j])@ == decode_utf8(
                    slot_bytes(buf@, slot_pos(base as int, j)).unwrap(),
                ),
        decreases n - i,
    {
        let slot = ArchivedInternedString { pos };
        match slot.as_str(buf) {
            Some(s) => {
                out.push(s.to_owned());
            },
            None => {
                return None;
            },
        }
        proof {
            vstd::slice::axiom_spec_len(buf);
        }
        i = i + 1;
        if i < n {
            pos = pos + REPR_SIZE;
        }
    }
    Some(out)
}

/// A string of at most `INLINE_CAPACITY` bytes read back from its inline
/// slot is the string itself, and the slot points nowhere.
pub proof fn lemma_short_round_trip(buf: Seq<u8>, pos: int, s: Seq<char>)
    requires
        is_short(encode_utf8(s)),
        0 <= pos,
        pos + REPR_SIZE <= buf.len(),
        buf.subrange(pos, pos + REPR_SIZE) == inline_slot(encode_utf8(s)),
    ensures
        slot_valid(buf, pos),
        decode_utf8(slot_bytes(buf, pos).unwrap()) == s,
        slot_target(buf, pos).is_none(),
{
    encode_utf8_valid_utf8(s);
    encode_utf8_decode_utf8(s);
    lemma_inline_slot_bytes(buf, pos, encode_utf8(s));
}

/// Decoding what an encoding pass produced gives back the encoded strings,
/// equal by content.
pub proof fn lemma_round_trip(values: Seq<String>, buf: Seq<u8>, base: int)
    requires
        forall|i: int|
            0 <= i < values.len() ==> slot_bytes(buf, #[trigger] slot_pos(base, i)) == Some(
                encode_utf8(values[i]@),
            ),
    ensures
        forall|i: int|
            0 <= i < values.len() ==> slot_valid(buf, #[trigger] slot_pos(base, i)) && decode_utf8(
                slot_bytes(buf, slot_pos(base, i)).unwrap(),
            ) == values[i]@,
{
    assert forall|i: int| 0 <= i < values.len() implies slot_valid(buf, #[trigger] slot_pos(base, i))
        && decode_utf8(slot_bytes(buf, slot_pos(base, i)).unwrap()) == values[i]@ by {
        encode_utf8_valid_utf8(values[i]@);
        encode_utf8_decode_utf8(values[i]@);
    }
}

} // verus!
