//! Checking an untrusted buffer: every slot must lie in the buffer, point
//! inside it and hold valid UTF-8. A shared region is checked once, however
//! many slots point at it.
use vstd::prelude::*;
use vstd::slice::slice_subrange;
use vstd::utf8::valid_utf8;
use crate::archive::slot_pos;
use crate::repr::{is_inline, locate, slot_bytes, slot_span, slot_target, slot_valid, REPR_SIZE};
use crate::string::str_from_utf8;

verus! {

broadcast use vstd::std_specs::hash::group_hash_axioms;

/// How far the check of a shared region has come. A region that is absent
/// from the table has not been started.
#[derive(Debug, Clone, Copy, PartialEq, Eq, Structural)]
pub enum ValidationState {
    Started,
    Finished,
}

/// What the validator keeps for one shared address.
#[derive(Debug, Clone, Copy, PartialEq, Eq, Structural)]
pub struct SharedRegion {
    pub state: ValidationState,
    /// The length of the region.
    pub len: usize,
    /// The first slot that pointed at it.
    pub first_slot: usize,
}

/// Why a buffer was rejected; each names the offending slot by its index.
#[derive(Debug, Clone, Copy, PartialEq, Eq, Structural)]
pub enum ValidationError {
    /// The slot, or the bytes it points at, lie outside the buffer.
    OutOfBounds { slot: usize },
    /// The slot points at a shared region that an earlier slot gave another length.
    Conflict { slot: usize },
    /// The slot's bytes are not valid UTF-8.
    InvalidUtf8 { slot: usize },
}

impl ValidationError {
    /// The index of the offending slot.
    pub open spec fn spec_slot(&self) -> usize {
        match self {
            ValidationError::OutOfBounds { slot } => *slot,
            ValidationError::Conflict { slot } => *slot,
            ValidationError::InvalidUtf8 { slot } => *slot,
        }
    }

    /// The index of the offending slot.
    pub fn slot(&self) -> (r: usize)
        ensures
            r == self.spec_slot(),
    {
        match self {
            ValidationError::OutOfBounds { slot } => *slot,
            ValidationError::Conflict { slot } => *slot,
            ValidationError::InvalidUtf8 { slot } => *slot,
        }
    }
}

/// Slot `i` shares its address with an earlier slot that gives the region
/// another extent.
pub open spec fn slot_conflict(buf: Seq<u8>, base: int, i: int) -> bool {
    exists|j: int|
        0 <= j < i && slot_target(buf, #[trigger] slot_pos(base, j)) == slot_target(
            buf,
            slot_pos(base, i),
        ) && slot_target(buf, slot_pos(base, i)).is_some() && slot_span(buf, slot_pos(base, j))
            != slot_span(buf, slot_pos(base, i))
}

/// The error that slot `i` gives, when the slots before it passed.
pub open spec fn slot_error(buf: Seq<u8>, base: int, i: int) -> Option<ValidationError> {
    if slot_span(buf, slot_pos(base, i)).is_none() {
        Some(ValidationError::OutOfBounds { slot: i as usize })
    } else if slot_conflict(buf, base, i) {
        Some(ValidationError::Conflict { slot: i as usize })
    } else if !slot_valid(buf, slot_pos(base, i)) {
        Some(ValidationError::InvalidUtf8 { slot: i as usize })
    } else {
        None
    }
}

/// The first `i` slots pass.
pub open spec fn prefix_ok(buf: Seq<u8>, base: int, i: int) -> bool {
    forall|j: int| 0 <= j < i ==> (#[trigger] slot_error(buf, base, j)).is_none()
}

/// The shared addresses that the first `i` slots point at.
pub open spec fn targets_upto(buf: Seq<u8>, base: int, i: int) -> Set<int>
    decreases i,
{
    if i <= 0 {
        Set::empty()
    } else {
        let s = targets_upto(buf, base, i - 1);
        match slot_target(buf, slot_pos(base, i - 1)) {
            Some(t) => s.insert(t),
            None => s,
        }
    }
}

/// Checks the `n` slots that start at `base`. Returns how many shared
/// regions were checked, which is the number of distinct shared addresses,
/// or the error of the first slot that fails.
pub fn validate_strings(buf: &[u8], base: usize, n: usize) -> (r: Result<usize, ValidationError>)
    ensures
        r.is_ok() == prefix_ok(buf@, base as int, n as int),
        r matches Err(e) ==> e.spec_slot() < n && prefix_ok(buf@, base as int, e.spec_slot() as int)
            && slot_error(buf@, base as int, e.spec_slot() as int) == Some(e),
        r matches Ok(v) ==> v == targets_upto(buf@, base as int, n as int).len(),
{
    proof {
        vstd::slice::axiom_spec_len(buf);
    }
    let ghost b = buf@;
    let ghost bs = base as int;
    let mut regions: std::collections::HashMap<usize, SharedRegion> = std::collections::HashMap::new();
    let mut visits: usize = 0;
    let mut pos: usize = base;
    let mut i: usize = 0;
    while i < n
        invariant
            b == buf@,
            bs == base as int,
            b.len() <= usize::MAX,
            0 <= i <= n,
            i < n ==> pos == slot_pos(bs, i as int),
            prefix_ok(b, bs, i as int),
            targets_upto(b, bs, i as int).finite(),
            visits == targets_upto(b, bs, i as int).len(),
            visits <= i,
            forall|t: int| #[trigger] targets_upto(b, bs, i as int).contains(t) ==> 0 <= t <= usize::MAX,
            forall|t: usize| #[trigger] regions@.contains_key(t) <==> targets_upto(b, bs, i as int).contains(t as int),
            forall|t: usize| #[trigger] regions@.contains_key(t) ==> {
                let reg = regions@[t];
                &&& reg.state == ValidationState::Finished
                &&& reg.first_slot < i
                &&& slot_target(b, slot_pos(bs, reg.first_slot as int)) == Some(t as int)
            },
            forall|j: int|
                0 <= j < i && (#[trigger] slot_target(b, slot_pos(bs, j))).is_some() ==> {
                    let t = slot_target(b, slot_pos(bs, j)).unwrap();
                    &&& regions@.contains_key(t as usize)
                    &&& slot_span(b, slot_pos(bs, j)) == Some((t, regions@[t as usize].len as int))
                },
        decreases n - i,
    {
        let ghost p = slot_pos(bs, i as int);
        let ghost before = targets_upto(b, bs, i as int);
        let (start, len) = match locate(buf, pos) {
            Some(span) => span,
            None => {
                return Err(ValidationError::OutOfBounds { slot: i });
            },
        };
        if is_inline(buf, pos) {
            if str_from_utf8(slice_subrange(buf, start, start + len)).is_none() {
                return Err(ValidationError::InvalidUtf8 { slot: i });
            }
            assert(slot_target(b, p).is_none());
            assert(!slot_conflict(b, bs, i as int));
            assert(targets_upto(b, bs, i + 1) == before);
        } else {
            assert(slot_target(b, p) == Some(start as int));
            match regions.get(&start) {
                Some(region) => {
                    let ghost first = region.first_slot as int;
                    if region.len != len {
                        assert(slot_conflict(b, bs, i as int)) by {
                            assert(slot_target(b, slot_pos(bs, first)).is_some());
                        }
                        return Err(ValidationError::Conflict { slot: i });
                    }
                    assert(!slot_conflict(b, bs, i as int));
                    assert(slot_valid(b, p)) by {
                        assert(slot_target(b, slot_pos(bs, first)).is_some());
                        assert(slot_error(b, bs, first).is_none());
                    }
                    assert(targets_upto(b, bs, i + 1) == before);
                },
                None => {
                    regions.insert(start, SharedRegion { state: ValidationState::Started, len, first_slot: i });
                    if str_from_utf8(slice_subrange(buf, start, start + len)).is_none() {
                        assert(!slot_conflict(b, bs, i as int));
                        return Err(ValidationError::InvalidUtf8 { slot: i });
                    }
                    regions.insert(start, SharedRegion { state: ValidationState::Finished, len, first_slot: i });
                    assert(!before.contains(start as int));
                    assert(!slot_conflict(b, bs, i as int));
                    assert(targets_upto(b, bs, i + 1) == before.insert(start as int));
                    visits = visits + 1;
                },
            }
        }
        assert(slot_error(b, bs, i as int).is_none());
        i = i + 1;
        if i < n {
            pos = pos + REPR_SIZE;
        }
    }
    Ok(visits)
}

/// When every one of `n >= 1` slots points at the same shared address, the
/// validator checks exactly one region.
pub proof fn lemma_one_shared_region(buf: Seq<u8>, base: int, n: int, t: int)
    requires
        n >= 1,
        forall|i: int| 0 <= i < n ==> slot_target(buf, #[trigger] slot_pos(base, i)) == Some(t),
    ensures
        targets_upto(buf, base, n) == set![t],
        targets_upto(buf, base, n).len() == 1,
{
    lemma_targets_all_same(buf, base, n, t);
    assert(set![t].len() == 1) by {
        assert(set![t] == Set::<int>::empty().insert(t));
    }
}

proof fn lemma_targets_all_same(buf: Seq<u8>, base: int, n: int, t: int)
    requires
        n >= 1,
        forall|i: int| 0 <= i < n ==> slot_target(buf, #[trigger] slot_pos(base, i)) == Some(t),
    ensures
        targets_upto(buf, base, n) == set![t],
    decreases n,
{
    assert(slot_target(buf, slot_pos(base, n - 1)) == Some(t));
    if n == 1 {
        assert(targets_upto(buf, base, 0) == Set::<int>::empty());
        assert(targets_upto(buf, base, 1) =~= set![t]);
    } else {
        lemma_targets_all_same(buf, base, n - 1, t);
        assert(targets_upto(buf, base, n) =~= set![t]);
    }
}

/// A slot whose bytes are not valid UTF-8 makes the whole buffer fail.
pub proof fn lemma_invalid_region_rejected(buf: Seq<u8>, base: int, n: int, i: int)
    requires
        0 <= i < n,
        slot_bytes(buf, slot_pos(base, i)) matches Some(bytes) && !valid_utf8(bytes),
    ensures
        !prefix_ok(buf, base, n),
        slot_error(buf, base, i).is_some(),
{
    assert(slot_error(buf, base, i).is_some());
}

} // verus!
