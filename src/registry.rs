//! The interning registry: a table from string content to the position where
//! the string's bytes were first written.
use vstd::prelude::*;

verus! {

/// Why a registry refused an entry.
#[derive(Debug, Clone, Copy, PartialEq, Eq, Structural)]
pub enum InternSerializeMapError {
    /// An entry was added for content that the registry already holds.
    DuplicateKeyAdded,
}

impl InternSerializeMapError {
    /// A sentence that describes the error.
    pub fn message(&self) -> (r: &'static str)
        ensures
            r@ == "duplicate key added to intern serialize registry"@,
    {
        proof {
            reveal_strlit("duplicate key added to intern serialize registry");
        }
        match self {
            InternSerializeMapError::DuplicateKeyAdded => "duplicate key added to intern serialize registry",
        }
    }
}

/// A registry with no entries.
pub open spec fn no_entries() -> Map<Seq<char>, usize> {
    Map::empty()
}

/// What a lookup of `value` in `m` returns.
pub open spec fn lookup(m: Map<Seq<char>, usize>, value: Seq<char>) -> Option<usize> {
    if m.contains_key(value) {
        Some(m[value])
    } else {
        None
    }
}

/// What recording `value` in `m` returns: the first entry for a content wins.
pub open spec fn record_outcome(m: Map<Seq<char>, usize>, value: Seq<char>) -> Result<
    (),
    InternSerializeMapError,
> {
    if m.contains_key(value) {
        Err(InternSerializeMapError::DuplicateKeyAdded)
    } else {
        Ok(())
    }
}

/// The registry after recording `value` at `pos` in `m`.
pub open spec fn after_record(m: Map<Seq<char>, usize>, value: Seq<char>, pos: usize) -> Map<
    Seq<char>,
    usize,
> {
    if m.contains_key(value) {
        m
    } else {
        m.insert(value, pos)
    }
}

/// A registry of interned strings and the positions they were written at.
pub trait InternSerializeRegistry {
    /// The entries of the registry.
    spec fn interned(&self) -> Map<Seq<char>, usize>;

    /// The position recorded for `value`, if any. Never changes the registry.
    fn get_interned(&self, value: &str) -> (r: Option<usize>)
        ensures
            r == lookup(self.interned(), value@),
    ;

    /// Records that `value` was written at `pos`; fails when the content is
    /// already present, and then leaves the registry unchanged.
    fn add_interned(&mut self, value: String, pos: usize) -> (r: Result<
        (),
        InternSerializeMapError,
    >)
        ensures
            r == record_outcome(old(self).interned(), value@),
            final(self).interned() == after_record(old(self).interned(), value@, pos),
    ;
}

/// A hash table from string content to a position.
#[verifier::external_body]
pub struct PosTable {
    inner: hashbrown::HashMap<String, usize>,
}

/// The entries of a table.
pub uninterp spec fn table_entries(t: PosTable) -> Map<Seq<char>, usize>;

/// Relies on hashbrown::HashMap::new: a new table is empty.
#[verifier::external_body]
fn table_new() -> (r: PosTable)
    ensures
        table_entries(r) == no_entries(),
{
    PosTable { inner: hashbrown::HashMap::new() }
}

/// Relies on hashbrown::HashMap::get: the value stored under a key equal to
/// `key` (`String` and `str` hash and compare by content).
#[verifier::external_body]
fn table_get(t: &PosTable, key: &str) -> (r: Option<usize>)
    ensures
        r == lookup(table_entries(*t), key@),
{
    t.inner.get(key).copied()
}

/// Relies on hashbrown::HashMap::entry: a vacant entry is filled with `pos`,
/// an occupied one is left as it is.
#[verifier::external_body]
fn table_insert_new(t: &mut PosTable, key: String, pos: usize) -> (r: bool)
    ensures
        r == !table_entries(*old(t)).contains_key(key@),
        table_entries(*final(t)) == after_record(table_entries(*old(t)), key@, pos),
{
    match t.inner.entry(key) {
        hashbrown::hash_map::Entry::Vacant(e) => {
            e.insert(pos);
            true
        },
        hashbrown::hash_map::Entry::Occupied(_) => false,
    }
}

/// The default registry: an in-memory table for one encoding pass.
pub struct InternSerializeMap {
    value_to_pos: PosTable,
}

impl InternSerializeMap {
    /// An empty registry.
    pub fn new() -> (r: Self)
        ensures
            r.interned() == no_entries(),
    {
        InternSerializeMap { value_to_pos: table_new() }
    }
}

impl Default for InternSerializeMap {
    fn default() -> (r: Self)
        ensures
            r.interned() == no_entries(),
    {
        InternSerializeMap::new()
    }
}

impl InternSerializeRegistry for InternSerializeMap {
    closed spec fn interned(&self) -> Map<Seq<char>, usize> {
        table_entries(self.value_to_pos)
    }

    fn get_interned(&self, value: &str) -> (r: Option<usize>) {
        table_get(&self.value_to_pos, value)
    }

    fn add_interned(&mut self, value: String, pos: usize) -> (r: Result<
        (),
        InternSerializeMapError,
    >) {
        if table_insert_new(&mut self.value_to_pos, value, pos) {
            Ok(())
        } else {
            Err(InternSerializeMapError::DuplicateKeyAdded)
        }
    }
}

/// Recording a content a second time fails with `DuplicateKeyAdded`, whatever
/// position either record names, and leaves the first position in place.
pub proof fn lemma_second_record_fails(
    m: Map<Seq<char>, usize>,
    value: Seq<char>,
    pos: usize,
    other_pos: usize,
)
    ensures
        record_outcome(after_record(m, value, pos), value) == Err::<(), InternSerializeMapError>(
            InternSerializeMapError::DuplicateKeyAdded,
        ),
        after_record(after_record(m, value, pos), value, other_pos) == after_record(m, value, pos),
        lookup(after_record(after_record(m, value, pos), value, other_pos), value) == lookup(
            after_record(m, value, pos),
            value,
        ),
{
}

} // verus!
