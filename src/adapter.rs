//! Encoder capabilities, an in-memory byte writer, and the adapter that adds
//! an interning registry to any writer.
use vstd::prelude::*;
use vstd::utf8::encode_utf8;
use crate::registry::{
    after_record, lookup, InternSerializeMapError, InternSerializeRegistry,
};

verus! {

/// An encoder that knows how many bytes it has written.
pub trait Positional {
    /// The bytes written so far.
    spec fn written(&self) -> Seq<u8>;

    /// The position the next byte will be written at.
    fn pos(&self) -> (r: usize)
        ensures
            r == self.written().len(),
    ;
}

/// An encoder that appends bytes.
pub trait Writer: Positional {
    type Error;

    /// The number of bytes the writer can hold in all.
    spec fn capacity(&self) -> nat;

    /// Appends `bytes`; fails when they would pass the capacity, and the
    /// writer's state is then left to the caller to discard.
    fn write(&mut self, bytes: &[u8]) -> (r: Result<(), Self::Error>)
        ensures
            r.is_ok() == (old(self).written().len() + bytes@.len() <= old(self).capacity()),
            r.is_ok() ==> final(self).written() == old(self).written() + bytes@,
            r.is_ok() ==> final(self).capacity() == old(self).capacity(),
            r.is_ok() ==> old(self).written().len() + bytes@.len() <= usize::MAX,
    ;
}

/// Why a write was refused.
#[derive(Debug, Clone, Copy, PartialEq, Eq, Structural)]
pub enum WriteError {
    /// The bytes would pass the writer's limit.
    OutOfSpace,
}

/// A writer into a growable byte vector, with an upper bound on its size.
pub struct ByteWriter {
    bytes: Vec<u8>,
    limit: usize,
}

impl ByteWriter {
    /// An empty writer bounded only by the address space.
    pub fn new() -> (r: Self)
        ensures
            r.written() == Seq::<u8>::empty(),
            r.capacity() == usize::MAX,
    {
        ByteWriter { bytes: Vec::new(), limit: usize::MAX }
    }

    /// An empty writer that takes at most `limit` bytes.
    pub fn with_limit(limit: usize) -> (r: Self)
        ensures
            r.written() == Seq::<u8>::empty(),
            r.capacity() == limit,
    {
        ByteWriter { bytes: Vec::new(), limit }
    }

    /// The bytes written.
    pub fn into_bytes(self) -> (r: Vec<u8>)
        ensures
            r@ == self.written(),
    {
        self.bytes
    }
}

impl Positional for ByteWriter {
    closed spec fn written(&self) -> Seq<u8> {
        self.bytes@
    }

    fn pos(&self) -> (r: usize) {
        self.bytes.len()
    }
}

impl Writer for ByteWriter {
    type Error = WriteError;

    closed spec fn capacity(&self) -> nat {
        self.limit as nat
    }

    fn write(&mut self, bytes: &[u8]) -> (r: Result<(), WriteError>) {
        if self.bytes.len() > self.limit || bytes.len() > self.limit - self.bytes.len() {
            return Err(WriteError::OutOfSpace);
        }
        let ghost start = self.bytes@;
        let mut i: usize = 0;
        while i < bytes.len()
            invariant
                i <= bytes@.len(),
                self.bytes@ == start + bytes@.subrange(0, i as int),
                start.len() + bytes@.len() <= self.limit,
                self.limit == old(self).limit,
                start == old(self).bytes@,
            decreases bytes@.len() - i,
        {
            self.bytes.push(bytes[i]);
            i = i + 1;
            assert(self.bytes@ =~= start + bytes@.subrange(0, i as int));
        }
        assert(bytes@.subrange(0, i as int) =~= bytes@);
        Ok(())
    }
}

/// An error of an adapter: from the wrapped encoder or from the registry.
#[derive(Debug, PartialEq, Eq)]
pub enum InternSerializeError<E> {
    Encoder(E),
    Intern(InternSerializeMapError),
}

/// An encoder with an interning registry beside it. Every encoder call is
/// handed on unchanged; registry calls go to the registry.
pub struct InternSerializerAdapter<S, T> {
    serializer: S,
    intern_registry: T,
}

impl<S, T> InternSerializerAdapter<S, T> {
    /// The wrapped encoder.
    pub closed spec fn spec_serializer(&self) -> S {
        self.serializer
    }

    /// The registry.
    pub closed spec fn spec_registry(&self) -> T {
        self.intern_registry
    }

    /// An adapter over `serializer` and `intern_registry`.
    pub fn new(serializer: S, intern_registry: T) -> (r: Self)
        ensures
            r.spec_serializer() == serializer,
            r.spec_registry() == intern_registry,
    {
        InternSerializerAdapter { serializer, intern_registry }
    }

    /// The encoder and the registry, taken apart.
    pub fn into_components(self) -> (r: (S, T))
        ensures
            r == (self.spec_serializer(), self.spec_registry()),
    {
        (self.serializer, self.intern_registry)
    }

    /// The encoder, without the registry.
    pub fn into_serializer(self) -> (r: S)
        ensures
            r == self.spec_serializer(),
    {
        self.serializer
    }
}

impl<S: Positional, T> Positional for InternSerializerAdapter<S, T> {
    open spec fn written(&self) -> Seq<u8> {
        self.spec_serializer().written()
    }

    fn pos(&self) -> (r: usize) {
        self.serializer.pos()
    }
}

impl<S: Writer, T> Writer for InternSerializerAdapter<S, T> {
    type Error = S::Error;

    open spec fn capacity(&self) -> nat {
        self.spec_serializer().capacity()
    }

    fn write(&mut self, bytes: &[u8]) -> (r: Result<(), S::Error>) {
        self.serializer.write(bytes)
    }
}

impl<S, T: InternSerializeRegistry> InternSerializeRegistry for InternSerializerAdapter<S, T> {
    open spec fn interned(&self) -> Map<Seq<char>, usize> {
        self.spec_registry().interned()
    }

    fn get_interned(&self, value: &str) -> (r: Option<usize>) {
        self.intern_registry.get_interned(value)
    }

    fn add_interned(&mut self, value: String, pos: usize) -> (r: Result<
        (),
        InternSerializeMapError,
    >) {
        self.intern_registry.add_interned(value, pos)
    }
}

impl<S: Writer, T: InternSerializeRegistry> InternSerializerAdapter<S, T> {
    /// The position of `value`'s bytes: the recorded one when the content was
    /// seen before, with nothing written; otherwise the bytes are written at
    /// the current position, which is recorded and returned.
    pub fn serialize_interned(&mut self, value: &str) -> (r: Result<
        usize,
        InternSerializeError<S::Error>,
    >)
        ensures
            old(self).interned().contains_key(value@) ==> r == Ok::<
                usize,
                InternSerializeError<S::Error>,
            >(old(self).interned()[value@]) && *final(self) == *old(self),
            !old(self).interned().contains_key(value@) && old(self).written().len() + encode_utf8(value@).len()
                > old(self).capacity() ==> (r matches Err(InternSerializeError::Encoder(_))) && final(self).interned()
                == old(self).interned(),
            !old(self).interned().contains_key(value@) && old(self).written().len() + encode_utf8(value@).len()
                <= old(self).capacity() ==> r == Ok::<usize, InternSerializeError<S::Error>>(old(self).written().len() as usize)
                && old(self).written().len() + encode_utf8(value@).len() <= usize::MAX
                && final(self).written() == old(self).written() + encode_utf8(value@)
                && final(self).capacity() == old(self).capacity()
                && final(self).interned() == old(self).interned().insert(
                value@,
                old(self).written().len() as usize,
            ),
    {
        match self.get_interned(value) {
            Some(pos) => Ok(pos),
            None => {
                let owned = value.to_owned();
                let pos = self.pos();
                match self.serializer.write(value.as_bytes()) {
                    Ok(()) => {},
                    Err(e) => {
                        return Err(InternSerializeError::Encoder(e));
                    },
                }
                match self.intern_registry.add_interned(owned, pos) {
                    Ok(()) => Ok(pos),
                    Err(e) => Err(InternSerializeError::Intern(e)),
                }
            },
        }
    }
}

} // verus!
