use rkyv_intern::{
    decode_strings, encode_strings, validate_strings, ArchivedInternedString, ByteWriter,
    EncodeError, InternSerializeError, InternSerializeMap, InternSerializeMapError,
    InternSerializeRegistry, InternSerializerAdapter, Positional, ReprError, ValidationError,
    WriteError, Writer, INLINE_CAPACITY, REPR_SIZE,
};
use rkyv_intern::{resolve_option_from_str, serialize_option_from_str};

const USERS: [&str; 4] = [
    "Alice, the leader and brains behind the team",
    "Bob, bodybuilder and the muslce of the operation",
    "Carol, safe-cracker and swindler extraordinaire",
    "Dave, Jumanji master of the nineteenth dimension",
];

fn adapter() -> InternSerializerAdapter<ByteWriter, InternSerializeMap> {
    InternSerializerAdapter::new(ByteWriter::new(), InternSerializeMap::default())
}

fn count_occurrences(haystack: &[u8], needle: &[u8]) -> usize {
    haystack.windows(needle.len()).filter(|w| *w == needle).count()
}

#[test]
fn intern_strings() {
    let mut value = Vec::new();
    for i in 0..1000 {
        value.push(USERS[i % USERS.len()].to_string());
    }
    let (result, base) = encode_strings(&value, 16_000).unwrap();
    assert!(result.len() < 20_000);
    assert_eq!(validate_strings(&result, base, value.len()), Ok(4));
    let deserialized = decode_strings(&result, base, value.len()).unwrap();
    assert_eq!(deserialized, value);
}

#[test]
fn long_strings_are_stored_once() {
    let total: usize = USERS.iter().map(|u| u.len()).sum();
    let mut value = Vec::new();
    for i in 0..1000 {
        value.push(USERS[i % USERS.len()].to_string());
    }
    let (buf, base) = encode_strings(&value, usize::MAX).unwrap();
    assert_eq!(base, total);
    assert_eq!(buf.len(), total + REPR_SIZE * 1000);
    for user in USERS.iter() {
        assert_eq!(count_occurrences(&buf, user.as_bytes()), 1);
    }
}

#[test]
fn repeated_long_string_resolves_to_one_address() {
    let s = "a string longer than one slot".to_string();
    let value = vec![s.clone(), "x".to_string(), s.clone(), s.clone()];
    let (buf, base) = encode_strings(&value, usize::MAX).unwrap();
    assert_eq!(buf.len(), s.len() + 4 * REPR_SIZE);
    let mut addresses = Vec::new();
    for i in [0usize, 2, 3] {
        let slot = ArchivedInternedString { pos: base + REPR_SIZE * i };
        let text = slot.as_str(&buf).unwrap();
        assert_eq!(text, s.as_str());
        addresses.push(text.as_ptr() as usize);
    }
    assert!(addresses.iter().all(|a| *a == addresses[0]));
    assert_eq!(addresses[0], buf.as_ptr() as usize);
    assert_eq!(count_occurrences(&buf, s.as_bytes()), 1);
}

#[test]
fn short_string_round_trip_without_registry_entry() {
    let mut ser = adapter();
    let resolver = ArchivedInternedString::serialize_from_str("hi", &mut ser).unwrap();
    assert_eq!(ser.pos(), 0);
    assert_eq!(ser.get_interned("hi"), None);
    let slot = ArchivedInternedString::resolve_from_str("hi", resolver, 0).unwrap();
    assert_eq!(slot, vec![b'h', b'i', 0xff, 0xff, 0xff, 0xff, 0xff, 0xff]);
    let archived = ArchivedInternedString { pos: 0 };
    assert_eq!(archived.as_str(&slot), Some("hi"));
}

#[test]
fn empty_and_full_inline_strings() {
    let value = vec![String::new(), "12345678".to_string(), "123456789".to_string()];
    assert_eq!(INLINE_CAPACITY, 8);
    let (buf, base) = encode_strings(&value, usize::MAX).unwrap();
    assert_eq!(base, 9);
    assert_eq!(&buf[base..base + 8], &[0xff; 8]);
    assert_eq!(&buf[base + 8..base + 16], b"12345678");
    assert_eq!(decode_strings(&buf, base, 3).unwrap(), value);
}

#[test]
fn out_of_line_slot_layout() {
    let s = "twenty bytes exactly";
    assert_eq!(s.len(), 20);
    let mut ser = adapter();
    ser.write(&[0u8; 4]).unwrap();
    let resolver = ArchivedInternedString::serialize_from_str(s, &mut ser).unwrap();
    assert_eq!(ser.get_interned(s), Some(4));
    let slot = ArchivedInternedString::resolve_from_str(s, resolver, 104).unwrap();
    assert_eq!(slot, vec![0x94, 0x00, 0x00, 0x00, 0x9c, 0xff, 0xff, 0xff]);
}

#[test]
fn out_of_line_length_word_spreads_bits() {
    let s = "y".repeat(100);
    let mut ser = adapter();
    let resolver = ArchivedInternedString::serialize_from_str(&s, &mut ser).unwrap();
    let slot = ArchivedInternedString::resolve_from_str(&s, resolver, 200).unwrap();
    // 100 = 0b1_100100: low six bits beside the tag, the rest two bits up.
    assert_eq!(&slot[0..4], &[0xa4, 0x01, 0x00, 0x00]);
    assert_eq!(&slot[4..8], &[0x38, 0xff, 0xff, 0xff]);
}

#[test]
fn offset_out_of_range_is_an_error() {
    let s = "a string longer than one slot";
    let mut ser = adapter();
    let resolver = ArchivedInternedString::serialize_from_str(s, &mut ser).unwrap();
    let r = ArchivedInternedString::resolve_from_str(s, resolver, 0x8000_0001);
    assert_eq!(r, Err(ReprError::OffsetOutOfRange));
    let resolver = ArchivedInternedString::serialize_from_str(s, &mut ser).unwrap();
    let r = ArchivedInternedString::resolve_from_str(s, resolver, 0x8000_0000);
    assert!(r.is_ok());
}

#[test]
fn lookup_is_idempotent() {
    let mut ser = adapter();
    let s = "a string longer than one slot";
    assert_eq!(ser.get_interned(s), None);
    assert_eq!(ser.get_interned(s), None);
    let pos = ser.serialize_interned(s).unwrap();
    for _ in 0..3 {
        assert_eq!(ser.get_interned(s), Some(pos));
    }
    assert_eq!(ser.pos(), s.len());
}

#[test]
fn second_record_is_a_duplicate() {
    let mut map = InternSerializeMap::new();
    assert_eq!(map.add_interned("value".to_string(), 3), Ok(()));
    assert_eq!(
        map.add_interned("value".to_string(), 3),
        Err(InternSerializeMapError::DuplicateKeyAdded)
    );
    assert_eq!(
        map.add_interned("value".to_string(), 99),
        Err(InternSerializeMapError::DuplicateKeyAdded)
    );
    assert_eq!(map.get_interned("value"), Some(3));
    assert_eq!(
        InternSerializeMapError::DuplicateKeyAdded.message(),
        "duplicate key added to intern serialize registry"
    );
}

#[test]
fn serialize_interned_writes_once() {
    let mut ser = adapter();
    let a = "first long string value";
    let b = "second long string value";
    assert_eq!(ser.serialize_interned(a), Ok(0));
    assert_eq!(ser.serialize_interned(b), Ok(a.len()));
    assert_eq!(ser.serialize_interned(a), Ok(0));
    let (writer, registry) = ser.into_components();
    assert_eq!(registry.get_interned(b), Some(a.len()));
    let bytes = writer.into_bytes();
    assert_eq!(bytes, [a.as_bytes(), b.as_bytes()].concat());
}

#[test]
fn encoder_error_is_passed_on() {
    let mut ser = InternSerializerAdapter::new(ByteWriter::with_limit(10), InternSerializeMap::new());
    let r = ser.serialize_interned("a string longer than ten bytes");
    assert_eq!(r, Err(InternSerializeError::Encoder(WriteError::OutOfSpace)));
    assert_eq!(ser.get_interned("a string longer than ten bytes"), None);
    let value = vec!["a string longer than ten bytes".to_string()];
    assert_eq!(encode_strings(&value, 20), Err(EncodeError::Write(WriteError::OutOfSpace)));
    assert_eq!(encode_strings(&value, 30 + REPR_SIZE).map(|(b, _)| b.len()), Ok(38));
}

#[test]
fn into_serializer_keeps_written_bytes() {
    let mut ser = adapter();
    ser.write(b"abc").unwrap();
    assert_eq!(ser.into_serializer().into_bytes(), b"abc".to_vec());
}

#[test]
fn validator_checks_shared_region_once() {
    let s = "shared by every slot in the buffer".to_string();
    for n in [1usize, 2, 5, 50] {
        let value = vec![s.clone(); n];
        let (buf, base) = encode_strings(&value, usize::MAX).unwrap();
        assert_eq!(validate_strings(&buf, base, n), Ok(1));
    }
    let value = vec!["short".to_string(), "tiny".to_string()];
    let (buf, base) = encode_strings(&value, usize::MAX).unwrap();
    assert_eq!(validate_strings(&buf, base, 2), Ok(0));
}

#[test]
fn validator_rejects_invalid_utf8() {
    let s = "shared by every slot in the buffer".to_string();
    let value = vec!["ok".to_string(), s.clone(), s.clone()];
    let (mut buf, base) = encode_strings(&value, usize::MAX).unwrap();
    buf[5] = 0xff;
    assert_eq!(
        validate_strings(&buf, base, 3),
        Err(ValidationError::InvalidUtf8 { slot: 1 })
    );
    assert_eq!(decode_strings(&buf, base, 3), None);
    assert_eq!(ArchivedInternedString { pos: base + REPR_SIZE }.as_str(&buf), None);
}

#[test]
fn validator_rejects_out_of_bounds() {
    let value = vec!["a string longer than one slot".to_string()];
    let (buf, base) = encode_strings(&value, usize::MAX).unwrap();
    assert_eq!(
        validate_strings(&buf, base, 2),
        Err(ValidationError::OutOfBounds { slot: 1 })
    );
    let mut bad = buf.clone();
    bad[base + 4] = 0x10;
    bad[base + 5] = 0x00;
    assert_eq!(
        validate_strings(&bad, base, 1),
        Err(ValidationError::OutOfBounds { slot: 0 })
    );
    assert_eq!(ValidationError::OutOfBounds { slot: 1 }.slot(), 1);
}

#[test]
fn validator_rejects_conflicting_lengths() {
    let s = "a string longer than one slot".to_string();
    let value = vec![s.clone(), s.clone()];
    let (mut buf, base) = encode_strings(&value, usize::MAX).unwrap();
    // Shorten the second slot's length by one, keeping its target.
    let len_byte = base + REPR_SIZE;
    buf[len_byte] -= 1;
    assert_eq!(
        validate_strings(&buf, base, 2),
        Err(ValidationError::Conflict { slot: 1 })
    );
}

#[test]
fn optional_strings_keep_presence() {
    let mut ser = adapter();
    let none = serialize_option_from_str(None, &mut ser).unwrap();
    assert!(none.is_none());
    assert_eq!(ser.pos(), 0);
    assert_eq!(resolve_option_from_str(None, none, 40), Ok(None));

    let long = "a string longer than one slot";
    let res = serialize_option_from_str(Some(long), &mut ser).unwrap();
    assert!(res.is_some());
    assert_eq!(ser.pos(), long.len());
    assert_eq!(ser.get_interned(long), Some(0));
    let slot = resolve_option_from_str(Some(long), res, 40).unwrap().unwrap();
    let mut buf = ser.into_serializer().into_bytes();
    buf.resize(40, 0);
    buf.extend_from_slice(&slot);
    assert_eq!(ArchivedInternedString { pos: 40 }.as_str(&buf), Some(long));

    let mut ser = adapter();
    let res = serialize_option_from_str(Some("abc"), &mut ser).unwrap();
    assert_eq!(ser.pos(), 0);
    let slot = resolve_option_from_str(Some("abc"), res, 0).unwrap().unwrap();
    assert_eq!(slot, vec![b'a', b'b', b'c', 0xff, 0xff, 0xff, 0xff, 0xff]);
}

#[test]
fn archived_string_compares_by_content() {
    let value = vec!["a string longer than one slot".to_string(), "short".to_string()];
    let (buf, base) = encode_strings(&value, usize::MAX).unwrap();
    let long = ArchivedInternedString { pos: base };
    let short = ArchivedInternedString { pos: base + REPR_SIZE };
    assert!(long.eq_str(&buf, "a string longer than one slot"));
    assert!(!long.eq_str(&buf, "a string longer than one slot!"));
    assert!(!long.eq_str(&buf, "a string longer than one slou"));
    assert!(short.eq_str(&buf, "short"));
    assert!(!short.eq_str(&buf, "shorT"));
    assert!(!ArchivedInternedString { pos: buf.len() }.eq_str(&buf, ""));
}
