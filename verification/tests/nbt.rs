use serverx::io::{IoErrorKind, VecReader};
use serverx::nbt::decode::{decode_tag, BasicResourceTracker, NbtDecode, NbtDecodeErr, ResourceTracker};
use serverx::nbt::io::read_tag;
use serverx::nbt::tag::{NamedTag, Tag, TagType};

fn decode(ty: TagType, bytes: &[u8], max_alloc: usize, max_depth: usize) -> (Result<Tag, NbtDecodeErr>, u64, usize) {
    let v = bytes.to_vec();
    let mut r = VecReader::new(&v, 0, v.len());
    let mut t = BasicResourceTracker::new(max_alloc, max_depth);
    let out = decode_tag(ty, &mut r, &mut t);
    (out, r.position(), t.allocated)
}

fn name(s: &str) -> Vec<u8> {
    let mut v = (s.len() as u16).to_be_bytes().to_vec();
    v.extend_from_slice(s.as_bytes());
    v
}

#[test]
fn tag_type_ids_roundtrip() {
    for id in 0i8..13 {
        let t = TagType::try_from(id).ok().unwrap();
        assert_eq!(t.into(), id);
    }
    assert!(TagType::try_from(13).is_err());
    assert!(TagType::try_from(-1).is_err());
    assert_eq!(TagType::of(&Tag::Int(3)), TagType::Int);
    assert_eq!(TagType::of(&Tag::List(vec![])), TagType::List);
}

#[test]
fn numbers_decode_big_endian() {
    let (r, pos, _) = decode(TagType::Short, &[0x01, 0x02, 0xff], 100, 4);
    assert!(matches!(r, Ok(Tag::Short(0x0102))));
    assert_eq!(pos, 2);
    let (r, _, _) = decode(TagType::Int, &[0xff, 0xff, 0xff, 0xfe], 100, 4);
    assert!(matches!(r, Ok(Tag::Int(-2))));
    let (r, _, _) = decode(TagType::Double, &1.5f64.to_bits().to_be_bytes(), 100, 4);
    match r {
        Ok(Tag::Double(bits)) => assert_eq!(f64::from_bits(bits), 1.5),
        _ => panic!("expected a double"),
    }
    let (r, pos, _) = decode(TagType::Long, &[1, 2, 3], 100, 4);
    assert!(matches!(r, Err(NbtDecodeErr::IoErr(IoErrorKind::UnexpectedEof))));
    assert_eq!(pos, 0);
    let (r, pos, _) = decode(TagType::End, &[1, 2, 3], 100, 4);
    assert!(matches!(r, Ok(Tag::End)));
    assert_eq!(pos, 0);
}

#[test]
fn strings_are_accounted_and_checked() {
    let (r, pos, alloc) = decode(TagType::String, &name("abc"), 100, 4);
    match r {
        Ok(Tag::String(s)) => assert_eq!(s, "abc"),
        _ => panic!("expected a string"),
    }
    assert_eq!((pos, alloc), (5, 3));
    let (r, pos, alloc) = decode(TagType::String, &name("abc"), 2, 4);
    assert!(matches!(r, Err(NbtDecodeErr::MemoryLimitExceeded(2))));
    assert_eq!((pos, alloc), (2, 0));
    let (r, _, _) = decode(TagType::String, &[0, 2, 0xff, 0xfe], 100, 4);
    assert!(matches!(r, Err(NbtDecodeErr::MalformedString)));
    let (r, pos, alloc) = decode(TagType::String, &[0, 5, b'a'], 100, 4);
    assert!(matches!(r, Err(NbtDecodeErr::IoErr(IoErrorKind::UnexpectedEof))));
    assert_eq!((pos, alloc), (2, 5));
}

#[test]
fn byte_arrays_read_no_bytes() {
    let (r, pos, alloc) = decode(TagType::ByteArray, &[0, 0, 0, 3, 7, 8, 9], 100, 4);
    match r {
        Ok(Tag::ByteArray(v)) => assert!(v.is_empty()),
        _ => panic!("expected a byte array"),
    }
    assert_eq!((pos, alloc), (4, 3));
    let (r, _, alloc) = decode(TagType::ByteArray, &[0xff, 0xff, 0xff, 0xff], 100, 4);
    assert!(matches!(r, Ok(Tag::ByteArray(_))));
    assert_eq!(alloc, 0);
}

#[test]
fn int_and_long_arrays() {
    let (r, pos, alloc) = decode(TagType::IntArray, &[0, 0, 0, 2, 0, 0, 0, 1, 0xff, 0xff, 0xff, 0xff], 100, 4);
    match r {
        Ok(Tag::IntArray(v)) => assert_eq!(v, vec![1, -1]),
        _ => panic!("expected an int array"),
    }
    assert_eq!((pos, alloc), (12, 8));
    let (r, pos, alloc) = decode(TagType::LongArray, &[0, 0, 0, 2, 0, 0, 0, 0, 0, 0, 0, 5, 1], 100, 4);
    assert!(matches!(r, Err(NbtDecodeErr::IoErr(IoErrorKind::UnexpectedEof))));
    assert_eq!((pos, alloc), (12, 16));
    let (r, _, _) = decode(TagType::IntArray, &[0, 0, 0, 30], 100, 4);
    assert!(matches!(r, Err(NbtDecodeErr::MemoryLimitExceeded(100))));
}

#[test]
fn lists_nest_under_the_depth_limit() {
    let tag_size = std::mem::size_of::<Tag>();
    let bytes = [3u8, 0, 0, 0, 2, 0, 0, 0, 7, 0, 0, 0, 8];
    let (r, pos, alloc) = decode(TagType::List, &bytes, 1000, 4);
    match r {
        Ok(Tag::List(items)) => {
            assert_eq!(items.len(), 2);
            assert!(matches!(items[0], Tag::Int(7)));
            assert!(matches!(items[1], Tag::Int(8)));
        },
        _ => panic!("expected a list"),
    }
    assert_eq!((pos, alloc), (13, 2 * tag_size));
    let (r, _, _) = decode(TagType::List, &bytes, 1000, 0);
    assert!(matches!(r, Err(NbtDecodeErr::RecursionLimitExceeded(0))));
    let (r, pos, _) = decode(TagType::List, &[42, 0, 0, 0, 0], 1000, 4);
    assert!(matches!(r, Err(NbtDecodeErr::InvalidTagType(42))));
    assert_eq!(pos, 1);
    let (r, _, _) = decode(TagType::List, &[0, 0xff, 0xff, 0xff, 0xff], 1000, 4);
    match r {
        Ok(Tag::List(items)) => assert!(items.is_empty()),
        _ => panic!("expected an empty list"),
    }
}

#[test]
fn compounds_read_named_entries_to_the_end_byte() {
    let mut bytes = vec![1u8];
    bytes.extend(name("a"));
    bytes.push(5);
    bytes.push(8);
    bytes.extend(name("s"));
    bytes.extend(name("hi"));
    bytes.push(0);
    bytes.push(99);
    let (r, pos, _) = decode(TagType::Compound, &bytes, 1000, 4);
    match r {
        Ok(Tag::Compound(entries)) => {
            assert_eq!(entries.len(), 2);
            assert_eq!(entries[0].name, "a");
            assert!(matches!(entries[0].payload, Tag::Byte(5)));
            assert_eq!(entries[1].name, "s");
            assert!(matches!(&entries[1].payload, Tag::String(s) if s == "hi"));
        },
        _ => panic!("expected a compound"),
    }
    assert_eq!(pos as usize, bytes.len() - 1);
    let (r, _, _) = decode(TagType::Compound, &[1], 1000, 4);
    assert!(matches!(r, Err(NbtDecodeErr::IoErr(IoErrorKind::UnexpectedEof))));
    let nested = [10u8, 0, 0, 0, 0];
    let (r, _, _) = decode(TagType::Compound, &nested, 1000, 1);
    assert!(matches!(r, Err(NbtDecodeErr::RecursionLimitExceeded(1))));
    let (r, _, _) = decode(TagType::Compound, &nested, 1000, 2);
    assert!(matches!(r, Ok(Tag::Compound(_))));
}

#[test]
fn trait_decoders() {
    let v = vec![0x80u8, 0, 1, b'x'];
    let mut r = VecReader::new(&v, 0, v.len());
    let mut t = BasicResourceTracker::new(10, 2);
    assert_eq!(<i8 as NbtDecode>::decode(TagType::Byte, &mut r, &mut t).ok(), Some(-128));
    let named = <NamedTag as NbtDecode>::decode(TagType::End, &mut r, &mut t).ok().unwrap();
    assert_eq!(named.name, "x");
    assert!(matches!(named.payload, Tag::End));
    assert_eq!(t.depth(), 0);
}

#[test]
fn tracker_limits() {
    let mut t = BasicResourceTracker::new(10, 1);
    assert!(t.allocate(10).is_ok());
    assert!(matches!(t.allocate(1), Err(NbtDecodeErr::MemoryLimitExceeded(10))));
    t.dealloc(4);
    assert_eq!(t.allocated(), 6);
    assert!(t.wind().is_ok());
    assert!(matches!(t.wind(), Err(NbtDecodeErr::RecursionLimitExceeded(1))));
    t.unwind();
    assert_eq!(t.depth(), 0);
}

#[test]
fn read_tag_drops_the_root_name() {
    let mut bytes = vec![8u8];
    bytes.extend(name("root"));
    bytes.extend(name("value"));
    let mut r = VecReader::new(&bytes, 0, bytes.len());
    match read_tag(&mut r) {
        Ok(Tag::String(s)) => assert_eq!(s, "value"),
        _ => panic!("expected a string"),
    }
    let bad = vec![77u8];
    let mut r = VecReader::new(&bad, 0, 1);
    assert!(matches!(read_tag(&mut r), Err(NbtDecodeErr::InvalidTagType(77))));
}

#[test]
fn tags_from_values() {
    assert!(matches!(Tag::from(5i8), Tag::Byte(5)));
    assert!(matches!(Tag::from(-3i16), Tag::Short(-3)));
    assert!(matches!(Tag::from(70000i32), Tag::Int(70000)));
    assert!(matches!(Tag::from(1i64 << 40), Tag::Long(v) if v == 1i64 << 40));
    assert!(matches!(Tag::from(vec![1u8, 2]), Tag::ByteArray(ref v) if v == &vec![1u8, 2]));
    assert!(matches!(Tag::from("hi".to_string()), Tag::String(ref s) if s == "hi"));
    assert!(matches!(Tag::from(vec![7i32]), Tag::IntArray(ref v) if v == &vec![7]));
    assert!(matches!(Tag::from(vec![8i64]), Tag::LongArray(ref v) if v == &vec![8]));
    assert!(matches!(Tag::from(()), Tag::End));
    assert!(matches!(Tag::from(vec![Tag::End]), Tag::List(ref v) if v.len() == 1));
    let named = NamedTag::from(("name".to_string(), Tag::from(1i8)));
    assert_eq!(named.name, "name");
    assert!(matches!(named.payload, Tag::Byte(1)));
    assert!(matches!(Tag::from(vec![named]), Tag::Compound(ref v) if v.len() == 1));
}
