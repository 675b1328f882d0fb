//! Reading a whole NBT document.
use vstd::prelude::*;

use crate::io::VecReader;
use crate::nbt::decode::{
    decode_string, decode_tag, nbt_eof, nbt_result_view, string_decode, tag_decode,
    BasicResourceTracker, NbtDecodeErr,
};
use crate::nbt::tag::{Tag, TagType, TagView};
use crate::protocol::decode::reader_step;

verus! {

/// The memory a whole document may account for.
pub const DOCUMENT_MEMORY_LIMIT: usize = 1 << 30;

/// The nesting a whole document may have.
pub const DOCUMENT_DEPTH_LIMIT: usize = 32;

/// Reading a document: the type byte of its root, the root's name, which is
/// read and dropped, then the root's payload, all accounted for against fresh
/// limits.
pub open spec fn read_tag_decode(input: Seq<u8>) -> (Result<TagView, NbtDecodeErr>, nat) {
    let ma = DOCUMENT_MEMORY_LIMIT as nat;
    let md = DOCUMENT_DEPTH_LIMIT as nat;
    if input.len() < 1 {
        (Err(nbt_eof()), 0)
    } else {
        let id = input[0] as i8;
        match TagType::spec_from_id(id) {
            None => (Err(NbtDecodeErr::InvalidTagType(id)), 1),
            Some(t) => {
                let name = string_decode(input.skip(1), 0, 0, ma);
                match name.0 {
                    Err(e) => (Err(e), 1 + name.1),
                    Ok(_) => {
                        let p = tag_decode(t, input.skip(1 + name.1 as int), name.2, 0, ma, md);
                        (p.0, 1 + name.1 + p.1)
                    },
                }
            },
        }
    }
}

/// Reads a named root tag and returns its payload.
pub fn read_tag(reader: &mut VecReader) -> (r: Result<Tag, NbtDecodeErr>)
    requires
        old(reader).wf(),
    ensures
        reader_step(*old(reader), *final(reader)),
        ({
            let out = read_tag_decode(old(reader).rest());
            &&& nbt_result_view(r) == out.0
            &&& out.1 <= old(reader).rest().len()
            &&& final(reader).rest() == old(reader).rest().skip(out.1 as int)
        }),
{
    let ghost input = reader.rest();
    let mut tracker = BasicResourceTracker::new(DOCUMENT_MEMORY_LIMIT, DOCUMENT_DEPTH_LIMIT);
    assert(input =~= input.skip(0));
    let id = match reader.read_u8() {
        Ok(b) => b as i8,
        Err(k) => return Err(NbtDecodeErr::IoErr(k)),
    };
    let tag_type = match TagType::try_from(id) {
        Ok(t) => t,
        Err(_) => return Err(NbtDecodeErr::InvalidTagType(id)),
    };
    let ghost after_id = reader.rest();
    let name = decode_string(reader, &mut tracker);
    let ghost n1 = string_decode(after_id, 0, 0, DOCUMENT_MEMORY_LIMIT as nat).1;
    proof {
        assert(after_id == input.skip(1));
        assert(input.skip(1).skip(n1 as int) =~= input.skip(1 + n1 as int));
    }
    match name {
        Ok(_) => {},
        Err(e) => return Err(e),
    }
    let ghost after_name = reader.rest();
    let r = decode_tag(tag_type, reader, &mut tracker);
    proof {
        let n2 = tag_decode(
            tag_type,
            after_name,
            string_decode(after_id, 0, 0, DOCUMENT_MEMORY_LIMIT as nat).2,
            0,
            DOCUMENT_MEMORY_LIMIT as nat,
            DOCUMENT_DEPTH_LIMIT as nat,
        ).1;
        assert(input.skip(1 + n1 as int).skip(n2 as int) =~= input.skip((1 + n1 + n2) as int));
    }
    r
}

} // verus!
