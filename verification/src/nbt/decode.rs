//! Decoding NBT payloads under memory and recursion limits.
use vstd::prelude::*;

use vstd::utf8::{decode_utf8, valid_utf8};

use crate::bytes::be_value;
use crate::io::{IoErrorKind, VecReader};
use crate::nbt::tag::{tag_view, view_type, NamedTag, Tag, TagType, TagView};
use crate::protocol::decode::reader_step;
use crate::protocol::types::read_be;
use crate::text::string_from_utf8;

verus! {

/// Why an NBT payload could not be decoded.
#[derive(Debug, PartialEq, Eq, Structural)]
pub enum NbtDecodeErr {
    IoErr(IoErrorKind),
    InvalidSeqLen(usize),
    UnexpectedTagType(TagType),
    InvalidTagType(i8),
    MemoryLimitExceeded(usize),
    RecursionLimitExceeded(usize),
    MalformedString,
}

/// What an allocation of `count` bytes does to a counter at `allocated` that
/// may not pass `max`.
pub open spec fn nbt_alloc(allocated: nat, max: nat, count: nat) -> Result<nat, NbtDecodeErr> {
    if allocated + count <= max {
        Ok(allocated + count)
    } else {
        Err(NbtDecodeErr::MemoryLimitExceeded(max as usize))
    }
}

/// Accounts for the memory and the nesting depth of what a decoder builds.
pub trait ResourceTracker {
    spec fn spec_allocated(&self) -> usize;

    spec fn spec_max_allocated(&self) -> usize;

    spec fn spec_depth(&self) -> usize;

    spec fn spec_max_depth(&self) -> usize;

    /// Accounts for `count` more bytes, or refuses when that passes the limit.
    fn allocate(&mut self, count: usize) -> (r: Result<(), NbtDecodeErr>)
        ensures
            final(self).spec_max_allocated() == old(self).spec_max_allocated(),
            final(self).spec_depth() == old(self).spec_depth(),
            final(self).spec_max_depth() == old(self).spec_max_depth(),
            match nbt_alloc(
                old(self).spec_allocated() as nat,
                old(self).spec_max_allocated() as nat,
                count as nat,
            ) {
                Ok(a) => r is Ok && final(self).spec_allocated() == a,
                Err(e) => r == Err::<(), NbtDecodeErr>(e) && final(self).spec_allocated()
                    == old(self).spec_allocated(),
            },
    ;

    /// Gives back `count` bytes.
    fn dealloc(&mut self, count: usize)
        requires
            count <= old(self).spec_allocated(),
        ensures
            final(self).spec_allocated() == old(self).spec_allocated() - count,
            final(self).spec_max_allocated() == old(self).spec_max_allocated(),
            final(self).spec_depth() == old(self).spec_depth(),
            final(self).spec_max_depth() == old(self).spec_max_depth(),
    ;

    fn allocated(&self) -> (r: usize)
        ensures
            r == self.spec_allocated(),
    ;

    /// Enters one more level of nesting, or refuses at the deepest level.
    fn wind(&mut self) -> (r: Result<(), NbtDecodeErr>)
        ensures
            final(self).spec_allocated() == old(self).spec_allocated(),
            final(self).spec_max_allocated() == old(self).spec_max_allocated(),
            final(self).spec_max_depth() == old(self).spec_max_depth(),
            old(self).spec_depth() >= old(self).spec_max_depth() ==> r == Err::<(), NbtDecodeErr>(
                NbtDecodeErr::RecursionLimitExceeded(old(self).spec_max_depth()),
            ) && final(self).spec_depth() == old(self).spec_depth(),
            old(self).spec_depth() < old(self).spec_max_depth() ==> r is Ok
                && final(self).spec_depth() == old(self).spec_depth() + 1,
    ;

    /// Leaves one level of nesting.
    fn unwind(&mut self)
        requires
            old(self).spec_depth() > 0,
        ensures
            final(self).spec_allocated() == old(self).spec_allocated(),
            final(self).spec_max_allocated() == old(self).spec_max_allocated(),
            final(self).spec_max_depth() == old(self).spec_max_depth(),
            final(self).spec_depth() == old(self).spec_depth() - 1,
    ;

    fn depth(&self) -> (r: usize)
        ensures
            r == self.spec_depth(),
    ;
}

/// A resource tracker with fixed limits.
pub struct BasicResourceTracker {
    pub allocated: usize,
    pub max_allocated: usize,
    pub depth: usize,
    pub max_depth: usize,
}

impl BasicResourceTracker {
    /// A tracker with nothing allocated, at the top level.
    pub fn new(max_allocated: usize, max_depth: usize) -> (r: Self)
        ensures
            r.allocated == 0,
            r.max_allocated == max_allocated,
            r.depth == 0,
            r.max_depth == max_depth,
    {
        BasicResourceTracker { allocated: 0, max_allocated, depth: 0, max_depth }
    }
}

impl ResourceTracker for BasicResourceTracker {
    open spec fn spec_allocated(&self) -> usize {
        self.allocated
    }

    open spec fn spec_max_allocated(&self) -> usize {
        self.max_allocated
    }

    open spec fn spec_depth(&self) -> usize {
        self.depth
    }

    open spec fn spec_max_depth(&self) -> usize {
        self.max_depth
    }

    fn allocate(&mut self, count: usize) -> (r: Result<(), NbtDecodeErr>) {
        if count > self.max_allocated || self.allocated > self.max_allocated - count {
            Err(NbtDecodeErr::MemoryLimitExceeded(self.max_allocated))
        } else {
            self.allocated = self.allocated + count;
            Ok(())
        }
    }

    fn dealloc(&mut self, count: usize) {
        self.allocated = self.allocated - count;
    }

    fn allocated(&self) -> (r: usize) {
        self.allocated
    }

    fn wind(&mut self) -> (r: Result<(), NbtDecodeErr>) {
        if self.depth >= self.max_depth {
            Err(NbtDecodeErr::RecursionLimitExceeded(self.max_depth))
        } else {
            self.depth = self.depth + 1;
            Ok(())
        }
    }

    fn unwind(&mut self) {
        self.depth = self.depth - 1;
    }

    fn depth(&self) -> (r: usize) {
        self.depth
    }
}

/// What a decoder yields: the result, the number of bytes it consumed, and the
/// allocation counter and nesting depth it leaves behind.
pub type NbtOutcome<V> = (Result<V, NbtDecodeErr>, nat, nat, nat);

/// The error of a read past the end of the input.
pub open spec fn nbt_eof() -> NbtDecodeErr {
    NbtDecodeErr::IoErr(IoErrorKind::UnexpectedEof)
}

/// The big-endian number in `n` bytes of `input` from `start` on.
pub open spec fn be_at(input: Seq<u8>, start: int, n: nat) -> nat {
    be_value(input.subrange(start, start + n))
}

/// The length an array header announces: a negative one counts as empty.
pub open spec fn array_len(v: i32) -> nat {
    if v < 0 {
        0
    } else {
        v as nat
    }
}

/// The bytes one decoded tag is accounted for in a list.
pub open spec fn tag_size() -> nat {
    vstd::layout::size_of::<Tag>()
}

/// The bytes one entry is accounted for in a compound.
pub open spec fn named_tag_size() -> nat {
    vstd::layout::size_of::<NamedTag>()
}

/// Decoding a number of `n` big-endian bytes.
pub open spec fn number_decode(input: Seq<u8>, n: nat, a: nat, d: nat) -> NbtOutcome<nat> {
    if input.len() < n {
        (Err(nbt_eof()), 0, a, d)
    } else {
        (Ok(be_at(input, 0, n)), n, a, d)
    }
}

/// Decoding a string: a big-endian `u16` length, then that many bytes of
/// UTF-8, accounted for before they are read.
pub open spec fn string_decode(input: Seq<u8>, a: nat, d: nat, ma: nat) -> NbtOutcome<Seq<char>> {
    if input.len() < 2 {
        (Err(nbt_eof()), 0, a, d)
    } else {
        let len = be_at(input, 0, 2);
        match nbt_alloc(a, ma, len) {
            Err(e) => (Err(e), 2, a, d),
            Ok(a2) => if input.len() < 2 + len {
                (Err(nbt_eof()), 2, a2, d)
            } else {
                let bytes = input.subrange(2, 2 + len as int);
                (
                    if valid_utf8(bytes) {
                        Ok(decode_utf8(bytes))
                    } else {
                        Err(NbtDecodeErr::MalformedString)
                    },
                    2 + len,
                    a2,
                    d,
                )
            },
        }
    }
}

/// Decoding `n` numbers of `w` bytes each, after `start` bytes of `input`:
/// a short input fails at the first number that does not fit.
pub open spec fn numbers_decode(input: Seq<u8>, start: nat, n: nat, w: nat) -> (Result<Seq<nat>, NbtDecodeErr>, nat) {
    if start + n * w <= input.len() {
        (Ok(Seq::new(n, |i: int| be_at(input, start + i * w, w))), n * w)
    } else {
        (Err(nbt_eof()), ((input.len() - start) as nat / w) * w)
    }
}

/// Decoding an array of numbers of `w` bytes each: a big-endian `i32` length,
/// the memory of the whole array accounted for, then the numbers.
pub open spec fn number_array_decode(input: Seq<u8>, w: nat, a: nat, d: nat, ma: nat) -> NbtOutcome<Seq<nat>> {
    if input.len() < 4 {
        (Err(nbt_eof()), 0, a, d)
    } else {
        let len = array_len(be_at(input, 0, 4) as i32);
        match nbt_alloc(a, ma, len * w) {
            Err(e) => (Err(e), 4, a, d),
            Ok(a2) => {
                let o = numbers_decode(input, 4, len, w);
                (o.0, 4 + o.1, a2, d)
            },
        }
    }
}

/// Decoding a payload of the given type, with `a` bytes accounted for of at
/// most `ma`, at nesting depth `d` of at most `md`. A byte array's header is
/// read and its length accounted for, but none of its bytes are read: it
/// decodes as empty. A list or a compound enters one level of nesting before
/// it reads its items and leaves it after the last one.
pub open spec fn tag_decode(ty: TagType, input: Seq<u8>, a: nat, d: nat, ma: nat, md: nat) -> NbtOutcome<TagView>
    decreases md - d, 0nat, 0nat,
{
    match ty {
        TagType::End => (Ok(TagView::End), 0, a, d),
        TagType::Byte => {
            let o = number_decode(input, 1, a, d);
            (match o.0 { Ok(x) => Ok(TagView::Byte(x as i8)), Err(e) => Err(e) }, o.1, o.2, o.3)
        },
        TagType::Short => {
            let o = number_decode(input, 2, a, d);
            (match o.0 { Ok(x) => Ok(TagView::Short(x as i16)), Err(e) => Err(e) }, o.1, o.2, o.3)
        },
        TagType::Int => {
            let o = number_decode(input, 4, a, d);
            (match o.0 { Ok(x) => Ok(TagView::Int(x as i32)), Err(e) => Err(e) }, o.1, o.2, o.3)
        },
        TagType::Long => {
            let o = number_decode(input, 8, a, d);
            (match o.0 { Ok(x) => Ok(TagView::Long(x as i64)), Err(e) => Err(e) }, o.1, o.2, o.3)
        },
        TagType::Float => {
            let o = number_decode(input, 4, a, d);
            (match o.0 { Ok(x) => Ok(TagView::Float(x as u32)), Err(e) => Err(e) }, o.1, o.2, o.3)
        },
        TagType::Double => {
            let o = number_decode(input, 8, a, d);
            (match o.0 { Ok(x) => Ok(TagView::Double(x as u64)), Err(e) => Err(e) }, o.1, o.2, o.3)
        },
        TagType::ByteArray => if input.len() < 4 {
            (Err(nbt_eof()), 0, a, d)
        } else {
            let len = array_len(be_at(input, 0, 4) as i32);
            match nbt_alloc(a, ma, len) {
                Err(e) => (Err(e), 4, a, d),
                Ok(a2) => (Ok(TagView::ByteArray(Seq::empty())), 4, a2, d),
            }
        },
        TagType::String => {
            let o = string_decode(input, a, d, ma);
            (match o.0 { Ok(s) => Ok(TagView::String(s)), Err(e) => Err(e) }, o.1, o.2, o.3)
        },
        TagType::List => if input.len() < 1 {
            (Err(nbt_eof()), 0, a, d)
        } else {
            let id = input[0] as i8;
            match TagType::spec_from_id(id) {
                None => (Err(NbtDecodeErr::InvalidTagType(id)), 1, a, d),
                Some(et) => if input.len() < 5 {
                    (Err(nbt_eof()), 1, a, d)
                } else {
                    let len = array_len(be_at(input, 1, 4) as i32);
                    match nbt_alloc(a, ma, len * tag_size()) {
                        Err(e) => (Err(e), 5, a, d),
                        Ok(a2) => if d >= md {
                            (Err(NbtDecodeErr::RecursionLimitExceeded(md as usize)), 5, a2, d)
                        } else {
                            let items = list_items_decode(et, len, input.skip(5), a2, d + 1, ma, md);
                            match items.0 {
                                Ok(s) => (Ok(TagView::List(s)), 5 + items.1, items.2, d),
                                Err(e) => (Err(e), 5 + items.1, items.2, items.3),
                            }
                        },
                    }
                },
            }
        },
        TagType::Compound => if d >= md {
            (Err(NbtDecodeErr::RecursionLimitExceeded(md as usize)), 0, a, d)
        } else {
            let entries = compound_entries_decode(input, a, d + 1, ma, md);
            match entries.0 {
                Ok(s) => (Ok(TagView::Compound(s)), entries.1, entries.2, d),
                Err(e) => (Err(e), entries.1, entries.2, entries.3),
            }
        },
        TagType::IntArray => {
            let o = number_array_decode(input, 4, a, d, ma);
            (
                match o.0 {
                    Ok(xs) => Ok(TagView::IntArray(xs.map_values(|x: nat| x as i32))),
                    Err(e) => Err(e),
                },
                o.1,
                o.2,
                o.3,
            )
        },
        TagType::LongArray => {
            let o = number_array_decode(input, 8, a, d, ma);
            (
                match o.0 {
                    Ok(xs) => Ok(TagView::LongArray(xs.map_values(|x: nat| x as i64))),
                    Err(e) => Err(e),
                },
                o.1,
                o.2,
                o.3,
            )
        },
    }
}

/// Decoding `n` payloads of one type, one after the other.
pub open spec fn list_items_decode(ty: TagType, n: nat, input: Seq<u8>, a: nat, d: nat, ma: nat, md: nat) -> NbtOutcome<
    Seq<TagView>,
>
    decreases md - d, 1nat, n,
{
    if n == 0 {
        (Ok(Seq::empty()), 0, a, d)
    } else {
        let first = tag_decode(ty, input, a, d, ma, md);
        match first.0 {
            Err(e) => (Err(e), first.1, first.2, first.3),
            Ok(v) => {
                let rest = list_items_decode(ty, (n - 1) as nat, input.skip(first.1 as int), first.2, d, ma, md);
                (
                    match rest.0 {
                        Ok(s) => Ok(seq![v] + s),
                        Err(e) => Err(e),
                    },
                    first.1 + rest.1,
                    rest.2,
                    rest.3,
                )
            },
        }
    }
}

/// Decoding an entry of a compound after its type byte: its name, then a
/// payload of the type `t`.
pub open spec fn named_tag_decode(t: TagType, input: Seq<u8>, a: nat, d: nat, ma: nat, md: nat) -> NbtOutcome<
    (Seq<char>, TagView),
>
    decreases md - d, 0nat, 1nat,
{
    let name = string_decode(input, a, d, ma);
    match name.0 {
        Err(e) => (Err(e), name.1, name.2, name.3),
        Ok(nm) => {
            let p = tag_decode(t, input.skip(name.1 as int), name.2, d, ma, md);
            (
                match p.0 {
                    Ok(pv) => Ok((nm, pv)),
                    Err(e) => Err(e),
                },
                name.1 + p.1,
                p.2,
                p.3,
            )
        },
    }
}

/// Decoding the entries of a compound up to its end byte: each entry is a
/// type byte, the memory of the entry accounted for, then the entry. The input
/// left after an entry is never longer than what was there before it, so the
/// walk over the entries visibly ends.
pub open spec fn compound_entries_decode(input: Seq<u8>, a: nat, d: nat, ma: nat, md: nat) -> NbtOutcome<
    Seq<(Seq<char>, TagView)>,
>
    decreases md - d, 1nat, input.len(),
{
    if input.len() < 1 {
        (Err(nbt_eof()), 0, a, d)
    } else {
        let id = input[0] as i8;
        match TagType::spec_from_id(id) {
            None => (Err(NbtDecodeErr::InvalidTagType(id)), 1, a, d),
            Some(TagType::End) => (Ok(Seq::empty()), 1, a, d),
            Some(t) => match nbt_alloc(a, ma, named_tag_size()) {
                Err(e) => (Err(e), 1, a, d),
                Ok(a2) => {
                    let entry = named_tag_decode(t, input.skip(1), a2, d, ma, md);
                    match entry.0 {
                        Err(e) => (Err(e), 1 + entry.1, entry.2, entry.3),
                        Ok(ev) => {
                            let c: nat = 1 + if entry.1 < input.len() {
                                entry.1
                            } else {
                                (input.len() - 1) as nat
                            };
                            let more = compound_entries_decode(input.skip(c as int), entry.2, d, ma, md);
                            (
                                match more.0 {
                                    Ok(s) => Ok(seq![ev] + s),
                                    Err(e) => Err(e),
                                },
                                c + more.1,
                                more.2,
                                more.3,
                            )
                        },
                    }
                },
            },
        }
    }
}

/// A decoder consumes at most what is there, and never gives memory back.
pub proof fn lemma_tag_decode_len(ty: TagType, input: Seq<u8>, a: nat, d: nat, ma: nat, md: nat)
    ensures
        tag_decode(ty, input, a, d, ma, md).1 <= input.len(),
        tag_decode(ty, input, a, d, ma, md).2 >= a,
    decreases md - d, 0nat, 0nat,
{
    match ty {
        TagType::List => {
            if input.len() >= 5 {
                let len = array_len(be_at(input, 1, 4) as i32);
                if let Some(et) = TagType::spec_from_id(input[0] as i8) {
                    if let Ok(a2) = nbt_alloc(a, ma, len * tag_size()) {
                        if d < md {
                            lemma_list_items_len(et, len, input.skip(5), a2, d + 1, ma, md);
                        }
                    }
                }
            }
        },
        TagType::Compound => {
            if d < md {
                lemma_compound_entries_len(input, a, d + 1, ma, md);
            }
        },
        TagType::IntArray => {
            lemma_numbers_len(input, 4, a, ma);
        },
        TagType::LongArray => {
            lemma_numbers_len(input, 8, a, ma);
        },
        _ => {},
    }
}

proof fn lemma_numbers_len(input: Seq<u8>, w: nat, a: nat, ma: nat)
    requires
        w > 0,
    ensures
        number_array_decode(input, w, a, 0, ma).1 <= input.len(),
{
    if input.len() >= 4 {
        let x = (input.len() - 4) as nat;
        assert((x / w) * w <= x) by (nonlinear_arith)
            requires
                w > 0,
        ;
    }
}

proof fn lemma_named_tag_len(t: TagType, input: Seq<u8>, a: nat, d: nat, ma: nat, md: nat)
    ensures
        named_tag_decode(t, input, a, d, ma, md).1 <= input.len(),
        named_tag_decode(t, input, a, d, ma, md).2 >= a,
    decreases md - d, 0nat, 1nat,
{
    let name = string_decode(input, a, d, ma);
    if name.0 is Ok {
        lemma_tag_decode_len(t, input.skip(name.1 as int), name.2, d, ma, md);
    }
}

proof fn lemma_list_items_len(ty: TagType, n: nat, input: Seq<u8>, a: nat, d: nat, ma: nat, md: nat)
    ensures
        list_items_decode(ty, n, input, a, d, ma, md).1 <= input.len(),
        list_items_decode(ty, n, input, a, d, ma, md).2 >= a,
    decreases md - d, 1nat, n,
{
    if n > 0 {
        let first = tag_decode(ty, input, a, d, ma, md);
        lemma_tag_decode_len(ty, input, a, d, ma, md);
        if first.0 is Ok {
            lemma_list_items_len(ty, (n - 1) as nat, input.skip(first.1 as int), first.2, d, ma, md);
        }
    }
}

proof fn lemma_compound_entries_len(input: Seq<u8>, a: nat, d: nat, ma: nat, md: nat)
    ensures
        compound_entries_decode(input, a, d, ma, md).1 <= input.len(),
        compound_entries_decode(input, a, d, ma, md).2 >= a,
    decreases md - d, 1nat, input.len(),
{
    if input.len() >= 1 {
        if let Some(t) = TagType::spec_from_id(input[0] as i8) {
            if t != TagType::End {
                if let Ok(a2) = nbt_alloc(a, ma, named_tag_size()) {
                    let entry = named_tag_decode(t, input.skip(1), a2, d, ma, md);
                    lemma_named_tag_len(t, input.skip(1), a2, d, ma, md);
                    if entry.0 is Ok {
                        let c: nat = 1 + entry.1;
                        lemma_compound_entries_len(input.skip(c as int), entry.2, d, ma, md);
                    }
                }
            }
        }
    }
}

/// A payload that decodes has the type it was decoded as, and the decoder
/// leaves the nesting depth where it found it. Whether it succeeds or fails,
/// what it has accounted for stays within the limit it was given.
pub proof fn lemma_tag_decode_ok(ty: TagType, input: Seq<u8>, a: nat, d: nat, ma: nat, md: nat)
    requires
        a <= ma,
        d <= md,
    ensures
        tag_decode(ty, input, a, d, ma, md).0 matches Ok(t) ==> view_type(t) == ty
            && tag_decode(ty, input, a, d, ma, md).3 == d,
        tag_decode(ty, input, a, d, ma, md).2 <= ma,
    decreases md - d, 0nat, 0nat,
{
    match ty {
        TagType::List => {
            if input.len() >= 5 {
                let len = array_len(be_at(input, 1, 4) as i32);
                if let Some(et) = TagType::spec_from_id(input[0] as i8) {
                    if let Ok(a2) = nbt_alloc(a, ma, len * tag_size()) {
                        if d < md {
                            lemma_list_items_ok(et, len, input.skip(5), a2, d + 1, ma, md);
                        }
                    }
                }
            }
        },
        TagType::Compound => {
            if d < md {
                lemma_compound_entries_ok(input, a, d + 1, ma, md);
            }
        },
        _ => {},
    }
}

proof fn lemma_named_tag_ok(t: TagType, input: Seq<u8>, a: nat, d: nat, ma: nat, md: nat)
    requires
        a <= ma,
        d <= md,
    ensures
        named_tag_decode(t, input, a, d, ma, md).0 matches Ok(e) ==> view_type(e.1) == t
            && named_tag_decode(t, input, a, d, ma, md).3 == d,
        named_tag_decode(t, input, a, d, ma, md).2 <= ma,
    decreases md - d, 0nat, 1nat,
{
    let name = string_decode(input, a, d, ma);
    if name.0 is Ok {
        lemma_tag_decode_ok(t, input.skip(name.1 as int), name.2, d, ma, md);
    }
}

proof fn lemma_list_items_ok(ty: TagType, n: nat, input: Seq<u8>, a: nat, d: nat, ma: nat, md: nat)
    requires
        a <= ma,
        d <= md,
    ensures
        list_items_decode(ty, n, input, a, d, ma, md).0 matches Ok(s) ==> s.len() == n
            && (forall|i: int| 0 <= i < s.len() ==> view_type(#[trigger] s[i]) == ty)
            && list_items_decode(ty, n, input, a, d, ma, md).3 == d,
        list_items_decode(ty, n, input, a, d, ma, md).2 <= ma,
    decreases md - d, 1nat, n,
{
    if n > 0 {
        let first = tag_decode(ty, input, a, d, ma, md);
        lemma_tag_decode_ok(ty, input, a, d, ma, md);
        if let Ok(v) = first.0 {
            let rest = list_items_decode(ty, (n - 1) as nat, input.skip(first.1 as int), first.2, d, ma, md);
            lemma_list_items_ok(ty, (n - 1) as nat, input.skip(first.1 as int), first.2, d, ma, md);
            if let Ok(s) = rest.0 {
                assert forall|i: int| 0 <= i < (seq![v] + s).len() implies view_type(#[trigger] (seq![v] + s)[i]) == ty by {
                    if i > 0 {
                        assert((seq![v] + s)[i] == s[i - 1]);
                    }
                }
            }
        }
    }
}

proof fn lemma_compound_entries_ok(input: Seq<u8>, a: nat, d: nat, ma: nat, md: nat)
    requires
        a <= ma,
        d <= md,
    ensures
        compound_entries_decode(input, a, d, ma, md).0 is Ok ==> compound_entries_decode(input, a, d, ma, md).3 == d,
        compound_entries_decode(input, a, d, ma, md).2 <= ma,
    decreases md - d, 1nat, input.len(),
{
    if input.len() >= 1 {
        if let Some(t) = TagType::spec_from_id(input[0] as i8) {
            if t != TagType::End {
                if let Ok(a2) = nbt_alloc(a, ma, named_tag_size()) {
                    let entry = named_tag_decode(t, input.skip(1), a2, d, ma, md);
                    lemma_named_tag_ok(t, input.skip(1), a2, d, ma, md);
                    if entry.0 is Ok {
                        let c: nat = 1 + if entry.1 < input.len() {
                            entry.1
                        } else {
                            (input.len() - 1) as nat
                        };
                        lemma_compound_entries_ok(input.skip(c as int), entry.2, d, ma, md);
                    }
                }
            }
        }
    }
}

/// A call whose result, consumption, allocation and depth are those of `out`.
pub open spec fn nbt_decoded<V>(
    out: NbtOutcome<V>,
    r: Result<V, NbtDecodeErr>,
    before: Seq<u8>,
    after: Seq<u8>,
    a_after: nat,
    d_after: nat,
) -> bool {
    &&& out.0 == r
    &&& out.1 <= before.len()
    &&& after == before.skip(out.1 as int)
    &&& a_after == out.2
    &&& d_after == out.3
}

/// A tracker whose limits stayed as they were.
pub open spec fn same_limits<Re: ResourceTracker>(before: Re, after: Re) -> bool {
    &&& after.spec_max_allocated() == before.spec_max_allocated()
    &&& after.spec_max_depth() == before.spec_max_depth()
}

/// The value of a decoding result.
pub open spec fn nbt_result_view<T: DeepView>(r: Result<T, NbtDecodeErr>) -> Result<T::V, NbtDecodeErr> {
    match r {
        Ok(v) => Ok(v.deep_view()),
        Err(e) => Err(e),
    }
}

/// Reads `n` big-endian bytes as a number.
fn read_number(reader: &mut VecReader, n: usize) -> (r: Result<u128, NbtDecodeErr>)
    requires
        old(reader).wf(),
        n <= 16,
    ensures
        reader_step(*old(reader), *final(reader)),
        n <= old(reader).rest().len() ==> {
            &&& r matches Ok(v) && v == be_at(old(reader).rest(), 0, n as nat)
            &&& final(reader).rest() == old(reader).rest().skip(n as int)
        },
        n > old(reader).rest().len() ==> {
            &&& r == Err::<u128, NbtDecodeErr>(nbt_eof())
            &&& final(reader).rest() == old(reader).rest()
        },
{
    match read_be(reader, n) {
        Ok(v) => Ok(v),
        Err(_) => Err(NbtDecodeErr::IoErr(IoErrorKind::UnexpectedEof)),
    }
}

/// Accounts for `n` items of `unit` bytes each; a product beyond `usize` is
/// beyond every limit.
fn alloc_items<Re: ResourceTracker>(tracker: &mut Re, n: usize, unit: usize) -> (r: Result<(), NbtDecodeErr>)
    ensures
        same_limits(*old(tracker), *final(tracker)),
        final(tracker).spec_depth() == old(tracker).spec_depth(),
        match nbt_alloc(
            old(tracker).spec_allocated() as nat,
            old(tracker).spec_max_allocated() as nat,
            n as nat * unit as nat,
        ) {
            Ok(a) => r is Ok && final(tracker).spec_allocated() == a,
            Err(e) => r == Err::<(), NbtDecodeErr>(e) && final(tracker).spec_allocated()
                == old(tracker).spec_allocated(),
        },
{
    match n.checked_mul(unit) {
        Some(count) => tracker.allocate(count),
        None => match tracker.allocate(usize::MAX) {
            Err(e) => Err(e),
            Ok(()) => {
                tracker.dealloc(usize::MAX);
                Err(NbtDecodeErr::MemoryLimitExceeded(usize::MAX))
            },
        },
    }
}

/// Reads a string: a big-endian `u16` length, then that many bytes of UTF-8.
pub fn decode_string<Re: ResourceTracker>(reader: &mut VecReader, tracker: &mut Re) -> (r: Result<
    String,
    NbtDecodeErr,
>)
    requires
        old(reader).wf(),
    ensures
        reader_step(*old(reader), *final(reader)),
        same_limits(*old(tracker), *final(tracker)),
        nbt_decoded(
            string_decode(
                old(reader).rest(),
                old(tracker).spec_allocated() as nat,
                old(tracker).spec_depth() as nat,
                old(tracker).spec_max_allocated() as nat,
            ),
            match r {
                Ok(s) => Ok(s@),
                Err(e) => Err(e),
            },
            old(reader).rest(),
            final(reader).rest(),
            final(tracker).spec_allocated() as nat,
            final(tracker).spec_depth() as nat,
        ),
{
    let ghost input = reader.rest();
    assert(input =~= input.skip(0));
    let v = match read_number(reader, 2) {
        Ok(v) => v,
        Err(e) => return Err(e),
    };
    proof {
        crate::bytes::lemma_be_value_bound(input.subrange(0, 2));
        assert(crate::bytes::pow256(2) == 65536) by {
            reveal_with_fuel(crate::bytes::pow256, 3);
        }
    }
    let len = v as usize;
    match tracker.allocate(len) {
        Ok(()) => {},
        Err(e) => return Err(e),
    }
    let ghost mid = reader.rest();
    let bytes = match reader.read_exact(len) {
        Ok(b) => b,
        Err(k) => return Err(NbtDecodeErr::IoErr(k)),
    };
    proof {
        assert(bytes@ =~= input.subrange(2, 2 + len as int));
        assert(input.skip(2).skip(len as int) =~= input.skip(2 + len as int));
    }
    match string_from_utf8(bytes) {
        Some(s) => Ok(s),
        None => Err(NbtDecodeErr::MalformedString),
    }
}

/// The conditions of every payload decoder: what it reports, the input it
/// leaves, and the tracker it leaves.
pub open spec fn tag_decoded<Re: ResourceTracker>(
    ty: TagType,
    r: Result<Tag, NbtDecodeErr>,
    reader_before: VecReader,
    reader_after: VecReader,
    before: Re,
    after: Re,
) -> bool {
    &&& reader_step(reader_before, reader_after)
    &&& same_limits(before, after)
    &&& nbt_decoded(
        tag_decode(
            ty,
            reader_before.rest(),
            before.spec_allocated() as nat,
            before.spec_depth() as nat,
            before.spec_max_allocated() as nat,
            before.spec_max_depth() as nat,
        ),
        nbt_result_view(r),
        reader_before.rest(),
        reader_after.rest(),
        after.spec_allocated() as nat,
        after.spec_depth() as nat,
    )
}

/// Reads an array of big-endian `i32`s: its length, then the numbers.
fn decode_int_array<Re: ResourceTracker>(reader: &mut VecReader, tracker: &mut Re) -> (r: Result<Tag, NbtDecodeErr>)
    requires
        old(reader).wf(),
    ensures
        tag_decoded(TagType::IntArray, r, *old(reader), *final(reader), *old(tracker), *final(tracker)),
{
    let ghost input = reader.rest();
    assert(input =~= input.skip(0));
    let raw = match read_number(reader, 4) {
        Ok(v) => v,
        Err(e) => return Err(e),
    };
    let signed = raw as i32;
    let n: usize = if signed < 0 {
        0
    } else {
        signed as usize
    };
    match alloc_items(tracker, n, 4) {
        Ok(()) => {},
        Err(e) => return Err(e),
    }
    let mut values: Vec<i32> = Vec::new();
    let mut i: usize = 0;
    while i < n
        invariant
            reader_step(*old(reader), *reader),
            same_limits(*old(tracker), *tracker),
            tracker.spec_depth() == old(tracker).spec_depth(),
            input == old(reader).rest(),
            n == array_len(be_at(input, 0, 4) as i32),
            nbt_alloc(
                old(tracker).spec_allocated() as nat,
                old(tracker).spec_max_allocated() as nat,
                n as nat * 4,
            ) == Ok::<nat, NbtDecodeErr>(tracker.spec_allocated() as nat),
            i <= n,
            values.len() == i,
            4 + i * 4 <= input.len(),
            reader.rest() == input.skip(4 + i * 4),
            forall|k: int| 0 <= k < i ==> values@[k] == be_at(input, 4 + k * 4, 4) as i32,
        decreases n - i,
    {
        let ghost rest = reader.rest();
        let v = match read_number(reader, 4) {
            Ok(v) => v,
            Err(e) => {
                proof {
                    let x = (input.len() - 4) as nat;
                    assert(x / 4 == i) by (nonlinear_arith)
                        requires
                            x < i * 4 + 4,
                            i * 4 <= x,
                    ;
                    assert(4 + n * 4 > input.len()) by (nonlinear_arith)
                        requires
                            i < n,
                            input.len() < 4 + i * 4 + 4,
                    ;
                }
                return Err(e);
            },
        };
        proof {
            assert(rest.subrange(0, 4) =~= input.subrange(4 + i * 4, 4 + i * 4 + 4));
            assert(rest.skip(4) =~= input.skip(4 + (i + 1) * 4));
        }
        values.push(v as i32);
        i = i + 1;
    }
    proof {
        let ghost o = number_array_decode(input, 4, old(tracker).spec_allocated() as nat, old(tracker).spec_depth() as nat, old(tracker).spec_max_allocated() as nat);
        assert(o.0 matches Ok(xs) && xs.map_values(|x: nat| x as i32) =~= values@);
    }
    Ok(Tag::IntArray(values))
}

/// Reads an array of big-endian `i64`s: its length, then the numbers.
fn decode_long_array<Re: ResourceTracker>(reader: &mut VecReader, tracker: &mut Re) -> (r: Result<Tag, NbtDecodeErr>)
    requires
        old(reader).wf(),
    ensures
        tag_decoded(TagType::LongArray, r, *old(reader), *final(reader), *old(tracker), *final(tracker)),
{
    let ghost input = reader.rest();
    assert(input =~= input.skip(0));
    let raw = match read_number(reader, 4) {
        Ok(v) => v,
        Err(e) => return Err(e),
    };
    let signed = raw as i32;
    let n: usize = if signed < 0 {
        0
    } else {
        signed as usize
    };
    match alloc_items(tracker, n, 8) {
        Ok(()) => {},
        Err(e) => return Err(e),
    }
    let mut values: Vec<i64> = Vec::new();
    let mut i: usize = 0;
    while i < n
        invariant
            reader_step(*old(reader), *reader),
            same_limits(*old(tracker), *tracker),
            tracker.spec_depth() == old(tracker).spec_depth(),
            input == old(reader).rest(),
            n == array_len(be_at(input, 0, 4) as i32),
            nbt_alloc(
                old(tracker).spec_allocated() as nat,
                old(tracker).spec_max_allocated() as nat,
                n as nat * 8,
            ) == Ok::<nat, NbtDecodeErr>(tracker.spec_allocated() as nat),
            i <= n,
            values.len() == i,
            4 + i * 8 <= input.len(),
            reader.rest() == input.skip(4 + i * 8),
            forall|k: int| 0 <= k < i ==> values@[k] == be_at(input, 4 + k * 8, 8) as i64,
        decreases n - i,
    {
        let ghost rest = reader.rest();
        let v = match read_number(reader, 8) {
            Ok(v) => v,
            Err(e) => {
                proof {
                    let x = (input.len() - 4) as nat;
                    assert(x / 8 == i) by (nonlinear_arith)
                        requires
                            x < i * 8 + 8,
                            i * 8 <= x,
                    ;
                    assert(4 + n * 8 > input.len()) by (nonlinear_arith)
                        requires
                            i < n,
                            input.len() < 4 + i * 8 + 8,
                    ;
                }
                return Err(e);
            },
        };
        proof {
            assert(rest.subrange(0, 8) =~= input.subrange(4 + i * 8, 4 + i * 8 + 8));
            assert(rest.skip(8) =~= input.skip(4 + (i + 1) * 8));
        }
        values.push(v as i64);
        i = i + 1;
    }
    proof {
        let ghost o = number_array_decode(input, 8, old(tracker).spec_allocated() as nat, old(tracker).spec_depth() as nat, old(tracker).spec_max_allocated() as nat);
        assert(o.0 matches Ok(xs) && xs.map_values(|x: nat| x as i64) =~= values@);
    }
    Ok(Tag::LongArray(values))
}

/// Reads a byte array's header and accounts for its length; its bytes are
/// not read, and it decodes as empty.
fn decode_byte_array<Re: ResourceTracker>(reader: &mut VecReader, tracker: &mut Re) -> (r: Result<Tag, NbtDecodeErr>)
    requires
        old(reader).wf(),
    ensures
        tag_decoded(TagType::ByteArray, r, *old(reader), *final(reader), *old(tracker), *final(tracker)),
{
    let ghost input = reader.rest();
    assert(input =~= input.skip(0));
    let raw = match read_number(reader, 4) {
        Ok(v) => v,
        Err(e) => return Err(e),
    };
    let signed = raw as i32;
    let n: usize = if signed < 0 {
        0
    } else {
        signed as usize
    };
    match tracker.allocate(n) {
        Ok(()) => {},
        Err(e) => return Err(e),
    }
    let bytes: Vec<u8> = Vec::new();
    assert(bytes@ =~= Seq::<u8>::empty());
    Ok(Tag::ByteArray(bytes))
}

/// Reads a payload of the given type. A byte array's bytes are not read: it
/// decodes as empty, after its length was accounted for.
pub fn decode_tag<Re: ResourceTracker>(ty: TagType, reader: &mut VecReader, tracker: &mut Re) -> (r: Result<
    Tag,
    NbtDecodeErr,
>)
    requires
        old(reader).wf(),
    ensures
        tag_decoded(ty, r, *old(reader), *final(reader), *old(tracker), *final(tracker)),
    decreases old(tracker).spec_max_depth() - old(tracker).spec_depth(), 2nat,
{
    let ghost input = reader.rest();
    assert(input =~= input.skip(0));
    match ty {
        TagType::End => Ok(Tag::End),
        TagType::Byte => match read_number(reader, 1) {
            Ok(v) => Ok(Tag::Byte(v as i8)),
            Err(e) => Err(e),
        },
        TagType::Short => match read_number(reader, 2) {
            Ok(v) => Ok(Tag::Short(v as i16)),
            Err(e) => Err(e),
        },
        TagType::Int => match read_number(reader, 4) {
            Ok(v) => Ok(Tag::Int(v as i32)),
            Err(e) => Err(e),
        },
        TagType::Long => match read_number(reader, 8) {
            Ok(v) => Ok(Tag::Long(v as i64)),
            Err(e) => Err(e),
        },
        TagType::Float => match read_number(reader, 4) {
            Ok(v) => Ok(Tag::Float(v as u32)),
            Err(e) => Err(e),
        },
        TagType::Double => match read_number(reader, 8) {
            Ok(v) => Ok(Tag::Double(v as u64)),
            Err(e) => Err(e),
        },
        TagType::ByteArray => decode_byte_array(reader, tracker),
        TagType::String => match decode_string(reader, tracker) {
            Ok(s) => Ok(Tag::String(s)),
            Err(e) => Err(e),
        },
        TagType::List => decode_list(reader, tracker),
        TagType::Compound => decode_compound(reader, tracker),
        TagType::IntArray => decode_int_array(reader, tracker),
        TagType::LongArray => decode_long_array(reader, tracker),
    }
}

/// Reads an entry of a compound after its type byte: a name, then a payload.
pub fn decode_named_tag<Re: ResourceTracker>(ty: TagType, reader: &mut VecReader, tracker: &mut Re) -> (r:
    Result<NamedTag, NbtDecodeErr>)
    requires
        old(reader).wf(),
    ensures
        reader_step(*old(reader), *final(reader)),
        same_limits(*old(tracker), *final(tracker)),
        nbt_decoded(
            named_tag_decode(
                ty,
                old(reader).rest(),
                old(tracker).spec_allocated() as nat,
                old(tracker).spec_depth() as nat,
                old(tracker).spec_max_allocated() as nat,
                old(tracker).spec_max_depth() as nat,
            ),
            nbt_result_view(r),
            old(reader).rest(),
            final(reader).rest(),
            final(tracker).spec_allocated() as nat,
            final(tracker).spec_depth() as nat,
        ),
    decreases old(tracker).spec_max_depth() - old(tracker).spec_depth(), 3nat,
{
    let ghost input = reader.rest();
    let name = match decode_string(reader, tracker) {
        Ok(s) => s,
        Err(e) => return Err(e),
    };
    let ghost n1 = string_decode(
        input,
        old(tracker).spec_allocated() as nat,
        old(tracker).spec_depth() as nat,
        old(tracker).spec_max_allocated() as nat,
    ).1;
    let payload = decode_tag(ty, reader, tracker);
    proof {
        let n2 = tag_decode(
            ty,
            input.skip(n1 as int),
            string_decode(
                input,
                old(tracker).spec_allocated() as nat,
                old(tracker).spec_depth() as nat,
                old(tracker).spec_max_allocated() as nat,
            ).2,
            old(tracker).spec_depth() as nat,
            old(tracker).spec_max_allocated() as nat,
            old(tracker).spec_max_depth() as nat,
        ).1;
        assert(input.skip(n1 as int).skip(n2 as int) =~= input.skip((n1 + n2) as int));
    }
    match payload {
        Ok(p) => Ok(NamedTag { name, payload: p }),
        Err(e) => Err(e),
    }
}

/// Reads a list: the type byte of its items, its length, the memory of the
/// items accounted for, one more level of nesting, then the items.
fn decode_list<Re: ResourceTracker>(reader: &mut VecReader, tracker: &mut Re) -> (r: Result<Tag, NbtDecodeErr>)
    requires
        old(reader).wf(),
    ensures
        tag_decoded(TagType::List, r, *old(reader), *final(reader), *old(tracker), *final(tracker)),
    decreases old(tracker).spec_max_depth() - old(tracker).spec_depth(), 1nat,
{
    let ghost input = reader.rest();
    let ghost d = old(tracker).spec_depth() as nat;
    let ghost ma = old(tracker).spec_max_allocated() as nat;
    let ghost md = old(tracker).spec_max_depth() as nat;
    assert(input =~= input.skip(0));
    let id = match reader.read_u8() {
        Ok(b) => b as i8,
        Err(k) => return Err(NbtDecodeErr::IoErr(k)),
    };
    let item_type = match TagType::try_from(id) {
        Ok(t) => t,
        Err(_) => return Err(NbtDecodeErr::InvalidTagType(id)),
    };
    let ghost after_id = reader.rest();
    let raw = match read_number(reader, 4) {
        Ok(v) => v,
        Err(e) => return Err(e),
    };
    proof {
        assert(after_id.subrange(0, 4) =~= input.subrange(1, 5));
        assert(after_id.skip(4) =~= input.skip(5));
    }
    let signed = raw as i32;
    let n: usize = if signed < 0 {
        0
    } else {
        signed as usize
    };
    match alloc_items(tracker, n, std::mem::size_of::<Tag>()) {
        Ok(()) => {},
        Err(e) => return Err(e),
    }
    match tracker.wind() {
        Ok(()) => {},
        Err(e) => return Err(e),
    }
    let ghost items_input = reader.rest();
    let ghost a2 = tracker.spec_allocated() as nat;
    let ghost whole = list_items_decode(item_type, n as nat, items_input, a2, d + 1, ma, md);
    let ghost mut views: Seq<TagView> = Seq::empty();
    let ghost mut consumed: nat = 0;
    let mut items: Vec<Tag> = Vec::new();
    let mut i: usize = 0;
    assert(items_input =~= items_input.skip(0));
    while i < n
        invariant
            reader_step(*old(reader), *reader),
            same_limits(*old(tracker), *tracker),
            tracker.spec_depth() == d + 1,
            d < md,
            d == old(tracker).spec_depth(),
            ma == old(tracker).spec_max_allocated(),
            md == old(tracker).spec_max_depth(),
            input == old(reader).rest(),
            5 <= input.len(),
            items_input == input.skip(5),
            TagType::spec_from_id(input[0] as i8) == Some(item_type),
            n == array_len(be_at(input, 1, 4) as i32),
            nbt_alloc(old(tracker).spec_allocated() as nat, ma, n as nat * tag_size()) == Ok::<
                nat,
                NbtDecodeErr,
            >(a2),
            whole == list_items_decode(item_type, n as nat, items_input, a2, d + 1, ma, md),
            i <= n,
            items.len() == i,
            views.len() == i,
            forall|k: int| 0 <= k < i ==> views[k] == tag_view(#[trigger] items@[k]),
            consumed <= items_input.len(),
            reader.rest() == items_input.skip(consumed as int),
            ({
                let rest = list_items_decode(
                    item_type,
                    (n - i) as nat,
                    reader.rest(),
                    tracker.spec_allocated() as nat,
                    d + 1,
                    ma,
                    md,
                );
                &&& whole.0 == match rest.0 {
                    Ok(s) => Ok(views + s),
                    Err(e) => Err::<Seq<TagView>, NbtDecodeErr>(e),
                }
                &&& whole.1 == consumed + rest.1
                &&& whole.2 == rest.2
                &&& whole.3 == rest.3
            }),
        decreases n - i,
    {
        let ghost rest = reader.rest();
        let ghost a = tracker.spec_allocated() as nat;
        assert(tracker.spec_max_depth() - tracker.spec_depth() < old(tracker).spec_max_depth()
            - old(tracker).spec_depth());
        let item = decode_tag(item_type, reader, tracker);
        let ghost first = tag_decode(item_type, rest, a, d + 1, ma, md);
        match item {
            Ok(t) => {
                proof {
                    lemma_tag_decode_len(item_type, rest, a, d + 1, ma, md);
                    assert(items_input.skip(consumed as int).skip(first.1 as int) =~= items_input.skip(
                        (consumed + first.1) as int,
                    ));
                    let tail = list_items_decode(
                        item_type,
                        (n - i - 1) as nat,
                        rest.skip(first.1 as int),
                        first.2,
                        d + 1,
                        ma,
                        md,
                    );
                    if tail.0 is Ok {
                        assert(views + (seq![tag_view(t)] + tail.0->Ok_0) =~= views.push(tag_view(t))
                            + tail.0->Ok_0);
                    }
                    views = views.push(tag_view(t));
                    consumed = consumed + first.1;
                }
                items.push(t);
                i = i + 1;
            },
            Err(e) => {
                proof {
                    lemma_tag_decode_len(item_type, rest, a, d + 1, ma, md);
                    assert(items_input.skip(consumed as int).skip(first.1 as int) =~= items_input.skip(
                        (consumed + first.1) as int,
                    ));
                    assert(input.skip(5).skip((consumed + first.1) as int) =~= input.skip(
                        (5 + consumed + first.1) as int,
                    ));
                }
                return Err(e);
            },
        }
    }
    tracker.unwind();
    proof {
        assert(input.skip(5).skip(consumed as int) =~= input.skip((5 + consumed) as int));
        assert(views + Seq::<TagView>::empty() =~= views);
        let tv = tag_view(Tag::List(items));
        assert(tv->List_0 =~= views);
    }
    Ok(Tag::List(items))
}

/// Reads a compound: one more level of nesting, then entries up to the end
/// byte, each with its memory accounted for before it is read.
#[verifier::rlimit(80)]
fn decode_compound<Re: ResourceTracker>(reader: &mut VecReader, tracker: &mut Re) -> (r: Result<Tag, NbtDecodeErr>)
    requires
        old(reader).wf(),
    ensures
        tag_decoded(TagType::Compound, r, *old(reader), *final(reader), *old(tracker), *final(tracker)),
    decreases old(tracker).spec_max_depth() - old(tracker).spec_depth(), 1nat,
{
    let ghost input = reader.rest();
    let ghost d = old(tracker).spec_depth() as nat;
    let ghost ma = old(tracker).spec_max_allocated() as nat;
    let ghost md = old(tracker).spec_max_depth() as nat;
    assert(input =~= input.skip(0));
    match tracker.wind() {
        Ok(()) => {},
        Err(e) => return Err(e),
    }
    let ghost whole = compound_entries_decode(input, old(tracker).spec_allocated() as nat, d + 1, ma, md);
    let ghost mut views: Seq<(Seq<char>, TagView)> = Seq::empty();
    let ghost mut consumed: nat = 0;
    let mut entries: Vec<NamedTag> = Vec::new();
    loop
        invariant
            reader_step(*old(reader), *reader),
            same_limits(*old(tracker), *tracker),
            tracker.spec_depth() == d + 1,
            d < md,
            d == old(tracker).spec_depth(),
            ma == old(tracker).spec_max_allocated(),
            md == old(tracker).spec_max_depth(),
            input == old(reader).rest(),
            whole == compound_entries_decode(input, old(tracker).spec_allocated() as nat, d + 1, ma, md),
            views.len() == entries.len(),
            forall|k: int| 0 <= k < entries.len() ==> views[k] == (#[trigger] entries@[k]).deep_view(),
            consumed <= input.len(),
            reader.rest() == input.skip(consumed as int),
            ({
                let rest = compound_entries_decode(reader.rest(), tracker.spec_allocated() as nat, d + 1, ma, md);
                &&& whole.0 == match rest.0 {
                    Ok(s) => Ok(views + s),
                    Err(e) => Err::<Seq<(Seq<char>, TagView)>, NbtDecodeErr>(e),
                }
                &&& whole.1 == consumed + rest.1
                &&& whole.2 == rest.2
                &&& whole.3 == rest.3
            }),
        decreases reader.rest().len(),
    {
        let ghost rest = reader.rest();
        let ghost a = tracker.spec_allocated() as nat;
        let id = match reader.read_u8() {
            Ok(b) => b as i8,
            Err(k) => {
                return Err(NbtDecodeErr::IoErr(k));
            },
        };
        let entry_type = match TagType::try_from(id) {
            Ok(t) => t,
            Err(_) => {
                proof {
                    assert(input.skip(consumed as int).skip(1) =~= input.skip((consumed + 1) as int));
                }
                return Err(NbtDecodeErr::InvalidTagType(id));
            },
        };
        proof {
            assert(input.skip(consumed as int).skip(1) =~= input.skip((consumed + 1) as int));
        }
        if entry_type == TagType::End {
            tracker.unwind();
            proof {
                assert(views + Seq::<(Seq<char>, TagView)>::empty() =~= views);
                let tv = tag_view(Tag::Compound(entries));
                assert(tv->Compound_0 =~= views);
            }
            return Ok(Tag::Compound(entries));
        }
        match tracker.allocate(std::mem::size_of::<NamedTag>()) {
            Ok(()) => {},
            Err(e) => return Err(e),
        }
        let ghost a2 = tracker.spec_allocated() as nat;
        let ghost after_id = reader.rest();
        let entry = decode_named_tag(entry_type, reader, tracker);
        let ghost e1 = named_tag_decode(entry_type, after_id, a2, d + 1, ma, md);
        proof {
            lemma_named_tag_len(entry_type, after_id, a2, d + 1, ma, md);
            assert(rest.skip(1) == after_id);
            assert(input.skip((consumed + 1) as int).skip(e1.1 as int) =~= input.skip((consumed + 1 + e1.1) as int));
        }
        match entry {
            Ok(nt) => {
                proof {
                    let c: nat = 1 + e1.1;
                    assert(rest.skip(c as int) =~= input.skip((consumed + c) as int));
                    let tail = compound_entries_decode(rest.skip(c as int), e1.2, d + 1, ma, md);
                    if tail.0 is Ok {
                        assert(views + (seq![nt.deep_view()] + tail.0->Ok_0) =~= views.push(nt.deep_view())
                            + tail.0->Ok_0);
                    }
                    views = views.push(nt.deep_view());
                    consumed = consumed + c;
                }
                entries.push(nt);
            },
            Err(e) => {
                return Err(e);
            },
        }
    }
}

/// A value that can be read from an NBT payload of a given tag type.
pub trait NbtDecode {
    type Repr: DeepView;

    /// What decoding does on `input`, with `a` bytes accounted for of at most
    /// `ma`, at depth `d` of at most `md`.
    spec fn spec_nbt_decode(tag_type: TagType, input: Seq<u8>, a: nat, d: nat, ma: nat, md: nat) -> NbtOutcome<
        <Self::Repr as DeepView>::V,
    >;

    fn decode<Re: ResourceTracker>(tag_type: TagType, reader: &mut VecReader, tracker: &mut Re) -> (r: Result<
        Self::Repr,
        NbtDecodeErr,
    >)
        requires
            old(reader).wf(),
        ensures
            reader_step(*old(reader), *final(reader)),
            same_limits(*old(tracker), *final(tracker)),
            nbt_decoded(
                Self::spec_nbt_decode(
                    tag_type,
                    old(reader).rest(),
                    old(tracker).spec_allocated() as nat,
                    old(tracker).spec_depth() as nat,
                    old(tracker).spec_max_allocated() as nat,
                    old(tracker).spec_max_depth() as nat,
                ),
                nbt_result_view(r),
                old(reader).rest(),
                final(reader).rest(),
                final(tracker).spec_allocated() as nat,
                final(tracker).spec_depth() as nat,
            ),
    ;
}

impl NbtDecode for i8 {
    type Repr = i8;

    open spec fn spec_nbt_decode(tag_type: TagType, input: Seq<u8>, a: nat, d: nat, ma: nat, md: nat) -> NbtOutcome<i8> {
        let o = number_decode(input, 1, a, d);
        (
            match o.0 {
                Ok(x) => Ok(x as i8),
                Err(e) => Err(e),
            },
            o.1,
            o.2,
            o.3,
        )
    }

    fn decode<Re: ResourceTracker>(tag_type: TagType, reader: &mut VecReader, tracker: &mut Re) -> (r: Result<
        i8,
        NbtDecodeErr,
    >) {
        assert(reader.rest() =~= reader.rest().skip(0));
        match read_number(reader, 1) {
            Ok(v) => Ok(v as i8),
            Err(e) => Err(e),
        }
    }
}

impl NbtDecode for i16 {
    type Repr = i16;

    open spec fn spec_nbt_decode(tag_type: TagType, input: Seq<u8>, a: nat, d: nat, ma: nat, md: nat) -> NbtOutcome<i16> {
        let o = number_decode(input, 2, a, d);
        (
            match o.0 {
                Ok(x) => Ok(x as i16),
                Err(e) => Err(e),
            },
            o.1,
            o.2,
            o.3,
        )
    }

    fn decode<Re: ResourceTracker>(tag_type: TagType, reader: &mut VecReader, tracker: &mut Re) -> (r: Result<
        i16,
        NbtDecodeErr,
    >) {
        assert(reader.rest() =~= reader.rest().skip(0));
        match read_number(reader, 2) {
            Ok(v) => Ok(v as i16),
            Err(e) => Err(e),
        }
    }
}

impl NbtDecode for i32 {
    type Repr = i32;

    open spec fn spec_nbt_decode(tag_type: TagType, input: Seq<u8>, a: nat, d: nat, ma: nat, md: nat) -> NbtOutcome<i32> {
        let o = number_decode(input, 4, a, d);
        (
            match o.0 {
                Ok(x) => Ok(x as i32),
                Err(e) => Err(e),
            },
            o.1,
            o.2,
            o.3,
        )
    }

    fn decode<Re: ResourceTracker>(tag_type: TagType, reader: &mut VecReader, tracker: &mut Re) -> (r: Result<
        i32,
        NbtDecodeErr,
    >) {
        assert(reader.rest() =~= reader.rest().skip(0));
        match read_number(reader, 4) {
            Ok(v) => Ok(v as i32),
            Err(e) => Err(e),
        }
    }
}

impl NbtDecode for i64 {
    type Repr = i64;

    open spec fn spec_nbt_decode(tag_type: TagType, input: Seq<u8>, a: nat, d: nat, ma: nat, md: nat) -> NbtOutcome<i64> {
        let o = number_decode(input, 8, a, d);
        (
            match o.0 {
                Ok(x) => Ok(x as i64),
                Err(e) => Err(e),
            },
            o.1,
            o.2,
            o.3,
        )
    }

    fn decode<Re: ResourceTracker>(tag_type: TagType, reader: &mut VecReader, tracker: &mut Re) -> (r: Result<
        i64,
        NbtDecodeErr,
    >) {
        assert(reader.rest() =~= reader.rest().skip(0));
        match read_number(reader, 8) {
            Ok(v) => Ok(v as i64),
            Err(e) => Err(e),
        }
    }
}

impl NbtDecode for String {
    type Repr = String;

    open spec fn spec_nbt_decode(tag_type: TagType, input: Seq<u8>, a: nat, d: nat, ma: nat, md: nat) -> NbtOutcome<
        Seq<char>,
    > {
        string_decode(input, a, d, ma)
    }

    fn decode<Re: ResourceTracker>(tag_type: TagType, reader: &mut VecReader, tracker: &mut Re) -> (r: Result<
        String,
        NbtDecodeErr,
    >) {
        decode_string(reader, tracker)
    }
}

impl NbtDecode for Tag {
    type Repr = Tag;

    open spec fn spec_nbt_decode(tag_type: TagType, input: Seq<u8>, a: nat, d: nat, ma: nat, md: nat) -> NbtOutcome<
        TagView,
    > {
        tag_decode(tag_type, input, a, d, ma, md)
    }

    fn decode<Re: ResourceTracker>(tag_type: TagType, reader: &mut VecReader, tracker: &mut Re) -> (r: Result<
        Tag,
        NbtDecodeErr,
    >) {
        decode_tag(tag_type, reader, tracker)
    }
}

impl NbtDecode for NamedTag {
    type Repr = NamedTag;

    open spec fn spec_nbt_decode(tag_type: TagType, input: Seq<u8>, a: nat, d: nat, ma: nat, md: nat) -> NbtOutcome<
        (Seq<char>, TagView),
    > {
        named_tag_decode(tag_type, input, a, d, ma, md)
    }

    fn decode<Re: ResourceTracker>(tag_type: TagType, reader: &mut VecReader, tracker: &mut Re) -> (r: Result<
        NamedTag,
        NbtDecodeErr,
    >) {
        decode_named_tag(tag_type, reader, tracker)
    }
}

} // verus!
