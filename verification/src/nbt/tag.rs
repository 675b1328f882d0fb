//! NBT tags and tag types.
use vstd::prelude::*;

verus! {

/// The type of an NBT tag, as written in front of its payload.
#[derive(Clone, Copy, Debug, PartialEq, Eq, Structural)]
pub enum TagType {
    End,
    Byte,
    Short,
    Int,
    Long,
    Float,
    Double,
    ByteArray,
    String,
    List,
    Compound,
    IntArray,
    LongArray,
}

/// A tag together with the name it has inside a compound.
pub struct NamedTag {
    pub name: String,
    pub payload: Tag,
}

/// An NBT value. Floating-point payloads are held as their IEEE 754 bits.
pub enum Tag {
    End,
    Byte(i8),
    Short(i16),
    Int(i32),
    Long(i64),
    Float(u32),
    Double(u64),
    ByteArray(Vec<u8>),
    String(String),
    List(Vec<Tag>),
    Compound(Vec<NamedTag>),
    IntArray(Vec<i32>),
    LongArray(Vec<i64>),
}

/// A tag of the kind that holds a `i8`.
impl From<i8> for Tag {
    fn from(value: i8) -> (r: Self) {
        Tag::Byte(value)
    }
}

impl vstd::std_specs::convert::FromSpecImpl<i8> for Tag {
    open spec fn obeys_from_spec() -> bool {
        true
    }

    open spec fn from_spec(v: i8) -> Tag {
        Tag::Byte(v)
    }
}

/// A tag of the kind that holds a `i16`.
impl From<i16> for Tag {
    fn from(value: i16) -> (r: Self) {
        Tag::Short(value)
    }
}

impl vstd::std_specs::convert::FromSpecImpl<i16> for Tag {
    open spec fn obeys_from_spec() -> bool {
        true
    }

    open spec fn from_spec(v: i16) -> Tag {
        Tag::Short(v)
    }
}

/// A tag of the kind that holds a `i32`.
impl From<i32> for Tag {
    fn from(value: i32) -> (r: Self) {
        Tag::Int(value)
    }
}

impl vstd::std_specs::convert::FromSpecImpl<i32> for Tag {
    open spec fn obeys_from_spec() -> bool {
        true
    }

    open spec fn from_spec(v: i32) -> Tag {
        Tag::Int(v)
    }
}

/// A tag of the kind that holds a `i64`.
impl From<i64> for Tag {
    fn from(value: i64) -> (r: Self) {
        Tag::Long(value)
    }
}

impl vstd::std_specs::convert::FromSpecImpl<i64> for Tag {
    open spec fn obeys_from_spec() -> bool {
        true
    }

    open spec fn from_spec(v: i64) -> Tag {
        Tag::Long(v)
    }
}

/// A tag of the kind that holds a `Vec<u8>`.
impl From<Vec<u8>> for Tag {
    fn from(value: Vec<u8>) -> (r: Self) {
        Tag::ByteArray(value)
    }
}

impl vstd::std_specs::convert::FromSpecImpl<Vec<u8>> for Tag {
    open spec fn obeys_from_spec() -> bool {
        true
    }

    open spec fn from_spec(v: Vec<u8>) -> Tag {
        Tag::ByteArray(v)
    }
}

/// A tag of the kind that holds a `String`.
impl From<String> for Tag {
    fn from(value: String) -> (r: Self) {
        Tag::String(value)
    }
}

impl vstd::std_specs::convert::FromSpecImpl<String> for Tag {
    open spec fn obeys_from_spec() -> bool {
        true
    }

    open spec fn from_spec(v: String) -> Tag {
        Tag::String(v)
    }
}

/// A tag of the kind that holds a `Vec<Tag>`.
impl From<Vec<Tag>> for Tag {
    fn from(value: Vec<Tag>) -> (r: Self) {
        Tag::List(value)
    }
}

impl vstd::std_specs::convert::FromSpecImpl<Vec<Tag>> for Tag {
    open spec fn obeys_from_spec() -> bool {
        true
    }

    open spec fn from_spec(v: Vec<Tag>) -> Tag {
        Tag::List(v)
    }
}

/// A tag of the kind that holds a `Vec<NamedTag>`.
impl From<Vec<NamedTag>> for Tag {
    fn from(value: Vec<NamedTag>) -> (r: Self) {
        Tag::Compound(value)
    }
}

impl vstd::std_specs::convert::FromSpecImpl<Vec<NamedTag>> for Tag {
    open spec fn obeys_from_spec() -> bool {
        true
    }

    open spec fn from_spec(v: Vec<NamedTag>) -> Tag {
        Tag::Compound(v)
    }
}

/// A tag of the kind that holds a `Vec<i32>`.
impl From<Vec<i32>> for Tag {
    fn from(value: Vec<i32>) -> (r: Self) {
        Tag::IntArray(value)
    }
}

impl vstd::std_specs::convert::FromSpecImpl<Vec<i32>> for Tag {
    open spec fn obeys_from_spec() -> bool {
        true
    }

    open spec fn from_spec(v: Vec<i32>) -> Tag {
        Tag::IntArray(v)
    }
}

/// A tag of the kind that holds a `Vec<i64>`.
impl From<Vec<i64>> for Tag {
    fn from(value: Vec<i64>) -> (r: Self) {
        Tag::LongArray(value)
    }
}

impl vstd::std_specs::convert::FromSpecImpl<Vec<i64>> for Tag {
    open spec fn obeys_from_spec() -> bool {
        true
    }

    open spec fn from_spec(v: Vec<i64>) -> Tag {
        Tag::LongArray(v)
    }
}

/// The end tag.
impl From<()> for Tag {
    fn from(value: ()) -> (r: Self) {
        Tag::End
    }
}

impl vstd::std_specs::convert::FromSpecImpl<()> for Tag {
    open spec fn obeys_from_spec() -> bool {
        true
    }

    open spec fn from_spec(v: ()) -> Tag {
        Tag::End
    }
}

/// A tag with its name.
impl From<(String, Tag)> for NamedTag {
    fn from(value: (String, Tag)) -> (r: Self) {
        NamedTag { name: value.0, payload: value.1 }
    }
}

impl vstd::std_specs::convert::FromSpecImpl<(String, Tag)> for NamedTag {
    open spec fn obeys_from_spec() -> bool {
        true
    }

    open spec fn from_spec(v: (String, Tag)) -> NamedTag {
        NamedTag { name: v.0, payload: v.1 }
    }
}

/// The mathematical value of a tag: sequences in place of vectors.
pub enum TagView {
    End,
    Byte(i8),
    Short(i16),
    Int(i32),
    Long(i64),
    Float(u32),
    Double(u64),
    ByteArray(Seq<u8>),
    String(Seq<char>),
    List(Seq<TagView>),
    Compound(Seq<(Seq<char>, TagView)>),
    IntArray(Seq<i32>),
    LongArray(Seq<i64>),
}

/// The value of a tag.
pub open spec fn tag_view(t: Tag) -> TagView
    decreases t,
{
    match t {
        Tag::End => TagView::End,
        Tag::Byte(v) => TagView::Byte(v),
        Tag::Short(v) => TagView::Short(v),
        Tag::Int(v) => TagView::Int(v),
        Tag::Long(v) => TagView::Long(v),
        Tag::Float(v) => TagView::Float(v),
        Tag::Double(v) => TagView::Double(v),
        Tag::ByteArray(v) => TagView::ByteArray(v@),
        Tag::String(s) => TagView::String(s@),
        Tag::List(v) => TagView::List(
            Seq::new(
                v.len() as nat,
                |i: int|
                    if 0 <= i < v.len() {
                        tag_view(v@[i])
                    } else {
                        TagView::End
                    },
            ),
        ),
        Tag::Compound(v) => TagView::Compound(
            Seq::new(
                v.len() as nat,
                |i: int|
                    if 0 <= i < v.len() {
                        (v@[i].name@, tag_view(v@[i].payload))
                    } else {
                        (Seq::empty(), TagView::End)
                    },
            ),
        ),
        Tag::IntArray(v) => TagView::IntArray(v@),
        Tag::LongArray(v) => TagView::LongArray(v@),
    }
}

impl DeepView for NamedTag {
    type V = (Seq<char>, TagView);

    open spec fn deep_view(&self) -> (Seq<char>, TagView) {
        (self.name@, tag_view(self.payload))
    }
}

impl DeepView for Tag {
    type V = TagView;

    open spec fn deep_view(&self) -> TagView {
        tag_view(*self)
    }
}

/// The type of a tag's value.
pub open spec fn view_type(t: TagView) -> TagType {
    match t {
        TagView::End => TagType::End,
        TagView::Byte(_) => TagType::Byte,
        TagView::Short(_) => TagType::Short,
        TagView::Int(_) => TagType::Int,
        TagView::Long(_) => TagType::Long,
        TagView::Float(_) => TagType::Float,
        TagView::Double(_) => TagType::Double,
        TagView::ByteArray(_) => TagType::ByteArray,
        TagView::String(_) => TagType::String,
        TagView::List(_) => TagType::List,
        TagView::Compound(_) => TagType::Compound,
        TagView::IntArray(_) => TagType::IntArray,
        TagView::LongArray(_) => TagType::LongArray,
    }
}

/// A byte that names no tag type.
pub struct TryFromTagTypeErr;

impl TagType {
    /// The byte that names the type on the wire.
    pub open spec fn spec_id(self) -> i8 {
        match self {
            TagType::End => 0,
            TagType::Byte => 1,
            TagType::Short => 2,
            TagType::Int => 3,
            TagType::Long => 4,
            TagType::Float => 5,
            TagType::Double => 6,
            TagType::ByteArray => 7,
            TagType::String => 8,
            TagType::List => 9,
            TagType::Compound => 10,
            TagType::IntArray => 11,
            TagType::LongArray => 12,
        }
    }

    /// The type a byte names, if any.
    pub open spec fn spec_from_id(id: i8) -> Option<TagType> {
        if id == 0 {
            Some(TagType::End)
        } else if id == 1 {
            Some(TagType::Byte)
        } else if id == 2 {
            Some(TagType::Short)
        } else if id == 3 {
            Some(TagType::Int)
        } else if id == 4 {
            Some(TagType::Long)
        } else if id == 5 {
            Some(TagType::Float)
        } else if id == 6 {
            Some(TagType::Double)
        } else if id == 7 {
            Some(TagType::ByteArray)
        } else if id == 8 {
            Some(TagType::String)
        } else if id == 9 {
            Some(TagType::List)
        } else if id == 10 {
            Some(TagType::Compound)
        } else if id == 11 {
            Some(TagType::IntArray)
        } else if id == 12 {
            Some(TagType::LongArray)
        } else {
            None
        }
    }

    /// The type of a tag.
    pub fn of(tag: &Tag) -> (r: TagType)
        ensures
            r == view_type(tag.deep_view()),
    {
        match tag {
            Tag::End => TagType::End,
            Tag::Byte(_) => TagType::Byte,
            Tag::Short(_) => TagType::Short,
            Tag::Int(_) => TagType::Int,
            Tag::Long(_) => TagType::Long,
            Tag::Float(_) => TagType::Float,
            Tag::Double(_) => TagType::Double,
            Tag::ByteArray(_) => TagType::ByteArray,
            Tag::String(_) => TagType::String,
            Tag::List(_) => TagType::List,
            Tag::Compound(_) => TagType::Compound,
            Tag::IntArray(_) => TagType::IntArray,
            Tag::LongArray(_) => TagType::LongArray,
        }
    }

    /// The byte that names the type on the wire.
    pub fn into(self) -> (r: i8)
        ensures
            r == self.spec_id(),
    {
        match self {
            TagType::End => 0,
            TagType::Byte => 1,
            TagType::Short => 2,
            TagType::Int => 3,
            TagType::Long => 4,
            TagType::Float => 5,
            TagType::Double => 6,
            TagType::ByteArray => 7,
            TagType::String => 8,
            TagType::List => 9,
            TagType::Compound => 10,
            TagType::IntArray => 11,
            TagType::LongArray => 12,
        }
    }

    /// The type a byte names; bytes outside `0..=12` name none.
    pub fn try_from(value: i8) -> (r: Result<TagType, TryFromTagTypeErr>)
        ensures
            match TagType::spec_from_id(value) {
                Some(t) => r matches Ok(u) && u == t,
                None => r is Err,
            },
    {
        match value {
            0 => Ok(TagType::End),
            1 => Ok(TagType::Byte),
            2 => Ok(TagType::Short),
            3 => Ok(TagType::Int),
            4 => Ok(TagType::Long),
            5 => Ok(TagType::Float),
            6 => Ok(TagType::Double),
            7 => Ok(TagType::ByteArray),
            8 => Ok(TagType::String),
            9 => Ok(TagType::List),
            10 => Ok(TagType::Compound),
            11 => Ok(TagType::IntArray),
            12 => Ok(TagType::LongArray),
            _ => Err(TryFromTagTypeErr),
        }
    }
}

/// Naming a type and reading the name back gives the type.
pub proof fn lemma_tag_type_id_roundtrip(t: TagType)
    ensures
        TagType::spec_from_id(t.spec_id()) == Some(t),
{
}

/// The largest number of bytes a decoded tag may account for.
pub const MAX_TAG_SIZE: usize = 1 << 22;

/// The deepest nesting of lists and compounds a decoded tag may have.
pub const MAX_RECURSION_DEPTH: usize = 32;

/// A compound tag at the root of a protocol value, written after its type byte
/// and without a name.
pub struct TagRoot;

} // verus!
