//! The data model: tag kinds, tag values, named tags, and decode errors.

use vstd::prelude::*;
use vstd::utf8::encode_utf8;

verus! {

/// The kind of a tag, as identified by the kind byte on the wire.
///
/// `TAGEnd` (kind byte 0) is a structural terminator for compounds and never
/// appears as a materialized tag value. `TAGUnknown` stands for no wire kind
/// at all; [`TagType::resolve`] never returns it, and no well-formed tag
/// carries it.
#[derive(Clone, Copy, Debug, PartialEq, Eq, Structural)]
pub enum TagType {
    TAGEnd,
    TAGByte,
    TAGShort,
    TAGInt,
    TAGLong,
    TAGFloat,
    TAGDouble,
    TAGByteArray,
    TAGString,
    TAGList,
    TAGCompound,
    TAGUnknown,
}

/// Why a decode failed. Every error is fatal to the decode that raised it;
/// no partial tree is returned.
#[derive(Clone, Copy, Debug, PartialEq, Eq, Structural)]
pub enum NbtError {
    /// A kind byte outside 0..=10 was read.
    UnknownTagType,
    /// The root tag of the input is not a compound.
    MalformedRoot,
    /// The bytes of a string or name field are not valid UTF-8.
    InvalidUtf8,
    /// The input ended before a declared fixed width or length was satisfied.
    UnexpectedEnd,
    /// A list declared its element kind as `TAGEnd`, which no element can have.
    ListTypeMismatch,
    /// The input nests lists and compounds deeper than the configured limit.
    DepthExceeded,
}

/// A decoded tag value. The list variant keeps the declared element kind and
/// the declared count alongside the elements; a well-formed list has exactly
/// that many elements, each of the declared kind.
///
/// Float and double payloads are carried as their raw IEEE 754 bit patterns
/// (`u32` and `u64`), read big-endian from the wire exactly as the other
/// fixed-width kinds are; interpreting the bits as a floating-point number is
/// left to callers.
#[derive(Debug)]
pub enum NBTTag {
    ByteTag(i8),
    ShortTag(i16),
    IntTag(i32),
    LongTag(i64),
    FloatTag(u32),
    DoubleTag(u64),
    ByteArrayTag(Vec<u8>),
    StringTag(String),
    ListTag(TagType, usize, Vec<NBTTag>),
    CompoundTag(Vec<NamedTag>),
}

/// A (name, value) pair: the unit stored in a compound and the unit returned
/// for the root of an input.
#[derive(Debug)]
pub struct NamedTag {
    pub name: String,
    pub value: NBTTag,
}

/// The kind byte that stands for each tag kind on the wire.
/// `TAGUnknown` is given the smallest byte that stands for no kind.
pub open spec fn type_byte(tt: TagType) -> u8 {
    match tt {
        TagType::TAGEnd => 0,
        TagType::TAGByte => 1,
        TagType::TAGShort => 2,
        TagType::TAGInt => 3,
        TagType::TAGLong => 4,
        TagType::TAGFloat => 5,
        TagType::TAGDouble => 6,
        TagType::TAGByteArray => 7,
        TagType::TAGString => 8,
        TagType::TAGList => 9,
        TagType::TAGCompound => 10,
        TagType::TAGUnknown => 11,
    }
}

/// The tag kind a byte stands for: `Some` exactly for bytes 0..=10.
pub open spec fn tag_type_from_byte(b: u8) -> Option<TagType> {
    if b == 0 {
        Some(TagType::TAGEnd)
    } else if b == 1 {
        Some(TagType::TAGByte)
    } else if b == 2 {
        Some(TagType::TAGShort)
    } else if b == 3 {
        Some(TagType::TAGInt)
    } else if b == 4 {
        Some(TagType::TAGLong)
    } else if b == 5 {
        Some(TagType::TAGFloat)
    } else if b == 6 {
        Some(TagType::TAGDouble)
    } else if b == 7 {
        Some(TagType::TAGByteArray)
    } else if b == 8 {
        Some(TagType::TAGString)
    } else if b == 9 {
        Some(TagType::TAGList)
    } else if b == 10 {
        Some(TagType::TAGCompound)
    } else {
        None
    }
}

/// True of the kinds that carry a payload: every kind except the `TAGEnd`
/// terminator and the `TAGUnknown` placeholder.
pub open spec fn is_payload_kind(tt: TagType) -> bool {
    tt != TagType::TAGEnd && tt != TagType::TAGUnknown
}

/// The kind of a tag value.
pub open spec fn tag_kind(t: NBTTag) -> TagType {
    match t {
        NBTTag::ByteTag(_) => TagType::TAGByte,
        NBTTag::ShortTag(_) => TagType::TAGShort,
        NBTTag::IntTag(_) => TagType::TAGInt,
        NBTTag::LongTag(_) => TagType::TAGLong,
        NBTTag::FloatTag(_) => TagType::TAGFloat,
        NBTTag::DoubleTag(_) => TagType::TAGDouble,
        NBTTag::ByteArrayTag(_) => TagType::TAGByteArray,
        NBTTag::StringTag(_) => TagType::TAGString,
        NBTTag::ListTag(_, _, _) => TagType::TAGList,
        NBTTag::CompoundTag(_) => TagType::TAGCompound,
    }
}

/// Well-formedness of a tag value, as the decoder guarantees it and the
/// encoding of a tree presumes it:
/// - a list's declared element kind is a payload kind, its declared count
///   equals its number of elements and fits the wire's 32-bit count field,
///   and every element is well-formed and of the declared kind;
/// - every compound child is well-formed (see [`wf_child`]);
/// - byte array and string payloads fit their 32-bit and 16-bit length
///   fields.
pub open spec fn wf_tag(t: NBTTag) -> bool
    decreases t,
{
    match t {
        NBTTag::ByteTag(_) => true,
        NBTTag::ShortTag(_) => true,
        NBTTag::IntTag(_) => true,
        NBTTag::LongTag(_) => true,
        NBTTag::FloatTag(_) => true,
        NBTTag::DoubleTag(_) => true,
        NBTTag::ByteArrayTag(v) => v@.len() <= u32::MAX,
        NBTTag::StringTag(s) => encode_utf8(s@).len() <= u16::MAX,
        NBTTag::ListTag(et, n, elems) => {
            &&& is_payload_kind(et)
            &&& n == elems@.len()
            &&& elems@.len() <= u32::MAX
            &&& forall|i: int|
                0 <= i < elems@.len() ==> wf_tag(#[trigger] elems@[i]) && tag_kind(elems@[i]) == et
        },
        NBTTag::CompoundTag(cs) => forall|i: int| 0 <= i < cs@.len() ==> wf_child(#[trigger] cs@[i]),
    }
}

/// Well-formedness of a named tag as a compound stores it and as the root
/// parser returns it: the name's UTF-8 form fits the 16-bit length field,
/// and the value is a well-formed tag of a payload kind.
pub open spec fn wf_child(c: NamedTag) -> bool
    decreases c,
{
    &&& encode_utf8(c.name@).len() <= u16::MAX
    &&& is_payload_kind(tag_kind(c.value))
    &&& wf_tag(c.value)
}

/// True when the tree nests no deeper than the budget `d` allows: entering
/// a list or compound payload spends one level, exactly as the decoder
/// spends its nesting budget.
pub open spec fn fits_depth(t: NBTTag, d: nat) -> bool
    decreases t,
{
    match t {
        NBTTag::ByteTag(_) => true,
        NBTTag::ShortTag(_) => true,
        NBTTag::IntTag(_) => true,
        NBTTag::LongTag(_) => true,
        NBTTag::FloatTag(_) => true,
        NBTTag::DoubleTag(_) => true,
        NBTTag::ByteArrayTag(_) => true,
        NBTTag::StringTag(_) => true,
        NBTTag::ListTag(_, _, elems) => d >= 1 && forall|k: int|
            0 <= k < elems@.len() ==> fits_depth(#[trigger] elems@[k], (d - 1) as nat),
        NBTTag::CompoundTag(cs) => d >= 1 && forall|k: int|
            0 <= k < cs@.len() ==> fits_depth(#[trigger] cs@[k].value, (d - 1) as nat),
    }
}

/// A well-formed list holds exactly its declared count of elements, each of
/// them well-formed and of the declared element kind, which is itself a
/// payload kind; the elements stand in the order they were decoded in.
pub proof fn lemma_list_shape(et: TagType, n: usize, elems: Vec<NBTTag>)
    requires
        wf_tag(NBTTag::ListTag(et, n, elems)),
    ensures
        elems@.len() == n,
        forall|k: int|
            0 <= k < elems@.len() ==> tag_kind(#[trigger] elems@[k]) == et && wf_tag(elems@[k]),
        is_payload_kind(et),
{
}

impl TagType {
    /// Resolves a raw kind byte: the matching kind for bytes 0..=10, and
    /// `UnknownTagType` for every other byte.
    pub fn resolve(b: u8) -> (r: Result<TagType, NbtError>)
        ensures
            r == match tag_type_from_byte(b) {
                Some(tt) => Ok::<TagType, NbtError>(tt),
                None => Err::<TagType, NbtError>(NbtError::UnknownTagType),
            },
    {
        match b {
            0 => Ok(TagType::TAGEnd),
            1 => Ok(TagType::TAGByte),
            2 => Ok(TagType::TAGShort),
            3 => Ok(TagType::TAGInt),
            4 => Ok(TagType::TAGLong),
            5 => Ok(TagType::TAGFloat),
            6 => Ok(TagType::TAGDouble),
            7 => Ok(TagType::TAGByteArray),
            8 => Ok(TagType::TAGString),
            9 => Ok(TagType::TAGList),
            10 => Ok(TagType::TAGCompound),
            _ => Err(NbtError::UnknownTagType),
        }
    }
}

impl NBTTag {
    /// The kind of this tag value.
    pub fn get_type(&self) -> (r: TagType)
        ensures
            r == tag_kind(*self),
    {
        match self {
            NBTTag::ByteTag(_) => TagType::TAGByte,
            NBTTag::ShortTag(_) => TagType::TAGShort,
            NBTTag::IntTag(_) => TagType::TAGInt,
            NBTTag::LongTag(_) => TagType::TAGLong,
            NBTTag::FloatTag(_) => TagType::TAGFloat,
            NBTTag::DoubleTag(_) => TagType::TAGDouble,
            NBTTag::ByteArrayTag(_) => TagType::TAGByteArray,
            NBTTag::StringTag(_) => TagType::TAGString,
            NBTTag::ListTag(_, _, _) => TagType::TAGList,
            NBTTag::CompoundTag(_) => TagType::TAGCompound,
        }
    }
}

impl NamedTag {
    /// Pairs a name with a tag value.
    pub fn new(name: String, value: NBTTag) -> (r: NamedTag)
        ensures
            r.name@ == name@,
            r.value == value,
    {
        NamedTag { name, value }
    }

    /// The kind of the value held under this name.
    pub fn get_type(&self) -> (r: TagType)
        ensures
            r == tag_kind(self.value),
    {
        self.value.get_type()
    }

    /// The name.
    pub fn get_name(&self) -> (r: &str)
        ensures
            r@ == self.name@,
    {
        self.name.as_str()
    }

    /// The tag value held under this name.
    pub fn get_tag(&self) -> (r: &NBTTag)
        ensures
            r == &self.value,
    {
        &self.value
    }
}

} // verus!
