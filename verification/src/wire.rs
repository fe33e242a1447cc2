//! The wire format, stated twice over:
//!
//! - an *encoder*: spec functions that give, for a well-formed tag tree, the
//!   exact byte sequence that encodes it ([`encode_payload`], [`named_frame`]);
//! - a *reader*: spec functions that give, for a byte sequence and a start
//!   position, the position right after the payload found there, or the
//!   error that a decode of it must raise ([`payload_end`], [`root_end`]).
//!
//! The executable decoder's contracts tie it to both: it succeeds exactly
//! when the reader says so, and the bytes it consumed are exactly the
//! encoding of the tree it returns.

use vstd::prelude::*;
use vstd::utf8::{encode_utf8, valid_utf8};
use crate::tag::{
    TagType, NBTTag, NamedTag, NbtError, type_byte, tag_type_from_byte, tag_kind, wf_child,
};

verus! {

broadcast use vstd::seq::group_seq_axioms;

// ---------------------------------------------------------------------------
// Big-endian byte strings of the fixed-width fields.
// ---------------------------------------------------------------------------

/// The two big-endian bytes of a 16-bit value.
pub open spec fn u16_be_bytes(x: u16) -> Seq<u8> {
    seq![(x / 0x100) as u8, (x % 0x100) as u8]
}

/// The four big-endian bytes of a 32-bit value.
pub open spec fn u32_be_bytes(x: u32) -> Seq<u8> {
    u16_be_bytes((x / 0x10000) as u16) + u16_be_bytes((x % 0x10000) as u16)
}

/// The eight big-endian bytes of a 64-bit value.
pub open spec fn u64_be_bytes(x: u64) -> Seq<u8> {
    u32_be_bytes((x / 0x100000000) as u32) + u32_be_bytes((x % 0x100000000) as u32)
}

/// The value of the two bytes at `i` read as a big-endian 16-bit field.
pub open spec fn be16_at(s: Seq<u8>, i: int) -> int {
    s[i] * 0x100 + s[i + 1]
}

/// The value of the four bytes at `i` read as a big-endian 32-bit field.
pub open spec fn be32_at(s: Seq<u8>, i: int) -> int {
    be16_at(s, i) * 0x10000 + be16_at(s, i + 2)
}

/// The value of the eight bytes at `i` read as a big-endian 64-bit field.
pub open spec fn be64_at(s: Seq<u8>, i: int) -> int {
    be32_at(s, i) * 0x100000000 + be32_at(s, i + 4)
}

proof fn lemma_div_mod_split(a: int, b: int, q: int)
    by (nonlinear_arith)
    requires
        q > 0,
        0 <= b < q,
        0 <= a,
    ensures
        (a * q + b) / q == a,
        (a * q + b) % q == b,
{
}

/// Reading two bytes big-endian and re-encoding the value gives the bytes back.
pub proof fn lemma_be16_roundtrip(s: Seq<u8>, i: int)
    requires
        0 <= i,
        i + 2 <= s.len(),
    ensures
        0 <= be16_at(s, i) <= u16::MAX,
        u16_be_bytes(be16_at(s, i) as u16) =~= s.subrange(i, i + 2),
{
    lemma_div_mod_split(s[i] as int, s[i + 1] as int, 0x100);
}

/// Reading four bytes big-endian and re-encoding the value gives the bytes back.
pub proof fn lemma_be32_roundtrip(s: Seq<u8>, i: int)
    requires
        0 <= i,
        i + 4 <= s.len(),
    ensures
        0 <= be32_at(s, i) <= u32::MAX,
        u32_be_bytes(be32_at(s, i) as u32) =~= s.subrange(i, i + 4),
{
    lemma_be16_roundtrip(s, i);
    lemma_be16_roundtrip(s, i + 2);
    lemma_div_mod_split(be16_at(s, i), be16_at(s, i + 2), 0x10000);
}

/// Reading eight bytes big-endian and re-encoding the value gives the bytes back.
pub proof fn lemma_be64_roundtrip(s: Seq<u8>, i: int)
    requires
        0 <= i,
        i + 8 <= s.len(),
    ensures
        0 <= be64_at(s, i) <= u64::MAX,
        u64_be_bytes(be64_at(s, i) as u64) =~= s.subrange(i, i + 8),
{
    lemma_be32_roundtrip(s, i);
    lemma_be32_roundtrip(s, i + 4);
    lemma_div_mod_split(be32_at(s, i), be32_at(s, i + 4), 0x100000000);
}

// ---------------------------------------------------------------------------
// The encoder: the bytes that stand for a tag tree.
// ---------------------------------------------------------------------------

/// The wire form of a name or string field: a big-endian 16-bit byte length,
/// then the UTF-8 bytes of the text.
pub open spec fn name_bytes(name: Seq<char>) -> Seq<u8> {
    u16_be_bytes(encode_utf8(name).len() as u16) + encode_utf8(name)
}

/// The payload bytes of a tag value: what follows the kind byte and name on
/// the wire. A compound's payload is its child frames in order, closed by a
/// single `TAGEnd` byte; a list's payload is its element kind byte, its
/// big-endian 32-bit count, and the payloads of its elements in order.
pub open spec fn encode_payload(t: NBTTag) -> Seq<u8>
    decreases t,
{
    match t {
        NBTTag::ByteTag(v) => seq![v as u8],
        NBTTag::ShortTag(v) => u16_be_bytes(v as u16),
        NBTTag::IntTag(v) => u32_be_bytes(v as u32),
        NBTTag::LongTag(v) => u64_be_bytes(v as u64),
        NBTTag::FloatTag(bits) => u32_be_bytes(bits),
        NBTTag::DoubleTag(bits) => u64_be_bytes(bits),
        NBTTag::ByteArrayTag(v) => u32_be_bytes(v@.len() as u32) + v@,
        NBTTag::StringTag(s) => name_bytes(s@),
        NBTTag::ListTag(et, n, elems) => seq![type_byte(et)] + u32_be_bytes(n as u32)
            + encode_elems(elems@),
        NBTTag::CompoundTag(cs) => encode_children(cs@) + seq![0u8],
    }
}

/// The payloads of a list's elements, in order.
pub open spec fn encode_elems(ts: Seq<NBTTag>) -> Seq<u8>
    decreases ts,
{
    if ts.len() == 0 {
        Seq::empty()
    } else {
        encode_payload(ts[0]) + encode_elems(ts.drop_first())
    }
}

/// The frame of a named tag: its kind byte, its name field, its payload.
/// This frames every compound child and the root tag of an input.
pub open spec fn named_frame(c: NamedTag) -> Seq<u8>
    decreases c,
{
    seq![type_byte(tag_kind(c.value))] + name_bytes(c.name@) + encode_payload(c.value)
}

/// The frames of a compound's children, in order, without the closing
/// `TAGEnd` byte.
pub open spec fn encode_children(cs: Seq<NamedTag>) -> Seq<u8>
    decreases cs,
{
    if cs.len() == 0 {
        Seq::empty()
    } else {
        named_frame(cs[0]) + encode_children(cs.drop_first())
    }
}

/// Appending one element to a list appends its payload to the encoding.
pub proof fn lemma_encode_elems_snoc(ts: Seq<NBTTag>, t: NBTTag)
    ensures
        encode_elems(ts.push(t)) == encode_elems(ts) + encode_payload(t),
    decreases ts.len(),
{
    if ts.len() == 0 {
        assert(ts.push(t).drop_first() =~= Seq::<NBTTag>::empty());
        assert(encode_elems(ts.push(t).drop_first()) =~= Seq::<u8>::empty());
        assert(encode_elems(ts) =~= Seq::<u8>::empty());
        assert(ts.push(t)[0] == t);
        assert(encode_elems(ts.push(t)) =~= encode_elems(ts) + encode_payload(t));
    } else {
        lemma_encode_elems_snoc(ts.drop_first(), t);
        assert(ts.push(t).drop_first() =~= ts.drop_first().push(t));
        assert(ts.push(t)[0] == ts[0]);
        assert(encode_elems(ts.push(t)) == encode_payload(ts[0]) + encode_elems(
            ts.drop_first().push(t),
        ));
        assert(encode_elems(ts.push(t)) =~= encode_elems(ts) + encode_payload(t));
    }
}

/// Appending one child to a compound appends its frame to the encoding.
pub proof fn lemma_encode_children_snoc(cs: Seq<NamedTag>, c: NamedTag)
    ensures
        encode_children(cs.push(c)) == encode_children(cs) + named_frame(c),
    decreases cs.len(),
{
    if cs.len() == 0 {
        assert(cs.push(c).drop_first() =~= Seq::<NamedTag>::empty());
        assert(encode_children(cs.push(c).drop_first()) =~= Seq::<u8>::empty());
        assert(encode_children(cs) =~= Seq::<u8>::empty());
        assert(cs.push(c)[0] == c);
        assert(encode_children(cs.push(c)) =~= encode_children(cs) + named_frame(c));
    } else {
        lemma_encode_children_snoc(cs.drop_first(), c);
        assert(cs.push(c).drop_first() =~= cs.drop_first().push(c));
        assert(cs.push(c)[0] == cs[0]);
        assert(encode_children(cs.push(c)) == named_frame(cs[0]) + encode_children(
            cs.drop_first().push(c),
        ));
        assert(encode_children(cs.push(c)) =~= encode_children(cs) + named_frame(c));
    }
}

// ---------------------------------------------------------------------------
// The reader: where a payload ends, or why reading it fails.
// ---------------------------------------------------------------------------

/// Where a fixed-width payload of `w` bytes starting at `i` ends.
pub open spec fn fixed_end(s: Seq<u8>, i: int, w: int) -> Result<int, NbtError> {
    if i + w <= s.len() {
        Ok(i + w)
    } else {
        Err(NbtError::UnexpectedEnd)
    }
}

/// Where a string field (16-bit byte length, then that many UTF-8 bytes)
/// starting at `i` ends. This reads both string payloads and name fields.
pub open spec fn str_end(s: Seq<u8>, i: int) -> Result<int, NbtError> {
    if i + 2 > s.len() {
        Err(NbtError::UnexpectedEnd)
    } else if i + 2 + be16_at(s, i) > s.len() {
        Err(NbtError::UnexpectedEnd)
    } else if valid_utf8(s.subrange(i + 2, i + 2 + be16_at(s, i))) {
        Ok(i + 2 + be16_at(s, i))
    } else {
        Err(NbtError::InvalidUtf8)
    }
}

/// Where a byte array payload (32-bit length, then that many raw bytes)
/// starting at `i` ends.
pub open spec fn bytearray_end(s: Seq<u8>, i: int) -> Result<int, NbtError> {
    if i + 4 > s.len() {
        Err(NbtError::UnexpectedEnd)
    } else if i + 4 + be32_at(s, i) > s.len() {
        Err(NbtError::UnexpectedEnd)
    } else {
        Ok(i + 4 + be32_at(s, i))
    }
}

/// Where a list payload (element kind byte, 32-bit count, then that many
/// payloads of that kind) starting at `i` ends, with nesting budget `d`.
pub open spec fn list_end(s: Seq<u8>, i: int, d: nat) -> Result<int, NbtError>
    decreases d, 0nat, 1nat,
{
    if d == 0 {
        Err(NbtError::DepthExceeded)
    } else if i + 1 > s.len() {
        Err(NbtError::UnexpectedEnd)
    } else {
        match tag_type_from_byte(s[i]) {
            None => Err(NbtError::UnknownTagType),
            Some(et) => {
                if et == TagType::TAGEnd {
                    Err(NbtError::ListTypeMismatch)
                } else if i + 5 > s.len() {
                    Err(NbtError::UnexpectedEnd)
                } else {
                    elems_end(s, i + 5, et, be32_at(s, i + 1) as nat, (d - 1) as nat)
                }
            },
        }
    }
}

/// Where the payload of a tag of kind `tt` starting at `i` ends, or the
/// error that decoding it raises. `d` is the nesting budget left: entering a
/// list or compound payload requires `d > 0` and hands `d - 1` on to the
/// payloads nested in it.
pub open spec fn payload_end(s: Seq<u8>, i: int, tt: TagType, d: nat) -> Result<int, NbtError>
    decreases d, 0nat, 2nat,
{
    match tt {
        TagType::TAGEnd => Err(NbtError::UnknownTagType),
        TagType::TAGUnknown => Err(NbtError::UnknownTagType),
        TagType::TAGByte => fixed_end(s, i, 1),
        TagType::TAGShort => fixed_end(s, i, 2),
        TagType::TAGInt => fixed_end(s, i, 4),
        TagType::TAGLong => fixed_end(s, i, 8),
        TagType::TAGFloat => fixed_end(s, i, 4),
        TagType::TAGDouble => fixed_end(s, i, 8),
        TagType::TAGByteArray => bytearray_end(s, i),
        TagType::TAGString => str_end(s, i),
        TagType::TAGList => list_end(s, i, d),
        TagType::TAGCompound => {
            if d == 0 {
                Err(NbtError::DepthExceeded)
            } else {
                children_end(s, i, (d - 1) as nat)
            }
        },
    }
}

/// Where `c` consecutive payloads of kind `et` starting at `i` end.
pub open spec fn elems_end(s: Seq<u8>, i: int, et: TagType, c: nat, d: nat) -> Result<
    int,
    NbtError,
>
    decreases d, 1nat, c,
{
    if c == 0 {
        Ok(i)
    } else {
        match payload_end(s, i, et, d) {
            Ok(j) => elems_end(s, j, et, (c - 1) as nat, d),
            Err(e) => Err(e),
        }
    }
}

/// Where a compound's child frames starting at `i` end: right after the
/// first bare `TAGEnd` byte found at this nesting level.
pub open spec fn children_end(s: Seq<u8>, i: int, d: nat) -> Result<int, NbtError>
    decreases d, 2nat, s.len() - i,
{
    if i >= s.len() {
        Err(NbtError::UnexpectedEnd)
    } else if s[i] == 0 {
        Ok(i + 1)
    } else {
        match tag_type_from_byte(s[i]) {
            None => Err(NbtError::UnknownTagType),
            Some(tt) => match str_end(s, i + 1) {
                Err(e) => Err(e),
                Ok(m) => match payload_end(s, m, tt, d) {
                    Err(e) => Err(e),
                    Ok(j) => {
                        if i < j && j <= s.len() {
                            children_end(s, j, d)
                        } else {
                            Err(NbtError::UnexpectedEnd)
                        }
                    },
                },
            },
        }
    }
}

/// A compound scan that meets a bare `TAGEnd` kind byte stops at once: the
/// terminator is consumed and nothing after it belongs to the compound.
pub proof fn lemma_compound_stops_at_end(s: Seq<u8>, i: int, d: nat)
    requires
        0 <= i < s.len(),
        s[i] == 0,
    ensures
        children_end(s, i, d) == Ok::<int, NbtError>(i + 1),
{
}

/// A compound scan that meets any other kind byte first passes one whole
/// child frame, kind byte, name and payload, and resumes only after it: so
/// the scan ends exactly at the first bare `TAGEnd` byte that stands at this
/// nesting level between frames.
pub proof fn lemma_compound_scans_frame(s: Seq<u8>, i: int, d: nat, tt: TagType, m: int, j: int)
    requires
        0 <= i < s.len(),
        s[i] != 0,
        tag_type_from_byte(s[i]) == Some(tt),
        str_end(s, i + 1) == Ok::<int, NbtError>(m),
        payload_end(s, m, tt, d) == Ok::<int, NbtError>(j),
        i < j <= s.len(),
    ensures
        children_end(s, i, d) == children_end(s, j, d),
{
}

/// A well-formed child's frame opens with its value's kind byte, which is
/// never the `TAGEnd` terminator: within a compound's bytes, child frames
/// and the closing terminator cannot be confused.
pub proof fn lemma_child_frame_opens_nonzero(c: NamedTag)
    requires
        wf_child(c),
    ensures
        named_frame(c).len() > 0,
        named_frame(c)[0] == type_byte(tag_kind(c.value)),
        named_frame(c)[0] != 0,
{
}

/// Where an input's root frame starting at `i` ends, or why parsing it
/// fails: the root must open with the `TAGCompound` kind byte, then its name
/// field, then a compound payload read with nesting budget `limit`.
pub open spec fn root_end(s: Seq<u8>, i: int, limit: nat) -> Result<int, NbtError> {
    if i + 1 > s.len() {
        Err(NbtError::UnexpectedEnd)
    } else {
        match tag_type_from_byte(s[i]) {
            None => Err(NbtError::UnknownTagType),
            Some(tt) => {
                if tt != TagType::TAGCompound {
                    Err(NbtError::MalformedRoot)
                } else {
                    match str_end(s, i + 1) {
                        Err(e) => Err(e),
                        Ok(m) => payload_end(s, m, TagType::TAGCompound, limit),
                    }
                }
            },
        }
    }
}

} // verus!
