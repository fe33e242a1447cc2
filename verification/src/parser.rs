//! The decoder: a recursive-descent reader over an in-memory byte buffer.

use vstd::prelude::*;
use vstd::slice::{slice_subrange, slice_to_vec};
use vstd::utf8::{encode_utf8, valid_utf8};
use crate::tag::{TagType, NBTTag, NamedTag, NbtError, tag_kind, wf_tag, wf_child, fits_depth};
use crate::wire::{
    be16_at, be32_at, be64_at, lemma_be16_roundtrip, lemma_be32_roundtrip, lemma_be64_roundtrip,
    lemma_encode_elems_snoc, lemma_encode_children_snoc, name_bytes, encode_payload, encode_elems,
    encode_children, named_frame, fixed_end, str_end, bytearray_end, list_end, payload_end,
    elems_end, children_end, root_end,
};

verus! {

broadcast use vstd::seq::group_seq_axioms;

/// The nesting budget a parser is given unless one is chosen explicitly:
/// how deep lists and compounds may nest below the root before decoding
/// fails with `DepthExceeded`.
pub const DEPTH_LIMIT: u32 = 512;

/// Reads one tag tree out of a byte buffer. The buffer is consumed from
/// front to back; `position` tells how far reading has come, which on an
/// error is where the failure was found.
pub struct Parser {
    data: Vec<u8>,
    pos: usize,
    limit: u32,
}

/// Relies on `String::from_utf8`: it succeeds exactly when the bytes are
/// valid UTF-8, and then returns the text whose UTF-8 form is those bytes.
#[verifier::external_body]
fn string_from_utf8(v: Vec<u8>) -> (r: Option<String>)
    ensures
        r is Some <==> valid_utf8(v@),
        r matches Some(st) ==> encode_utf8(st@) == v@,
{
    String::from_utf8(v).ok()
}

impl Parser {
    /// The bytes being read, as seen by contracts.
    pub closed spec fn spec_data(&self) -> Seq<u8> {
        self.data@
    }

    /// The read position, as seen by contracts.
    pub closed spec fn spec_pos(&self) -> int {
        self.pos as int
    }

    /// The nesting budget, as seen by contracts.
    pub closed spec fn spec_limit(&self) -> nat {
        self.limit as nat
    }

    /// A parser over `data` with the default nesting budget, positioned at
    /// the first byte.
    pub fn new(data: Vec<u8>) -> (r: Parser)
        ensures
            r.spec_data() == data@,
            r.spec_pos() == 0,
            r.spec_limit() == DEPTH_LIMIT as nat,
    {
        Parser { data, pos: 0, limit: DEPTH_LIMIT }
    }

    /// A parser over `data` with the nesting budget `limit`.
    pub fn with_limit(data: Vec<u8>, limit: u32) -> (r: Parser)
        ensures
            r.spec_data() == data@,
            r.spec_pos() == 0,
            r.spec_limit() == limit as nat,
    {
        Parser { data, pos: 0, limit }
    }

    /// How many bytes have been read; after an error, where the failure was
    /// found.
    pub fn position(&self) -> (r: usize)
        ensures
            r as int == self.spec_pos(),
    {
        self.pos
    }

    fn read_u8(&mut self) -> (r: Result<u8, NbtError>)
        ensures
            final(self).spec_data() == old(self).spec_data(),
            final(self).spec_limit() == old(self).spec_limit(),
            match r {
                Ok(b) => {
                    &&& old(self).spec_pos() + 1 <= old(self).spec_data().len()
                    &&& final(self).spec_pos() == old(self).spec_pos() + 1
                    &&& b == old(self).spec_data()[old(self).spec_pos()]
                },
                Err(e) => {
                    &&& e == NbtError::UnexpectedEnd
                    &&& old(self).spec_pos() + 1 > old(self).spec_data().len()
                    &&& *final(self) == *old(self)
                },
            },
    {
        if self.pos < self.data.len() {
            let b = self.data[self.pos];
            self.pos = self.pos + 1;
            Ok(b)
        } else {
            Err(NbtError::UnexpectedEnd)
        }
    }

    fn read_be_u16(&mut self) -> (r: Result<u16, NbtError>)
        ensures
            final(self).spec_data() == old(self).spec_data(),
            final(self).spec_limit() == old(self).spec_limit(),
            match r {
                Ok(v) => {
                    &&& old(self).spec_pos() + 2 <= old(self).spec_data().len()
                    &&& final(self).spec_pos() == old(self).spec_pos() + 2
                    &&& v as int == be16_at(old(self).spec_data(), old(self).spec_pos())
                },
                Err(e) => {
                    &&& e == NbtError::UnexpectedEnd
                    &&& old(self).spec_pos() + 2 > old(self).spec_data().len()
                    &&& *final(self) == *old(self)
                },
            },
    {
        if self.data.len() >= 2 && self.pos <= self.data.len() - 2 {
            let b0 = self.data[self.pos];
            let b1 = self.data[self.pos + 1];
            self.pos = self.pos + 2;
            Ok((b0 as u16) * 0x100 + (b1 as u16))
        } else {
            Err(NbtError::UnexpectedEnd)
        }
    }

    fn read_be_u32(&mut self) -> (r: Result<u32, NbtError>)
        ensures
            final(self).spec_data() == old(self).spec_data(),
            final(self).spec_limit() == old(self).spec_limit(),
            match r {
                Ok(v) => {
                    &&& old(self).spec_pos() + 4 <= old(self).spec_data().len()
                    &&& final(self).spec_pos() == old(self).spec_pos() + 4
                    &&& v as int == be32_at(old(self).spec_data(), old(self).spec_pos())
                },
                Err(e) => {
                    &&& e == NbtError::UnexpectedEnd
                    &&& old(self).spec_pos() + 4 > old(self).spec_data().len()
                    &&& *final(self) == *old(self)
                },
            },
    {
        if self.data.len() >= 4 && self.pos <= self.data.len() - 4 {
            let hi = match self.read_be_u16() {
                Ok(v) => v,
                Err(e) => { return Err(e); },
            };
            let lo = match self.read_be_u16() {
                Ok(v) => v,
                Err(e) => { return Err(e); },
            };
            Ok((hi as u32) * 0x10000 + (lo as u32))
        } else {
            Err(NbtError::UnexpectedEnd)
        }
    }

    fn read_be_u64(&mut self) -> (r: Result<u64, NbtError>)
        ensures
            final(self).spec_data() == old(self).spec_data(),
            final(self).spec_limit() == old(self).spec_limit(),
            match r {
                Ok(v) => {
                    &&& old(self).spec_pos() + 8 <= old(self).spec_data().len()
                    &&& final(self).spec_pos() == old(self).spec_pos() + 8
                    &&& v as int == be64_at(old(self).spec_data(), old(self).spec_pos())
                },
                Err(e) => {
                    &&& e == NbtError::UnexpectedEnd
                    &&& old(self).spec_pos() + 8 > old(self).spec_data().len()
                    &&& *final(self) == *old(self)
                },
            },
    {
        if self.data.len() >= 8 && self.pos <= self.data.len() - 8 {
            let hi = match self.read_be_u32() {
                Ok(v) => v,
                Err(e) => { return Err(e); },
            };
            let lo = match self.read_be_u32() {
                Ok(v) => v,
                Err(e) => { return Err(e); },
            };
            Ok((hi as u64) * 0x100000000 + (lo as u64))
        } else {
            Err(NbtError::UnexpectedEnd)
        }
    }

    fn read_bytes(&mut self, n: usize) -> (r: Result<Vec<u8>, NbtError>)
        ensures
            final(self).spec_data() == old(self).spec_data(),
            final(self).spec_limit() == old(self).spec_limit(),
            match r {
                Ok(v) => {
                    &&& old(self).spec_pos() + n <= old(self).spec_data().len()
                    &&& final(self).spec_pos() == old(self).spec_pos() + n
                    &&& v@ == old(self).spec_data().subrange(
                        old(self).spec_pos(),
                        old(self).spec_pos() + n,
                    )
                },
                Err(e) => {
                    &&& e == NbtError::UnexpectedEnd
                    &&& old(self).spec_pos() + n > old(self).spec_data().len()
                    &&& *final(self) == *old(self)
                },
            },
    {
        if self.data.len() >= n && self.pos <= self.data.len() - n {
            let sl = slice_subrange(self.data.as_slice(), self.pos, self.pos + n);
            let v = slice_to_vec(sl);
            self.pos = self.pos + n;
            Ok(v)
        } else {
            Err(NbtError::UnexpectedEnd)
        }
    }

    /// Reads a length-prefixed UTF-8 text field: the wire form of every name
    /// and of every string payload.
    pub fn read_name(&mut self) -> (r: Result<String, NbtError>)
        ensures
            final(self).spec_data() == old(self).spec_data(),
            final(self).spec_limit() == old(self).spec_limit(),
            match r {
                Ok(name) => {
                    &&& str_end(old(self).spec_data(), old(self).spec_pos()) == Ok::<
                        int,
                        NbtError,
                    >(final(self).spec_pos())
                    &&& old(self).spec_pos() < final(self).spec_pos() <= old(
                        self,
                    ).spec_data().len()
                    &&& name_bytes(name@) == old(self).spec_data().subrange(
                        old(self).spec_pos(),
                        final(self).spec_pos(),
                    )
                    &&& encode_utf8(name@).len() <= u16::MAX
                },
                Err(e) => str_end(old(self).spec_data(), old(self).spec_pos()) == Err::<
                    int,
                    NbtError,
                >(e),
            },
    {
        let ghost s = self.data@;
        let ghost i = self.pos as int;
        let n = match self.read_be_u16() {
            Ok(v) => v,
            Err(e) => { return Err(e); },
        };
        let bytes = match self.read_bytes(n as usize) {
            Ok(v) => v,
            Err(e) => { return Err(e); },
        };
        match string_from_utf8(bytes) {
            Some(name) => {
                proof {
                    lemma_be16_roundtrip(s, i);
                    assert(name_bytes(name@) =~= s.subrange(i, i + 2 + n));
                }
                Ok(name)
            },
            None => Err(NbtError::InvalidUtf8),
        }
    }

    /// What a decode step promises: the buffer and the budget are unchanged;
    /// on success, reading stopped exactly where the reader spec `end` says,
    /// the returned tag is well-formed and of kind `tt`, and the consumed
    /// bytes are exactly its encoding; on failure, the error is exactly the
    /// one `end` gives.
    pub open spec fn decodes_to(
        pre: Parser,
        post: Parser,
        r: Result<NBTTag, NbtError>,
        end: Result<int, NbtError>,
        tt: TagType,
    ) -> bool {
        &&& post.spec_data() == pre.spec_data()
        &&& post.spec_limit() == pre.spec_limit()
        &&& match r {
            Ok(t) => {
                &&& end == Ok::<int, NbtError>(post.spec_pos())
                &&& wf_tag(t)
                &&& tag_kind(t) == tt
                &&& pre.spec_pos() < post.spec_pos() <= pre.spec_data().len()
                &&& pre.spec_data().subrange(pre.spec_pos(), post.spec_pos()) == encode_payload(t)
            },
            Err(e) => end == Err::<int, NbtError>(e),
        }
    }

    fn decode_byte(&mut self) -> (r: Result<NBTTag, NbtError>)
        ensures
            Self::decodes_to(
                *old(self),
                *final(self),
                r,
                fixed_end(old(self).spec_data(), old(self).spec_pos(), 1),
                TagType::TAGByte,
            ),
            r matches Ok(t) ==> forall|dd: nat| fits_depth(t, dd),
    {
        let ghost s = self.data@;
        let ghost i = self.pos as int;
        match self.read_u8() {
            Ok(b) => {
                proof {
                    assert((b as i8) as u8 == b) by (bit_vector);
                    assert(s.subrange(i, i + 1) =~= seq![b]);
                }
                Ok(NBTTag::ByteTag(b as i8))
            },
            Err(e) => Err(e),
        }
    }

    fn decode_short(&mut self) -> (r: Result<NBTTag, NbtError>)
        ensures
            Self::decodes_to(
                *old(self),
                *final(self),
                r,
                fixed_end(old(self).spec_data(), old(self).spec_pos(), 2),
                TagType::TAGShort,
            ),
            r matches Ok(t) ==> forall|dd: nat| fits_depth(t, dd),
    {
        let ghost s = self.data@;
        let ghost i = self.pos as int;
        match self.read_be_u16() {
            Ok(v) => {
                proof {
                    assert((v as i16) as u16 == v) by (bit_vector);
                    lemma_be16_roundtrip(s, i);
                }
                Ok(NBTTag::ShortTag(v as i16))
            },
            Err(e) => Err(e),
        }
    }

    fn decode_int(&mut self) -> (r: Result<NBTTag, NbtError>)
        ensures
            Self::decodes_to(
                *old(self),
                *final(self),
                r,
                fixed_end(old(self).spec_data(), old(self).spec_pos(), 4),
                TagType::TAGInt,
            ),
            r matches Ok(t) ==> forall|dd: nat| fits_depth(t, dd),
    {
        let ghost s = self.data@;
        let ghost i = self.pos as int;
        match self.read_be_u32() {
            Ok(v) => {
                proof {
                    assert((v as i32) as u32 == v) by (bit_vector);
                    lemma_be32_roundtrip(s, i);
                }
                Ok(NBTTag::IntTag(v as i32))
            },
            Err(e) => Err(e),
        }
    }

    fn decode_long(&mut self) -> (r: Result<NBTTag, NbtError>)
        ensures
            Self::decodes_to(
                *old(self),
                *final(self),
                r,
                fixed_end(old(self).spec_data(), old(self).spec_pos(), 8),
                TagType::TAGLong,
            ),
            r matches Ok(t) ==> forall|dd: nat| fits_depth(t, dd),
    {
        let ghost s = self.data@;
        let ghost i = self.pos as int;
        match self.read_be_u64() {
            Ok(v) => {
                proof {
                    assert((v as i64) as u64 == v) by (bit_vector);
                    lemma_be64_roundtrip(s, i);
                }
                Ok(NBTTag::LongTag(v as i64))
            },
            Err(e) => Err(e),
        }
    }

    fn decode_float(&mut self) -> (r: Result<NBTTag, NbtError>)
        ensures
            Self::decodes_to(
                *old(self),
                *final(self),
                r,
                fixed_end(old(self).spec_data(), old(self).spec_pos(), 4),
                TagType::TAGFloat,
            ),
            r matches Ok(t) ==> forall|dd: nat| fits_depth(t, dd),
    {
        let ghost s = self.data@;
        let ghost i = self.pos as int;
        match self.read_be_u32() {
            Ok(v) => {
                proof {
                    lemma_be32_roundtrip(s, i);
                }
                Ok(NBTTag::FloatTag(v))
            },
            Err(e) => Err(e),
        }
    }

    fn decode_double(&mut self) -> (r: Result<NBTTag, NbtError>)
        ensures
            Self::decodes_to(
                *old(self),
                *final(self),
                r,
                fixed_end(old(self).spec_data(), old(self).spec_pos(), 8),
                TagType::TAGDouble,
            ),
            r matches Ok(t) ==> forall|dd: nat| fits_depth(t, dd),
    {
        let ghost s = self.data@;
        let ghost i = self.pos as int;
        match self.read_be_u64() {
            Ok(v) => {
                proof {
                    lemma_be64_roundtrip(s, i);
                }
                Ok(NBTTag::DoubleTag(v))
            },
            Err(e) => Err(e),
        }
    }

    fn decode_bytearray(&mut self) -> (r: Result<NBTTag, NbtError>)
        ensures
            Self::decodes_to(
                *old(self),
                *final(self),
                r,
                bytearray_end(old(self).spec_data(), old(self).spec_pos()),
                TagType::TAGByteArray,
            ),
            r matches Ok(t) ==> forall|dd: nat| fits_depth(t, dd),
    {
        let ghost s = self.data@;
        let ghost i = self.pos as int;
        let n = match self.read_be_u32() {
            Ok(v) => v,
            Err(e) => { return Err(e); },
        };
        match self.read_bytes(n as usize) {
            Ok(v) => {
                proof {
                    lemma_be32_roundtrip(s, i);
                    assert(s.subrange(i, i + 4 + n as int) =~= s.subrange(i, i + 4) + s.subrange(
                        i + 4,
                        i + 4 + n as int,
                    ));
                }
                Ok(NBTTag::ByteArrayTag(v))
            },
            Err(e) => Err(e),
        }
    }

    fn decode_string(&mut self) -> (r: Result<NBTTag, NbtError>)
        ensures
            Self::decodes_to(
                *old(self),
                *final(self),
                r,
                str_end(old(self).spec_data(), old(self).spec_pos()),
                TagType::TAGString,
            ),
            r matches Ok(t) ==> forall|dd: nat| fits_depth(t, dd),
    {
        match self.read_name() {
            Ok(st) => Ok(NBTTag::StringTag(st)),
            Err(e) => Err(e),
        }
    }

    fn decode_list(&mut self, depth: u32) -> (r: Result<NBTTag, NbtError>)
        ensures
            Self::decodes_to(
                *old(self),
                *final(self),
                r,
                list_end(old(self).spec_data(), old(self).spec_pos(), depth as nat),
                TagType::TAGList,
            ),
            r matches Ok(t) ==> fits_depth(t, depth as nat),
        decreases depth, 1int,
    {
        let ghost s = self.data@;
        let ghost i = self.pos as int;
        if depth == 0 {
            return Err(NbtError::DepthExceeded);
        }
        let eb = match self.read_u8() {
            Ok(b) => b,
            Err(e) => { return Err(e); },
        };
        let et = match TagType::resolve(eb) {
            Ok(t) => t,
            Err(e) => { return Err(e); },
        };
        if et == TagType::TAGEnd {
            return Err(NbtError::ListTypeMismatch);
        }
        let count = match self.read_be_u32() {
            Ok(v) => v,
            Err(e) => { return Err(e); },
        };
        match self.decode_elems(et, count, depth - 1) {
            Ok(elems) => {
                let ghost j = self.pos as int;
                proof {
                    lemma_be32_roundtrip(s, i + 1);
                    assert(s.subrange(i, j) =~= seq![s[i]] + s.subrange(i + 1, i + 5) + s.subrange(
                        i + 5,
                        j,
                    ));
                    assert(fits_depth(NBTTag::ListTag(et, count as usize, elems), depth as nat));
                }
                Ok(NBTTag::ListTag(et, count as usize, elems))
            },
            Err(e) => Err(e),
        }
    }

    /// Decodes the payload of a tag of kind `tt` at the current position,
    /// with `depth` levels of list and compound nesting allowed below it.
    ///
    /// On success, the bytes consumed are exactly the encoding of the
    /// returned tag, the tag is well-formed and of kind `tt`, and reading
    /// stopped where [`payload_end`] says the payload ends. On failure, the
    /// error is exactly the one [`payload_end`] gives for this input.
    pub fn decode(&mut self, tt: TagType, depth: u32) -> (r: Result<NBTTag, NbtError>)
        ensures
            Self::decodes_to(
                *old(self),
                *final(self),
                r,
                payload_end(old(self).spec_data(), old(self).spec_pos(), tt, depth as nat),
                tt,
            ),
            r matches Ok(t) ==> fits_depth(t, depth as nat),
        decreases depth, 2int,
    {
        match tt {
            TagType::TAGEnd => Err(NbtError::UnknownTagType),
            TagType::TAGUnknown => Err(NbtError::UnknownTagType),
            TagType::TAGByte => self.decode_byte(),
            TagType::TAGShort => self.decode_short(),
            TagType::TAGInt => self.decode_int(),
            TagType::TAGLong => self.decode_long(),
            TagType::TAGFloat => self.decode_float(),
            TagType::TAGDouble => self.decode_double(),
            TagType::TAGByteArray => self.decode_bytearray(),
            TagType::TAGString => self.decode_string(),
            TagType::TAGList => self.decode_list(depth),
            TagType::TAGCompound => {
                if depth == 0 {
                    return Err(NbtError::DepthExceeded);
                }
                match self.decode_children(depth - 1) {
                    Ok(cs) => {
                        proof {
                            assert(fits_depth(NBTTag::CompoundTag(cs), depth as nat));
                        }
                        Ok(NBTTag::CompoundTag(cs))
                    },
                    Err(e) => Err(e),
                }
            },
        }
    }

    /// Decodes `count` consecutive payloads of kind `et`: the elements of a
    /// list whose header declared that kind and count.
    #[verifier::loop_isolation(false)]
    fn decode_elems(&mut self, et: TagType, count: u32, depth: u32) -> (r: Result<
        Vec<NBTTag>,
        NbtError,
    >)
        requires
            old(self).spec_pos() <= old(self).spec_data().len(),
        ensures
            final(self).spec_data() == old(self).spec_data(),
            final(self).spec_limit() == old(self).spec_limit(),
            match r {
                Ok(ts) => {
                    &&& elems_end(
                        old(self).spec_data(),
                        old(self).spec_pos(),
                        et,
                        count as nat,
                        depth as nat,
                    ) == Ok::<int, NbtError>(final(self).spec_pos())
                    &&& old(self).spec_pos() <= final(self).spec_pos() <= old(
                        self,
                    ).spec_data().len()
                    &&& ts@.len() == count as nat
                    &&& forall|q: int|
                        0 <= q < ts@.len() ==> wf_tag(#[trigger] ts@[q]) && tag_kind(ts@[q]) == et
                            && fits_depth(ts@[q], depth as nat)
                    &&& old(self).spec_data().subrange(
                        old(self).spec_pos(),
                        final(self).spec_pos(),
                    ) == encode_elems(ts@)
                },
                Err(e) => elems_end(
                    old(self).spec_data(),
                    old(self).spec_pos(),
                    et,
                    count as nat,
                    depth as nat,
                ) == Err::<int, NbtError>(e),
            },
        decreases depth, 3int,
    {
        let ghost s = self.data@;
        let ghost i0 = self.pos as int;
        let ghost d = depth as nat;
        let ghost lim = self.limit;
        let mut elems: Vec<NBTTag> = Vec::new();
        let mut k: u32 = 0;
        while k < count
            invariant
                self.spec_data() == s,
                self.spec_limit() == lim as nat,
                k <= count,
                elems@.len() == k as nat,
                i0 <= self.spec_pos() <= s.len(),
                forall|q: int|
                    0 <= q < elems@.len() ==> wf_tag(#[trigger] elems@[q]) && tag_kind(elems@[q])
                        == et && fits_depth(elems@[q], d),
                s.subrange(i0, self.spec_pos()) == encode_elems(elems@),
                elems_end(s, i0, et, count as nat, d) == elems_end(
                    s,
                    self.spec_pos(),
                    et,
                    (count - k) as nat,
                    d,
                ),
            decreases count - k,
        {
            let ghost p0 = self.pos as int;
            let r = self.decode(et, depth);
            match r {
                Ok(t) => {
                    let ghost j = self.pos as int;
                    proof {
                        lemma_encode_elems_snoc(elems@, t);
                        assert(s.subrange(i0, j) =~= s.subrange(i0, p0) + s.subrange(p0, j));
                    }
                    elems.push(t);
                    k = k + 1;
                },
                Err(e) => {
                    return Err(e);
                },
            }
        }
        Ok(elems)
    }

    /// Decodes a compound's children: named frames read in order until the
    /// first bare `TAGEnd` byte at this nesting level, which is consumed and
    /// not stored.
    #[verifier::loop_isolation(false)]
    fn decode_children(&mut self, depth: u32) -> (r: Result<Vec<NamedTag>, NbtError>)
        ensures
            final(self).spec_data() == old(self).spec_data(),
            final(self).spec_limit() == old(self).spec_limit(),
            match r {
                Ok(cs) => {
                    &&& children_end(old(self).spec_data(), old(self).spec_pos(), depth as nat)
                        == Ok::<int, NbtError>(final(self).spec_pos())
                    &&& old(self).spec_pos() < final(self).spec_pos() <= old(
                        self,
                    ).spec_data().len()
                    &&& forall|q: int|
                        0 <= q < cs@.len() ==> wf_child(#[trigger] cs@[q]) && fits_depth(
                            cs@[q].value,
                            depth as nat,
                        )
                    &&& old(self).spec_data().subrange(
                        old(self).spec_pos(),
                        final(self).spec_pos(),
                    ) == encode_children(cs@) + seq![0u8]
                },
                Err(e) => children_end(old(self).spec_data(), old(self).spec_pos(), depth as nat)
                    == Err::<int, NbtError>(e),
            },
        decreases depth, 3int,
    {
        let ghost s = self.data@;
        let ghost i0 = self.pos as int;
        let ghost d = depth as nat;
        let ghost lim = self.limit;
        if self.data.len() <= self.pos {
            return Err(NbtError::UnexpectedEnd);
        }
        let mut children: Vec<NamedTag> = Vec::new();
        loop
            invariant
                self.spec_data() == s,
                self.spec_limit() == lim as nat,
                i0 <= self.spec_pos() <= s.len(),
                i0 < s.len(),
                forall|q: int|
                    0 <= q < children@.len() ==> wf_child(#[trigger] children@[q]) && fits_depth(
                        children@[q].value,
                        d,
                    ),
                s.subrange(i0, self.spec_pos()) == encode_children(children@),
                children_end(s, i0, d) == children_end(s, self.spec_pos(), d),
            decreases s.len() - self.spec_pos(),
        {
            let ghost p0 = self.pos as int;
            let b = match self.read_u8() {
                Ok(b) => b,
                Err(e) => {
                    return Err(e);
                },
            };
            if b == 0 {
                proof {
                    assert(s.subrange(i0, p0 + 1) =~= s.subrange(i0, p0) + seq![s[p0]]);
                    assert(seq![s[p0]] =~= seq![0u8]);
                }
                return Ok(children);
            }
            let tt = match TagType::resolve(b) {
                Ok(t) => t,
                Err(e) => {
                    return Err(e);
                },
            };
            let name = match self.read_name() {
                Ok(n) => n,
                Err(e) => {
                    return Err(e);
                },
            };
            let ghost m = self.pos as int;
            let value = match self.decode(tt, depth) {
                Ok(v) => v,
                Err(e) => {
                    return Err(e);
                },
            };
            let ghost j = self.pos as int;
            let child = NamedTag::new(name, value);
            proof {
                lemma_encode_children_snoc(children@, child);
                assert(s.subrange(p0, j) =~= seq![s[p0]] + s.subrange(p0 + 1, m) + s.subrange(
                    m,
                    j,
                ));
                assert(s.subrange(p0, j) == named_frame(child));
                assert(s.subrange(i0, j) =~= s.subrange(i0, p0) + s.subrange(p0, j));
            }
            children.push(child);
        }
    }

    /// Parses one whole named tag from the current position: the only entry
    /// point the format allows is a named compound.
    ///
    /// On success, the returned named tag is well-formed, its value is a
    /// compound, and the bytes consumed are exactly its frame: kind byte,
    /// name field, payload. On failure, the error is exactly the one
    /// [`root_end`] gives for this input: `MalformedRoot` when the first
    /// byte names a kind other than compound, and otherwise whatever
    /// reading the frame raises.
    pub fn parse(&mut self) -> (r: Result<NamedTag, NbtError>)
        ensures
            final(self).spec_data() == old(self).spec_data(),
            final(self).spec_limit() == old(self).spec_limit(),
            match r {
                Ok(nt) => {
                    &&& root_end(
                        old(self).spec_data(),
                        old(self).spec_pos(),
                        old(self).spec_limit(),
                    ) == Ok::<int, NbtError>(final(self).spec_pos())
                    &&& wf_child(nt)
                    &&& tag_kind(nt.value) == TagType::TAGCompound
                    &&& fits_depth(nt.value, old(self).spec_limit())
                    &&& old(self).spec_pos() < final(self).spec_pos() <= old(
                        self,
                    ).spec_data().len()
                    &&& old(self).spec_data().subrange(
                        old(self).spec_pos(),
                        final(self).spec_pos(),
                    ) == named_frame(nt)
                },
                Err(e) => root_end(
                    old(self).spec_data(),
                    old(self).spec_pos(),
                    old(self).spec_limit(),
                ) == Err::<int, NbtError>(e),
            },
    {
        let ghost s = self.data@;
        let ghost i = self.pos as int;
        let b = match self.read_u8() {
            Ok(b) => b,
            Err(e) => { return Err(e); },
        };
        let tt = match TagType::resolve(b) {
            Ok(t) => t,
            Err(e) => { return Err(e); },
        };
        if tt != TagType::TAGCompound {
            return Err(NbtError::MalformedRoot);
        }
        let name = match self.read_name() {
            Ok(n) => n,
            Err(e) => { return Err(e); },
        };
        let ghost m = self.pos as int;
        let limit = self.limit;
        let value = match self.decode(TagType::TAGCompound, limit) {
            Ok(v) => v,
            Err(e) => { return Err(e); },
        };
        let ghost j = self.pos as int;
        let root = NamedTag::new(name, value);
        proof {
            assert(s.subrange(i, j) =~= seq![s[i]] + s.subrange(i + 1, m) + s.subrange(m, j));
            assert(s.subrange(i, j) == named_frame(root));
        }
        Ok(root)
    }
}

} // verus!
