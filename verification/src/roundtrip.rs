//! The round trip: the reader accepts every encoding the encoder can
//! produce. Together with the decoder's contracts, which say that what it
//! consumes is always the encoding of what it returns, this closes the
//! circle: a byte string is accepted exactly when it carries the encoding
//! of a well-formed tree that fits the nesting budget.

use vstd::prelude::*;
use vstd::utf8::{encode_utf8, encode_utf8_valid_utf8};
use crate::tag::{
    TagType, NBTTag, NamedTag, NbtError, type_byte, tag_type_from_byte, is_payload_kind, tag_kind,
    wf_tag, wf_child, fits_depth,
};
use crate::wire::{
    be16_at, be32_at, be64_at, u16_be_bytes, u32_be_bytes, u64_be_bytes, name_bytes,
    encode_payload, encode_elems, encode_children, named_frame, str_end, payload_end, elems_end,
    children_end, root_end,
};

verus! {

broadcast use vstd::seq::group_seq_axioms;

/// Reading back the two big-endian bytes of a 16-bit value gives the value.
proof fn lemma_be16_inverse(s: Seq<u8>, i: int, x: u16)
    requires
        0 <= i,
        i + 2 <= s.len(),
        s.subrange(i, i + 2) == u16_be_bytes(x),
    ensures
        be16_at(s, i) == x,
{
    assert(s[i] == u16_be_bytes(x)[0]);
    assert(s[i + 1] == u16_be_bytes(x)[1]);
}

/// Reading back the four big-endian bytes of a 32-bit value gives the value.
proof fn lemma_be32_inverse(s: Seq<u8>, i: int, x: u32)
    requires
        0 <= i,
        i + 4 <= s.len(),
        s.subrange(i, i + 4) == u32_be_bytes(x),
    ensures
        be32_at(s, i) == x,
{
    assert forall|k: int| 0 <= k < 4 implies s[i + k] == u32_be_bytes(x)[k] by {
        assert(s.subrange(i, i + 4)[k] == s[i + k]);
    }
    assert(s.subrange(i, i + 2) =~= u16_be_bytes((x / 0x10000) as u16));
    assert forall|k: int| 0 <= k < 2 implies #[trigger] s.subrange(i + 2, i + 4)[k] == u16_be_bytes(
        (x % 0x10000) as u16,
    )[k] by {
        assert(s.subrange(i, i + 4)[k + 2] == s[i + 2 + k]);
        assert(s.subrange(i + 2, i + 4)[k] == s[i + 2 + k]);
    }
    assert(s.subrange(i + 2, i + 4) =~= u16_be_bytes((x % 0x10000) as u16));
    lemma_be16_inverse(s, i, (x / 0x10000) as u16);
    lemma_be16_inverse(s, i + 2, (x % 0x10000) as u16);
}

/// Reading back the eight big-endian bytes of a 64-bit value gives the value.
proof fn lemma_be64_inverse(s: Seq<u8>, i: int, x: u64)
    requires
        0 <= i,
        i + 8 <= s.len(),
        s.subrange(i, i + 8) == u64_be_bytes(x),
    ensures
        be64_at(s, i) == x,
{
    assert forall|k: int| 0 <= k < 8 implies s[i + k] == u64_be_bytes(x)[k] by {
        assert(s.subrange(i, i + 8)[k] == s[i + k]);
    }
    assert(s.subrange(i, i + 4) =~= u32_be_bytes((x / 0x100000000) as u32));
    assert forall|k: int| 0 <= k < 4 implies #[trigger] s.subrange(i + 4, i + 8)[k] == u32_be_bytes(
        (x % 0x100000000) as u32,
    )[k] by {
        assert(s.subrange(i, i + 8)[k + 4] == s[i + 4 + k]);
        assert(s.subrange(i + 4, i + 8)[k] == s[i + 4 + k]);
    }
    assert(s.subrange(i + 4, i + 8) =~= u32_be_bytes((x % 0x100000000) as u32));
    lemma_be32_inverse(s, i, (x / 0x100000000) as u32);
    lemma_be32_inverse(s, i + 4, (x % 0x100000000) as u32);
}

/// The kind byte of a payload kind resolves back to the kind, and is never
/// the `TAGEnd` terminator byte.
proof fn lemma_type_byte_inverse(tt: TagType)
    requires
        is_payload_kind(tt),
    ensures
        tag_type_from_byte(type_byte(tt)) == Some(tt),
        type_byte(tt) != 0,
{
}

/// The reader accepts every name field the encoder can produce.
proof fn lemma_str_accepts(s: Seq<u8>, i: int, name: Seq<char>)
    requires
        0 <= i,
        i + name_bytes(name).len() <= s.len(),
        s.subrange(i, i + name_bytes(name).len()) == name_bytes(name),
        encode_utf8(name).len() <= u16::MAX,
    ensures
        str_end(s, i) == Ok::<int, NbtError>(i + name_bytes(name).len()),
{
    let l = encode_utf8(name).len() as int;
    assert(name_bytes(name).len() == 2 + l);
    assert forall|k: int| 0 <= k < 2 + l implies s[i + k] == name_bytes(name)[k] by {
        assert(s.subrange(i, i + 2 + l)[k] == s[i + k]);
    }
    assert(s.subrange(i, i + 2) =~= u16_be_bytes(encode_utf8(name).len() as u16));
    lemma_be16_inverse(s, i, encode_utf8(name).len() as u16);
    assert(be16_at(s, i) == l);
    assert forall|k: int| 0 <= k < l implies #[trigger] s.subrange(i + 2, i + 2 + l)[k] == encode_utf8(
        name,
    )[k] by {
        assert(s.subrange(i, i + 2 + l)[k + 2] == s[i + 2 + k]);
        assert(s.subrange(i + 2, i + 2 + l)[k] == s[i + 2 + k]);
    }
    assert(s.subrange(i + 2, i + 2 + l) =~= encode_utf8(name));
    encode_utf8_valid_utf8(name);
}

/// Splits knowledge of a concatenation: when the bytes at `i` are `a + b`,
/// the bytes at `i` are `a` and the bytes right after them are `b`.
proof fn lemma_prefix_piece(s: Seq<u8>, i: int, a: Seq<u8>, b: Seq<u8>)
    requires
        0 <= i,
        i + a.len() + b.len() <= s.len(),
        s.subrange(i, i + a.len() + b.len()) == a + b,
    ensures
        s.subrange(i, i + a.len()) == a,
        s.subrange(i + a.len(), i + a.len() + b.len()) == b,
{
    assert forall|k: int| 0 <= k < a.len() implies #[trigger] s.subrange(i, i + a.len())[k]
        == a[k] by {
        assert(s.subrange(i, i + a.len() + b.len())[k] == s[i + k]);
        assert(s.subrange(i, i + a.len())[k] == s[i + k]);
        assert((a + b)[k] == a[k]);
    }
    assert(s.subrange(i, i + a.len()) =~= a);
    assert forall|k: int| 0 <= k < b.len() implies #[trigger] s.subrange(
        i + a.len(),
        i + a.len() + b.len(),
    )[k] == b[k] by {
        assert(s.subrange(i, i + a.len() + b.len())[k + a.len()] == s[i + a.len() + k]);
        assert(s.subrange(i + a.len(), i + a.len() + b.len())[k] == s[i + a.len() + k]);
        assert((a + b)[k + a.len()] == b[k]);
    }
    assert(s.subrange(i + a.len(), i + a.len() + b.len()) =~= b);
}

/// The reader accepts every payload the encoder can produce: where the
/// bytes at `i` are the encoding of a well-formed tag that fits the nesting
/// budget, reading a payload of that tag's kind succeeds and consumes
/// exactly the encoding.
pub proof fn lemma_payload_accepts(s: Seq<u8>, i: int, t: NBTTag, d: nat)
    requires
        wf_tag(t),
        fits_depth(t, d),
        0 <= i,
        i + encode_payload(t).len() <= s.len(),
        s.subrange(i, i + encode_payload(t).len()) == encode_payload(t),
    ensures
        payload_end(s, i, tag_kind(t), d) == Ok::<int, NbtError>(i + encode_payload(t).len()),
    decreases t,
{
    match t {
        NBTTag::ByteTag(_) => {},
        NBTTag::ShortTag(_) => {},
        NBTTag::IntTag(_) => {},
        NBTTag::LongTag(_) => {},
        NBTTag::FloatTag(_) => {},
        NBTTag::DoubleTag(_) => {},
        NBTTag::ByteArrayTag(v) => {
            let lb = u32_be_bytes(v@.len() as u32);
            lemma_prefix_piece(s, i, lb, v@);
            lemma_be32_inverse(s, i, v@.len() as u32);
        },
        NBTTag::StringTag(sv) => {
            lemma_str_accepts(s, i, sv@);
        },
        NBTTag::ListTag(et, n, elems) => {
            let tb = seq![type_byte(et)];
            let cb = u32_be_bytes(n as u32);
            let eb = encode_elems(elems@);
            assert(encode_payload(t) =~= tb + (cb + eb));
            lemma_prefix_piece(s, i, tb, cb + eb);
            lemma_prefix_piece(s, i + 1, cb, eb);
            assert(s.subrange(i, i + 1)[0] == s[i]);
            assert(s[i] == type_byte(et));
            lemma_type_byte_inverse(et);
            lemma_be32_inverse(s, i + 1, n as u32);
            assert(be32_at(s, i + 1) as nat == elems@.len());
            lemma_elems_accept(s, i + 5, elems@, et, (d - 1) as nat);
        },
        NBTTag::CompoundTag(cs) => {
            lemma_children_accept(s, i, cs@, (d - 1) as nat);
        },
    }
}

/// The reader accepts the encodings of consecutive list elements, counting
/// them off exactly.
proof fn lemma_elems_accept(s: Seq<u8>, i: int, ts: Seq<NBTTag>, et: TagType, d: nat)
    requires
        forall|k: int|
            0 <= k < ts.len() ==> wf_tag(#[trigger] ts[k]) && tag_kind(ts[k]) == et && fits_depth(
                ts[k],
                d,
            ),
        0 <= i,
        i + encode_elems(ts).len() <= s.len(),
        s.subrange(i, i + encode_elems(ts).len()) == encode_elems(ts),
    ensures
        elems_end(s, i, et, ts.len(), d) == Ok::<int, NbtError>(i + encode_elems(ts).len()),
    decreases ts,
{
    if ts.len() == 0 {
        assert(encode_elems(ts).len() == 0);
    } else {
        let p0 = encode_payload(ts[0]);
        let rest = encode_elems(ts.drop_first());
        lemma_prefix_piece(s, i, p0, rest);
        lemma_payload_accepts(s, i, ts[0], d);
        assert forall|k: int| 0 <= k < ts.drop_first().len() implies wf_tag(
            #[trigger] ts.drop_first()[k],
        ) && tag_kind(ts.drop_first()[k]) == et && fits_depth(ts.drop_first()[k], d) by {
            assert(ts.drop_first()[k] == ts[k + 1]);
        }
        lemma_elems_accept(s, i + p0.len(), ts.drop_first(), et, d);
        assert(ts.drop_first().len() == ts.len() - 1);
    }
}

/// The reader accepts the encodings of a compound's child frames, scanning
/// frame by frame until the closing `TAGEnd` byte.
proof fn lemma_children_accept(s: Seq<u8>, i: int, cs: Seq<NamedTag>, d: nat)
    requires
        forall|k: int|
            0 <= k < cs.len() ==> wf_child(#[trigger] cs[k]) && fits_depth(cs[k].value, d),
        0 <= i,
        i + encode_children(cs).len() + 1 <= s.len(),
        s.subrange(i, i + encode_children(cs).len() + 1) == encode_children(cs) + seq![0u8],
    ensures
        children_end(s, i, d) == Ok::<int, NbtError>(i + encode_children(cs).len() + 1),
    decreases cs,
{
    if cs.len() == 0 {
        assert(encode_children(cs).len() == 0);
        assert(s.subrange(i, i + 1)[0] == s[i]);
        assert(s[i] == (encode_children(cs) + seq![0u8])[0]);
        assert(s[i] == 0);
    } else {
        let f = named_frame(cs[0]);
        let rest = encode_children(cs.drop_first()) + seq![0u8];
        assert(encode_children(cs) + seq![0u8] =~= f + rest);
        assert(i + f.len() + rest.len() == i + encode_children(cs).len() + 1);
        lemma_prefix_piece(s, i, f, rest);
        let tb = seq![type_byte(tag_kind(cs[0].value))];
        let nb = name_bytes(cs[0].name@);
        let pb = encode_payload(cs[0].value);
        assert(f =~= tb + (nb + pb));
        assert(i + tb.len() + (nb + pb).len() == i + f.len());
        lemma_prefix_piece(s, i, tb, nb + pb);
        lemma_prefix_piece(s, i + 1, nb, pb);
        assert(s.subrange(i, i + 1)[0] == s[i]);
        assert(s[i] == type_byte(tag_kind(cs[0].value)));
        lemma_type_byte_inverse(tag_kind(cs[0].value));
        lemma_str_accepts(s, i + 1, cs[0].name@);
        lemma_payload_accepts(s, i + 1 + nb.len(), cs[0].value, d);
        assert forall|k: int| 0 <= k < cs.drop_first().len() implies wf_child(
            #[trigger] cs.drop_first()[k],
        ) && fits_depth(cs.drop_first()[k].value, d) by {
            assert(cs.drop_first()[k] == cs[k + 1]);
        }
        lemma_children_accept(s, i + f.len(), cs.drop_first(), d);
    }
}

/// The parser accepts every root frame the encoder can produce: an input
/// whose bytes at `i` are the frame of a well-formed named compound that
/// fits the nesting budget parses successfully, consuming exactly that
/// frame, whatever follows it.
pub proof fn lemma_root_accepts(s: Seq<u8>, i: int, c: NamedTag, limit: nat)
    requires
        wf_child(c),
        tag_kind(c.value) == TagType::TAGCompound,
        fits_depth(c.value, limit),
        0 <= i,
        i + named_frame(c).len() <= s.len(),
        s.subrange(i, i + named_frame(c).len()) == named_frame(c),
    ensures
        root_end(s, i, limit) == Ok::<int, NbtError>(i + named_frame(c).len()),
{
    let f = named_frame(c);
    let tb = seq![type_byte(tag_kind(c.value))];
    let nb = name_bytes(c.name@);
    let pb = encode_payload(c.value);
    assert(f =~= tb + (nb + pb));
    assert(i + tb.len() + (nb + pb).len() == i + f.len());
    lemma_prefix_piece(s, i, tb, nb + pb);
    lemma_prefix_piece(s, i + 1, nb, pb);
    assert(s.subrange(i, i + 1)[0] == s[i]);
    assert(s[i] == type_byte(tag_kind(c.value)));
    lemma_type_byte_inverse(tag_kind(c.value));
    lemma_str_accepts(s, i + 1, c.name@);
    lemma_payload_accepts(s, i + 1 + nb.len(), c.value, limit);
}

} // verus!
