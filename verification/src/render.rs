//! The pretty-printer: a deterministic text form of a tag tree.
//!
//! Each tag renders as one header line, `<kind>("<name>"): <summary>`; list
//! and compound tags follow it with a brace-delimited block of their
//! children, indented one step further. List elements are unnamed, as they
//! are on the wire. The text produced for a tree is given exactly by
//! [`render_text`], so equal trees always render to equal text.
//!
//! Float and double tags carry raw IEEE 754 bit patterns, and render them as
//! hexadecimal bit patterns rather than as decimal fractions.

use vstd::prelude::*;
use crate::tag::{TagType, NBTTag, NamedTag};

verus! {

// ---------------------------------------------------------------------------
// Text of numbers.
// ---------------------------------------------------------------------------

/// The character of one decimal digit.
pub open spec fn dec_digit_text(d: nat) -> Seq<char> {
    if d == 0 {
        ("0")@
    } else if d == 1 {
        ("1")@
    } else if d == 2 {
        ("2")@
    } else if d == 3 {
        ("3")@
    } else if d == 4 {
        ("4")@
    } else if d == 5 {
        ("5")@
    } else if d == 6 {
        ("6")@
    } else if d == 7 {
        ("7")@
    } else if d == 8 {
        ("8")@
    } else {
        ("9")@
    }
}

/// The decimal text of a natural number, without sign or padding.
pub open spec fn dec_nat_text(n: nat) -> Seq<char>
    decreases n,
{
    if n < 10 {
        dec_digit_text(n)
    } else {
        dec_nat_text(n / 10) + dec_digit_text(n % 10)
    }
}

/// The decimal text of an integer: a leading minus sign when negative.
pub open spec fn int_text(v: int) -> Seq<char> {
    if v < 0 {
        ("-")@ + dec_nat_text((-v) as nat)
    } else {
        dec_nat_text(v as nat)
    }
}

/// The character of one lower-case hexadecimal digit.
pub open spec fn hex_digit_text(d: nat) -> Seq<char> {
    if d == 0 {
        ("0")@
    } else if d == 1 {
        ("1")@
    } else if d == 2 {
        ("2")@
    } else if d == 3 {
        ("3")@
    } else if d == 4 {
        ("4")@
    } else if d == 5 {
        ("5")@
    } else if d == 6 {
        ("6")@
    } else if d == 7 {
        ("7")@
    } else if d == 8 {
        ("8")@
    } else if d == 9 {
        ("9")@
    } else if d == 10 {
        ("a")@
    } else if d == 11 {
        ("b")@
    } else if d == 12 {
        ("c")@
    } else if d == 13 {
        ("d")@
    } else if d == 14 {
        ("e")@
    } else {
        ("f")@
    }
}

/// The lower-case hexadecimal text of a natural number.
pub open spec fn hex_nat_text(n: nat) -> Seq<char>
    decreases n,
{
    if n < 16 {
        hex_digit_text(n)
    } else {
        hex_nat_text(n / 16) + hex_digit_text(n % 16)
    }
}

/// The text of an IEEE 754 bit pattern: `0x` and its hexadecimal digits.
pub open spec fn bits_text(n: nat) -> Seq<char> {
    ("0x")@ + hex_nat_text(n)
}

/// The items of a byte array from index `k` on: decimal values separated by
/// commas.
pub open spec fn bytes_items_text(v: Seq<u8>, k: int) -> Seq<char>
    decreases v.len() - k,
{
    if k < 0 || k >= v.len() {
        Seq::empty()
    } else if k == v.len() - 1 {
        dec_nat_text(v[k] as nat)
    } else {
        dec_nat_text(v[k] as nat) + (", ")@ + bytes_items_text(v, k + 1)
    }
}

/// The text of a byte array payload: its items between square brackets.
pub open spec fn bytes_text(v: Seq<u8>) -> Seq<char> {
    ("[")@ + bytes_items_text(v, 0) + ("]")@
}

// ---------------------------------------------------------------------------
// Text of tags.
// ---------------------------------------------------------------------------

/// The name each tag kind renders under.
pub open spec fn type_name_text(tt: TagType) -> Seq<char> {
    match tt {
        TagType::TAGEnd => ("TAG_End")@,
        TagType::TAGByte => ("TAG_Byte")@,
        TagType::TAGShort => ("TAG_Short")@,
        TagType::TAGInt => ("TAG_Int")@,
        TagType::TAGLong => ("TAG_Long")@,
        TagType::TAGFloat => ("TAG_Float")@,
        TagType::TAGDouble => ("TAG_Double")@,
        TagType::TAGByteArray => ("TAG_ByteArray")@,
        TagType::TAGString => ("TAG_String")@,
        TagType::TAGList => ("TAG_List")@,
        TagType::TAGCompound => ("TAG_Compound")@,
        TagType::TAGUnknown => ("TAG_Unknown")@,
    }
}

/// The name part of a header: empty for unnamed tags, `("<name>")` for
/// named ones.
pub open spec fn name_part_text(name: Option<Seq<char>>) -> Seq<char> {
    match name {
        None => Seq::empty(),
        Some(nm) => ("(\"")@ + nm + ("\")")@,
    }
}

/// The text of a tag: its header line, prefixed by `pad`, and for list and
/// compound tags a brace block whose children are prefixed by `pad` and one
/// further indent step.
pub open spec fn render_text(t: NBTTag, name: Option<Seq<char>>, pad: Seq<char>) -> Seq<char>
    decreases t, 0nat,
{
    match t {
        NBTTag::ByteTag(v) => pad + ("TAG_Byte")@ + name_part_text(name) + (": ")@ + int_text(
            v as int,
        ),
        NBTTag::ShortTag(v) => pad + ("TAG_Short")@ + name_part_text(name) + (": ")@ + int_text(
            v as int,
        ),
        NBTTag::IntTag(v) => pad + ("TAG_Int")@ + name_part_text(name) + (": ")@ + int_text(
            v as int,
        ),
        NBTTag::LongTag(v) => pad + ("TAG_Long")@ + name_part_text(name) + (": ")@ + int_text(
            v as int,
        ),
        NBTTag::FloatTag(bits) => pad + ("TAG_Float")@ + name_part_text(name) + (": ")@
            + bits_text(bits as nat),
        NBTTag::DoubleTag(bits) => pad + ("TAG_Double")@ + name_part_text(name) + (": ")@
            + bits_text(bits as nat),
        NBTTag::ByteArrayTag(v) => pad + ("TAG_ByteArray")@ + name_part_text(name) + (": ")@
            + bytes_text(v@),
        NBTTag::StringTag(s) => pad + ("TAG_String")@ + name_part_text(name) + (": ")@ + s@,
        NBTTag::ListTag(et, n, elems) => pad + ("TAG_List")@ + name_part_text(name) + (": ")@
            + dec_nat_text(n as nat) + (" entries of type ")@ + type_name_text(et) + ("\n")@ + pad
            + ("{\n")@ + elems_text(elems@, 0, pad + ("    ")@) + pad + ("}")@,
        NBTTag::CompoundTag(cs) => pad + ("TAG_Compound")@ + name_part_text(name) + (": ")@
            + dec_nat_text(cs@.len()) + (" entries\n")@ + pad + ("{\n")@ + children_text(
            cs@,
            0,
            pad + ("    ")@,
        ) + pad + ("}")@,
    }
}

/// The text of a list's elements from index `k` on: each unnamed, each on a
/// line of its own.
pub open spec fn elems_text(ts: Seq<NBTTag>, k: int, pad: Seq<char>) -> Seq<char>
    decreases ts, ts.len() - k,
{
    if k < 0 || k >= ts.len() {
        Seq::empty()
    } else {
        render_text(ts[k], None, pad) + ("\n")@ + elems_text(ts, k + 1, pad)
    }
}

/// The text of a compound's children from index `k` on: each under its own
/// name, each on a line of its own.
pub open spec fn children_text(cs: Seq<NamedTag>, k: int, pad: Seq<char>) -> Seq<char>
    decreases cs, cs.len() - k,
{
    if k < 0 || k >= cs.len() {
        Seq::empty()
    } else {
        render_text(cs[k].value, Some(cs[k].name@), pad) + ("\n")@ + children_text(cs, k + 1, pad)
    }
}

/// The text of a whole named tag, as `pretty_print` returns it.
pub open spec fn named_text(c: NamedTag) -> Seq<char> {
    render_text(c.value, Some(c.name@), Seq::empty())
}

/// Rendering is deterministic: it is a function of the tree alone, so equal
/// trees always render to equal text.
pub proof fn lemma_render_deterministic(a: NamedTag, b: NamedTag)
    requires
        a.name@ == b.name@,
        a.value == b.value,
    ensures
        named_text(a) == named_text(b),
{
}

// ---------------------------------------------------------------------------
// The executable renderer.
// ---------------------------------------------------------------------------

/// The contract-level view of an optional borrowed name.
pub open spec fn opt_name_view(name: Option<&str>) -> Option<Seq<char>> {
    match name {
        None => None,
        Some(nm) => Some(nm@),
    }
}

fn dec_digit_str(d: u64) -> (r: &'static str)
    requires
        d < 10,
    ensures
        r@ == dec_digit_text(d as nat),
{
    match d {
        0 => "0",
        1 => "1",
        2 => "2",
        3 => "3",
        4 => "4",
        5 => "5",
        6 => "6",
        7 => "7",
        8 => "8",
        _ => "9",
    }
}

fn dec_u64_str(n: u64) -> (r: String)
    ensures
        r@ == dec_nat_text(n as nat),
    decreases n,
{
    if n < 10 {
        let mut out = String::new();
        out.append(dec_digit_str(n));
        out
    } else {
        let mut out = dec_u64_str(n / 10);
        out.append(dec_digit_str(n % 10));
        out
    }
}

fn int_i64_str(v: i64) -> (r: String)
    ensures
        r@ == int_text(v as int),
{
    if v < 0 {
        let m: u64 = if v == i64::MIN {
            0x8000000000000000u64
        } else {
            (-v) as u64
        };
        let mut out = String::new();
        out.append("-");
        out.append(dec_u64_str(m).as_str());
        out
    } else {
        dec_u64_str(v as u64)
    }
}

fn hex_digit_str(d: u64) -> (r: &'static str)
    requires
        d < 16,
    ensures
        r@ == hex_digit_text(d as nat),
{
    match d {
        0 => "0",
        1 => "1",
        2 => "2",
        3 => "3",
        4 => "4",
        5 => "5",
        6 => "6",
        7 => "7",
        8 => "8",
        9 => "9",
        10 => "a",
        11 => "b",
        12 => "c",
        13 => "d",
        14 => "e",
        _ => "f",
    }
}

fn hex_u64_str(n: u64) -> (r: String)
    ensures
        r@ == hex_nat_text(n as nat),
    decreases n,
{
    if n < 16 {
        let mut out = String::new();
        out.append(hex_digit_str(n));
        out
    } else {
        let mut out = hex_u64_str(n / 16);
        out.append(hex_digit_str(n % 16));
        out
    }
}

fn bits_str(n: u64) -> (r: String)
    ensures
        r@ == bits_text(n as nat),
{
    let mut out = String::new();
    out.append("0x");
    out.append(hex_u64_str(n).as_str());
    out
}

fn bytes_str(v: &Vec<u8>) -> (r: String)
    ensures
        r@ == bytes_text(v@),
{
    let mut out = String::new();
    out.append("[");
    let ghost opened = out@;
    let mut k: usize = 0;
    while k < v.len()
        invariant
            k <= v.len(),
            opened == ("[")@,
            out@ + bytes_items_text(v@, k as int) == opened + bytes_items_text(v@, 0),
        decreases v.len() - k,
    {
        out.append(dec_u64_str(v[k] as u64).as_str());
        if k + 1 < v.len() {
            out.append(", ");
        }
        proof {
            assert(out@ + bytes_items_text(v@, k + 1) =~= opened + bytes_items_text(v@, 0));
        }
        k = k + 1;
    }
    proof {
        assert(bytes_items_text(v@, v@.len() as int) =~= Seq::<char>::empty());
        assert(out@ =~= opened + bytes_items_text(v@, 0));
    }
    out.append("]");
    proof {
        assert(out@ =~= bytes_text(v@));
    }
    out
}

/// The render name of a tag kind.
pub fn type_name_str(tt: TagType) -> (r: &'static str)
    ensures
        r@ == type_name_text(tt),
{
    match tt {
        TagType::TAGEnd => "TAG_End",
        TagType::TAGByte => "TAG_Byte",
        TagType::TAGShort => "TAG_Short",
        TagType::TAGInt => "TAG_Int",
        TagType::TAGLong => "TAG_Long",
        TagType::TAGFloat => "TAG_Float",
        TagType::TAGDouble => "TAG_Double",
        TagType::TAGByteArray => "TAG_ByteArray",
        TagType::TAGString => "TAG_String",
        TagType::TAGList => "TAG_List",
        TagType::TAGCompound => "TAG_Compound",
        TagType::TAGUnknown => "TAG_Unknown",
    }
}

fn header_str(pad: &str, kind: &'static str, name: Option<&str>) -> (r: String)
    ensures
        r@ == pad@ + kind@ + name_part_text(opt_name_view(name)) + (": ")@,
{
    let mut out = String::new();
    out.append(pad);
    out.append(kind);
    match name {
        None => {},
        Some(nm) => {
            out.append("(\"");
            out.append(nm);
            out.append("\")");
        },
    }
    out.append(": ");
    proof {
        assert(out@ =~= pad@ + kind@ + name_part_text(opt_name_view(name)) + (": ")@);
    }
    out
}

impl NBTTag {
    /// Renders this tag under the optional `name`, each line prefixed by
    /// `pad`. The text is exactly [`render_text`] of the tree.
    #[verifier::loop_isolation(false)]
    pub fn render(&self, name: Option<&str>, pad: &str) -> (r: String)
        ensures
            r@ == render_text(*self, opt_name_view(name), pad@),
        decreases *self,
    {
        match self {
            NBTTag::ByteTag(v) => {
                let mut out = header_str(pad, "TAG_Byte", name);
                out.append(int_i64_str(*v as i64).as_str());
                proof {
                    assert(out@ =~= render_text(*self, opt_name_view(name), pad@));
                }
                out
            },
            NBTTag::ShortTag(v) => {
                let mut out = header_str(pad, "TAG_Short", name);
                out.append(int_i64_str(*v as i64).as_str());
                proof {
                    assert(out@ =~= render_text(*self, opt_name_view(name), pad@));
                }
                out
            },
            NBTTag::IntTag(v) => {
                let mut out = header_str(pad, "TAG_Int", name);
                out.append(int_i64_str(*v as i64).as_str());
                proof {
                    assert(out@ =~= render_text(*self, opt_name_view(name), pad@));
                }
                out
            },
            NBTTag::LongTag(v) => {
                let mut out = header_str(pad, "TAG_Long", name);
                out.append(int_i64_str(*v).as_str());
                proof {
                    assert(out@ =~= render_text(*self, opt_name_view(name), pad@));
                }
                out
            },
            NBTTag::FloatTag(bits) => {
                let mut out = header_str(pad, "TAG_Float", name);
                out.append(bits_str(*bits as u64).as_str());
                proof {
                    assert(out@ =~= render_text(*self, opt_name_view(name), pad@));
                }
                out
            },
            NBTTag::DoubleTag(bits) => {
                let mut out = header_str(pad, "TAG_Double", name);
                out.append(bits_str(*bits).as_str());
                proof {
                    assert(out@ =~= render_text(*self, opt_name_view(name), pad@));
                }
                out
            },
            NBTTag::ByteArrayTag(v) => {
                let mut out = header_str(pad, "TAG_ByteArray", name);
                out.append(bytes_str(v).as_str());
                proof {
                    assert(out@ =~= render_text(*self, opt_name_view(name), pad@));
                }
                out
            },
            NBTTag::StringTag(s) => {
                let mut out = header_str(pad, "TAG_String", name);
                out.append(s.as_str());
                proof {
                    assert(out@ =~= render_text(*self, opt_name_view(name), pad@));
                }
                out
            },
            NBTTag::ListTag(et, n, elems) => {
                let mut out = header_str(pad, "TAG_List", name);
                out.append(dec_u64_str(*n as u64).as_str());
                out.append(" entries of type ");
                out.append(type_name_str(*et));
                out.append("\n");
                out.append(pad);
                out.append("{\n");
                let mut deeper = String::new();
                deeper.append(pad);
                deeper.append("    ");
                let ghost head = out@;
                let ghost pad2 = pad@ + ("    ")@;
                proof {
                    assert(deeper@ == pad2);
                }
                let mut k: usize = 0;
                while k < elems.len()
                    invariant
                        k <= elems.len(),
                        deeper@ == pad2,
                        out@ + elems_text(elems@, k as int, pad2) == head + elems_text(
                            elems@,
                            0,
                            pad2,
                        ),
                    decreases elems.len() - k,
                {
                    proof {
                        assert(decreases_to!(*self => elems@[k as int]));
                    }
                    let line = elems[k].render(None, deeper.as_str());
                    out.append(line.as_str());
                    out.append("\n");
                    proof {
                        assert(out@ + elems_text(elems@, k + 1, pad2) =~= head + elems_text(
                            elems@,
                            0,
                            pad2,
                        ));
                    }
                    k = k + 1;
                }
                proof {
                    assert(elems_text(elems@, elems@.len() as int, pad2) =~= Seq::<char>::empty());
                    assert(out@ =~= head + elems_text(elems@, 0, pad2));
                }
                out.append(pad);
                out.append("}");
                proof {
                    assert(out@ =~= render_text(*self, opt_name_view(name), pad@));
                }
                out
            },
            NBTTag::CompoundTag(cs) => {
                let mut out = header_str(pad, "TAG_Compound", name);
                out.append(dec_u64_str(cs.len() as u64).as_str());
                out.append(" entries\n");
                out.append(pad);
                out.append("{\n");
                let mut deeper = String::new();
                deeper.append(pad);
                deeper.append("    ");
                let ghost head = out@;
                let ghost pad2 = pad@ + ("    ")@;
                proof {
                    assert(deeper@ == pad2);
                }
                let mut k: usize = 0;
                while k < cs.len()
                    invariant
                        k <= cs.len(),
                        deeper@ == pad2,
                        out@ + children_text(cs@, k as int, pad2) == head + children_text(
                            cs@,
                            0,
                            pad2,
                        ),
                    decreases cs.len() - k,
                {
                    let child = &cs[k];
                    proof {
                        assert(decreases_to!(*self => cs@[k as int].value));
                    }
                    let line = child.value.render(Some(child.get_name()), deeper.as_str());
                    out.append(line.as_str());
                    out.append("\n");
                    proof {
                        assert(out@ + children_text(cs@, k + 1, pad2) =~= head + children_text(
                            cs@,
                            0,
                            pad2,
                        ));
                    }
                    k = k + 1;
                }
                proof {
                    assert(children_text(cs@, cs@.len() as int, pad2) =~= Seq::<char>::empty());
                    assert(out@ =~= head + children_text(cs@, 0, pad2));
                }
                out.append(pad);
                out.append("}");
                proof {
                    assert(out@ =~= render_text(*self, opt_name_view(name), pad@));
                }
                out
            },
        }
    }
}

impl NamedTag {
    /// Renders this named tag, starting at the left margin. The text is
    /// exactly [`named_text`] of the tree, so equal trees always produce
    /// identical text.
    pub fn pretty_print(&self) -> (r: String)
        ensures
            r@ == named_text(*self),
    {
        let r = self.value.render(Some(self.get_name()), "");
        proof {
            reveal_strlit("");
            assert(("")@ =~= Seq::<char>::empty());
        }
        r
    }
}

} // verus!
