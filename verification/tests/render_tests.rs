use nbt::{NBTTag, NamedTag, Parser};

#[test]
fn render_byte_tree() {
    let tree = NamedTag::new(
        "abcd".to_string(),
        NBTTag::CompoundTag(vec![NamedTag::new("test".to_string(), NBTTag::ByteTag(1))]),
    );
    assert_eq!(
        tree.pretty_print(),
        "TAG_Compound(\"abcd\"): 1 entries\n{\n    TAG_Byte(\"test\"): 1\n}"
    );
}

#[test]
fn render_of_parsed_tree() {
    let data = b"\x0a\x00\x04abcd\x01\x00\x04test\x01\x00".to_vec();
    let mut parser = Parser::new(data);
    let root = parser.parse().unwrap();
    assert_eq!(
        root.pretty_print(),
        "TAG_Compound(\"abcd\"): 1 entries\n{\n    TAG_Byte(\"test\"): 1\n}"
    );
}

#[test]
fn render_list_elements_unnamed() {
    let tree = NamedTag::new(
        "l".to_string(),
        NBTTag::ListTag(
            nbt::TagType::TAGByte,
            2,
            vec![NBTTag::ByteTag(1), NBTTag::ByteTag(-2)],
        ),
    );
    assert_eq!(
        tree.pretty_print(),
        "TAG_List(\"l\"): 2 entries of type TAG_Byte\n{\n    TAG_Byte: 1\n    TAG_Byte: -2\n}"
    );
}

#[test]
fn render_nested_compound_indents_by_four() {
    let inner = NamedTag::new("x".to_string(), NBTTag::ShortTag(-300));
    let mid = NamedTag::new("b".to_string(), NBTTag::CompoundTag(vec![inner]));
    let tree = NamedTag::new("a".to_string(), NBTTag::CompoundTag(vec![mid]));
    assert_eq!(
        tree.pretty_print(),
        "TAG_Compound(\"a\"): 1 entries\n{\n    TAG_Compound(\"b\"): 1 entries\n    {\n        TAG_Short(\"x\"): -300\n    }\n}"
    );
}

#[test]
fn render_leaf_values() {
    let s = NamedTag::new("s".to_string(), NBTTag::StringTag("hello".to_string()));
    assert_eq!(s.pretty_print(), "TAG_String(\"s\"): hello");
    let b = NamedTag::new("b".to_string(), NBTTag::ByteArrayTag(vec![0, 1, 255]));
    assert_eq!(b.pretty_print(), "TAG_ByteArray(\"b\"): [0, 1, 255]");
    let i = NamedTag::new("i".to_string(), NBTTag::IntTag(305419896));
    assert_eq!(i.pretty_print(), "TAG_Int(\"i\"): 305419896");
    let n = NamedTag::new("n".to_string(), NBTTag::LongTag(i64::MIN));
    assert_eq!(n.pretty_print(), "TAG_Long(\"n\"): -9223372036854775808");
    let e = NamedTag::new("e".to_string(), NBTTag::ByteArrayTag(Vec::new()));
    assert_eq!(e.pretty_print(), "TAG_ByteArray(\"e\"): []");
}

#[test]
fn render_float_bits_as_hex() {
    let f = NamedTag::new("f".to_string(), NBTTag::FloatTag(0x3f800000));
    assert_eq!(f.pretty_print(), "TAG_Float(\"f\"): 0x3f800000");
    let d = NamedTag::new("d".to_string(), NBTTag::DoubleTag(0));
    assert_eq!(d.pretty_print(), "TAG_Double(\"d\"): 0x0");
}

#[test]
fn render_is_deterministic() {
    let make = || {
        NamedTag::new(
            "abcd".to_string(),
            NBTTag::CompoundTag(vec![
                NamedTag::new("test".to_string(), NBTTag::ByteTag(1)),
                NamedTag::new("s".to_string(), NBTTag::StringTag("hi".to_string())),
            ]),
        )
    };
    assert_eq!(make().pretty_print(), make().pretty_print());

    let data = b"\x0a\x00\x04abcd\x02\x00\x05hello\x12\x34\x00".to_vec();
    let mut p1 = Parser::new(data.clone());
    let mut p2 = Parser::new(data);
    assert_eq!(
        p1.parse().unwrap().pretty_print(),
        p2.parse().unwrap().pretty_print()
    );
}

#[test]
fn render_unnamed_tag_directly() {
    let t = NBTTag::ByteTag(7);
    assert_eq!(t.render(None, ""), "TAG_Byte: 7");
    assert_eq!(t.render(Some("x"), "  "), "  TAG_Byte(\"x\"): 7");
}
