use nbt::{NBTTag, NbtError, Parser};

#[test]
fn nbt_test_byte() {
    let data = b"\x0a\x00\x04abcd\x01\x00\x04test\x01\x00".to_vec();
    let mut parser = Parser::new(data);
    let root = parser.parse().unwrap();
    assert!(root.get_name() == "abcd");
    match root.get_tag() {
        NBTTag::CompoundTag(vs) => {
            assert!(vs.len() == 1);
            let sub_tag = &vs[0];
            assert!(sub_tag.get_name() == "test");
            match sub_tag.get_tag() {
                NBTTag::ByteTag(v) => {
                    assert!(*v == 1);
                }
                _ => panic!("Unexpected subtag!"),
            }
        }
        _ => panic!("Unexpected tag type!"),
    }
}

#[test]
fn nbt_test_short() {
    let data = b"\x0a\x00\x04abcd\x02\x00\x05hello\x12\x34\x00".to_vec();
    let mut parser = Parser::new(data);
    let root = parser.parse().unwrap();
    assert!(root.get_name() == "abcd");
    match root.get_tag() {
        NBTTag::CompoundTag(vs) => {
            assert!(vs.len() == 1);
            let sub_tag = &vs[0];
            assert!(sub_tag.get_name() == "hello");
            match sub_tag.get_tag() {
                NBTTag::ShortTag(v) => {
                    assert!(*v == 4660);
                }
                _ => panic!("Unexpected subtag!"),
            }
        }
        _ => panic!("Unexpected tag type!"),
    }
}

#[test]
fn nbt_test_int() {
    let data = b"\x0a\x00\x04abcd\x03\x00\x05world\x12\x34\x56\x78\x00".to_vec();
    let mut parser = Parser::new(data);
    let root = parser.parse().unwrap();
    assert!(root.get_name() == "abcd");
    match root.get_tag() {
        NBTTag::CompoundTag(vs) => {
            assert!(vs.len() == 1);
            let sub_tag = &vs[0];
            assert!(sub_tag.get_name() == "world");
            match sub_tag.get_tag() {
                NBTTag::IntTag(v) => {
                    assert!(*v == 305419896);
                }
                _ => panic!("Unexpected subtag!"),
            }
        }
        _ => panic!("Unexpected tag type!"),
    }
}

#[test]
fn nbt_test_long() {
    let data = b"\x0a\x00\x04abcd\x04\x00\x05world\x12\x34\x56\x78\x12\x34\x56\x78\x00".to_vec();
    let mut parser = Parser::new(data);
    let root = parser.parse().unwrap();
    assert!(root.get_name() == "abcd");
    match root.get_tag() {
        NBTTag::CompoundTag(vs) => {
            assert!(vs.len() == 1);
            let sub_tag = &vs[0];
            assert!(sub_tag.get_name() == "world");
            match sub_tag.get_tag() {
                NBTTag::LongTag(v) => {
                    assert!(*v == 1311768465173141112);
                }
                _ => panic!("Unexpected subtag!"),
            }
        }
        _ => panic!("Unexpected tag type!"),
    }
}

#[test]
fn nbt_test_bytearray() {
    let data =
        b"\x0a\x00\x04abcd\x07\x00\x05world\x00\x00\x00\x0a\x00\x01\x02\x03\x04\x05\x06\x07\x08\x09\x00"
            .to_vec();
    let mut parser = Parser::new(data);
    let root = parser.parse().unwrap();
    assert!(root.get_name() == "abcd");
    match root.get_tag() {
        NBTTag::CompoundTag(vs) => {
            assert!(vs.len() == 1);
            let sub_tag = &vs[0];
            assert!(sub_tag.get_name() == "world");
            match sub_tag.get_tag() {
                NBTTag::ByteArrayTag(v) => {
                    assert!(*v == vec![0, 1, 2, 3, 4, 5, 6, 7, 8, 9]);
                }
                _ => panic!("Unexpected subtag!"),
            }
        }
        _ => panic!("Unexpected tag type!"),
    }
}

// This input ends right after the string payload, without the TAGEnd byte
// that closes the root compound, so the decode runs out of input while
// scanning for the root's next child.
#[test]
fn nbt_test_string() {
    let data = b"\x0a\x00\x04abcd\x08\x00\x05world\x00\x0chello world!".to_vec();
    let mut parser = Parser::new(data);
    match parser.parse() {
        Err(e) => {
            assert!(e == NbtError::UnexpectedEnd);
        }
        Ok(_) => panic!("Unexpected tag type!"),
    }
}
