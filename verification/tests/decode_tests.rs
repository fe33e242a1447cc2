use nbt::{NBTTag, NbtError, Parser, TagType};

#[test]
fn root_must_be_compound() {
    let data = b"\x01\x00\x04abcd\x01\x00".to_vec();
    let mut parser = Parser::new(data);
    assert_eq!(parser.parse().unwrap_err(), NbtError::MalformedRoot);
}

#[test]
fn unknown_kind_byte_at_root() {
    let data = b"\x0b\x00\x01a\x00".to_vec();
    let mut parser = Parser::new(data);
    assert_eq!(parser.parse().unwrap_err(), NbtError::UnknownTagType);
}

#[test]
fn unknown_kind_byte_inside_compound() {
    let data = b"\x0a\x00\x01a\x0b".to_vec();
    let mut parser = Parser::new(data);
    assert_eq!(parser.parse().unwrap_err(), NbtError::UnknownTagType);
}

#[test]
fn invalid_utf8_in_name() {
    let data = b"\x0a\x00\x01a\x01\x00\x02\xff\xff\x05\x00".to_vec();
    let mut parser = Parser::new(data);
    assert_eq!(parser.parse().unwrap_err(), NbtError::InvalidUtf8);
}

#[test]
fn invalid_utf8_in_string_payload() {
    let data = b"\x0a\x00\x01a\x08\x00\x01s\x00\x02\xc3\x28\x00".to_vec();
    let mut parser = Parser::new(data);
    assert_eq!(parser.parse().unwrap_err(), NbtError::InvalidUtf8);
}

#[test]
fn truncated_fixed_width_payload() {
    let data = b"\x0a\x00\x04abcd\x03\x00\x01x\x12\x34".to_vec();
    let mut parser = Parser::new(data);
    assert_eq!(parser.parse().unwrap_err(), NbtError::UnexpectedEnd);
}

#[test]
fn empty_input() {
    let mut parser = Parser::new(Vec::new());
    assert_eq!(parser.parse().unwrap_err(), NbtError::UnexpectedEnd);
}

#[test]
fn truncated_name() {
    let data = b"\x0a\x00\x10ab".to_vec();
    let mut parser = Parser::new(data);
    assert_eq!(parser.parse().unwrap_err(), NbtError::UnexpectedEnd);
}

#[test]
fn list_has_declared_count_and_kind() {
    let data = b"\x0a\x00\x01a\x09\x00\x04list\x02\x00\x00\x00\x03\x00\x01\x00\x02\x00\x03\x00"
        .to_vec();
    let mut parser = Parser::new(data);
    let root = parser.parse().unwrap();
    match root.get_tag() {
        NBTTag::CompoundTag(vs) => {
            assert_eq!(vs.len(), 1);
            assert_eq!(vs[0].get_name(), "list");
            match vs[0].get_tag() {
                NBTTag::ListTag(et, n, elems) => {
                    assert_eq!(*et, TagType::TAGShort);
                    assert_eq!(*n, 3);
                    assert_eq!(elems.len(), 3);
                    let mut values = Vec::new();
                    for e in elems.iter() {
                        assert_eq!(e.get_type(), TagType::TAGShort);
                        match e {
                            NBTTag::ShortTag(v) => values.push(*v),
                            _ => panic!("element of undeclared kind"),
                        }
                    }
                    assert_eq!(values, vec![1, 2, 3]);
                }
                _ => panic!("expected a list child"),
            }
        }
        _ => panic!("expected a compound root"),
    }
}

#[test]
fn empty_list() {
    let data = b"\x0a\x00\x01a\x09\x00\x01l\x01\x00\x00\x00\x00\x00".to_vec();
    let mut parser = Parser::new(data);
    let root = parser.parse().unwrap();
    match root.get_tag() {
        NBTTag::CompoundTag(vs) => match vs[0].get_tag() {
            NBTTag::ListTag(et, n, elems) => {
                assert_eq!(*et, TagType::TAGByte);
                assert_eq!(*n, 0);
                assert_eq!(elems.len(), 0);
            }
            _ => panic!("expected a list child"),
        },
        _ => panic!("expected a compound root"),
    }
}

#[test]
fn list_of_end_kind_is_rejected() {
    let data = b"\x0a\x00\x01a\x09\x00\x01l\x00".to_vec();
    let mut parser = Parser::new(data);
    assert_eq!(parser.parse().unwrap_err(), NbtError::ListTypeMismatch);
}

#[test]
fn nested_list() {
    let data = b"\x0a\x00\x01a\x09\x00\x01l\x09\x00\x00\x00\x01\x01\x00\x00\x00\x02\x07\x08\x00"
        .to_vec();
    let mut parser = Parser::new(data);
    let root = parser.parse().unwrap();
    match root.get_tag() {
        NBTTag::CompoundTag(vs) => match vs[0].get_tag() {
            NBTTag::ListTag(et, _, elems) => {
                assert_eq!(*et, TagType::TAGList);
                assert_eq!(elems.len(), 1);
                match &elems[0] {
                    NBTTag::ListTag(inner_et, inner_n, inner) => {
                        assert_eq!(*inner_et, TagType::TAGByte);
                        assert_eq!(*inner_n, 2);
                        assert_eq!(inner.len(), 2);
                        match (&inner[0], &inner[1]) {
                            (NBTTag::ByteTag(x), NBTTag::ByteTag(y)) => {
                                assert_eq!(*x, 7);
                                assert_eq!(*y, 8);
                            }
                            _ => panic!("inner elements of undeclared kind"),
                        }
                    }
                    _ => panic!("outer element of undeclared kind"),
                }
            }
            _ => panic!("expected a list child"),
        },
        _ => panic!("expected a compound root"),
    }
}

#[test]
fn compound_stops_at_first_end_byte() {
    // Two children, the End terminator, then bytes that would be a third
    // child if the scan ran on: the parse keeps the two children in
    // encounter order and stops right after the terminator.
    let data = b"\x0a\x00\x01a\x01\x00\x01x\x01\x01\x00\x01y\x02\x00\x01\x00\x01z\x03\x00".to_vec();
    let trailing: usize = 6;
    let len: usize = data.len();
    let mut parser = Parser::new(data);
    let root = parser.parse().unwrap();
    assert_eq!(parser.position(), len - trailing);
    match root.get_tag() {
        NBTTag::CompoundTag(vs) => {
            assert_eq!(vs.len(), 2);
            assert_eq!(vs[0].get_name(), "x");
            assert_eq!(vs[1].get_name(), "y");
        }
        _ => panic!("expected a compound root"),
    }
}

#[test]
fn empty_compound() {
    let data = b"\x0a\x00\x01a\x00".to_vec();
    let len: usize = data.len();
    let mut parser = Parser::new(data);
    let root = parser.parse().unwrap();
    assert_eq!(root.get_name(), "a");
    assert_eq!(root.get_type(), TagType::TAGCompound);
    assert_eq!(parser.position(), len);
    match root.get_tag() {
        NBTTag::CompoundTag(vs) => assert_eq!(vs.len(), 0),
        _ => panic!("expected a compound root"),
    }
}

#[test]
fn depth_limit_allows_fitting_nesting() {
    let data = b"\x0a\x00\x01a\x0a\x00\x01b\x00\x00".to_vec();
    let mut parser = Parser::with_limit(data, 2);
    let root = parser.parse().unwrap();
    assert_eq!(root.get_type(), TagType::TAGCompound);
}

#[test]
fn depth_limit_rejects_deeper_nesting() {
    let data = b"\x0a\x00\x01a\x0a\x00\x01b\x00\x00".to_vec();
    let mut parser = Parser::with_limit(data, 1);
    assert_eq!(parser.parse().unwrap_err(), NbtError::DepthExceeded);
}

#[test]
fn depth_limit_zero_rejects_the_root() {
    let data = b"\x0a\x00\x01a\x00".to_vec();
    let mut parser = Parser::with_limit(data, 0);
    assert_eq!(parser.parse().unwrap_err(), NbtError::DepthExceeded);
}

#[test]
fn default_depth_limit_parses_nested_input() {
    let data = b"\x0a\x00\x01a\x0a\x00\x01b\x0a\x00\x01c\x00\x00\x00".to_vec();
    let mut parser = Parser::new(data);
    assert!(parser.parse().is_ok());
}

#[test]
fn multibyte_utf8_is_decoded() {
    let data = b"\x0a\x00\x02\xc3\xa9\x08\x00\x01s\x00\x02\xc3\xa9\x00".to_vec();
    let mut parser = Parser::new(data);
    let root = parser.parse().unwrap();
    assert_eq!(root.get_name(), "\u{e9}");
    match root.get_tag() {
        NBTTag::CompoundTag(vs) => match vs[0].get_tag() {
            NBTTag::StringTag(v) => assert_eq!(v, "\u{e9}"),
            _ => panic!("expected a string child"),
        },
        _ => panic!("expected a compound root"),
    }
}

#[test]
fn float_and_double_bits_are_kept() {
    let data =
        b"\x0a\x00\x01a\x05\x00\x01f\x3f\x80\x00\x00\x06\x00\x01d\x3f\xf0\x00\x00\x00\x00\x00\x00\x00"
            .to_vec();
    let mut parser = Parser::new(data);
    let root = parser.parse().unwrap();
    match root.get_tag() {
        NBTTag::CompoundTag(vs) => {
            assert_eq!(vs.len(), 2);
            match (vs[0].get_tag(), vs[1].get_tag()) {
                (NBTTag::FloatTag(f), NBTTag::DoubleTag(d)) => {
                    assert_eq!(*f, 0x3f800000);
                    assert_eq!(*d, 0x3ff0000000000000);
                    assert_eq!(f32::from_bits(*f), 1.0f32);
                    assert_eq!(f64::from_bits(*d), 1.0f64);
                }
                _ => panic!("expected float and double children"),
            }
        }
        _ => panic!("expected a compound root"),
    }
}

#[test]
fn resolve_maps_bytes_to_kinds() {
    assert_eq!(TagType::resolve(0).unwrap(), TagType::TAGEnd);
    assert_eq!(TagType::resolve(1).unwrap(), TagType::TAGByte);
    assert_eq!(TagType::resolve(8).unwrap(), TagType::TAGString);
    assert_eq!(TagType::resolve(10).unwrap(), TagType::TAGCompound);
    assert_eq!(TagType::resolve(11).unwrap_err(), NbtError::UnknownTagType);
    assert_eq!(TagType::resolve(255).unwrap_err(), NbtError::UnknownTagType);
}

#[test]
fn list_of_compounds() {
    let data = b"\x0a\x00\x01a\x09\x00\x01l\x0a\x00\x00\x00\x02\x01\x00\x01x\x05\x00\x00\x00"
        .to_vec();
    let mut parser = Parser::new(data);
    let root = parser.parse().unwrap();
    match root.get_tag() {
        NBTTag::CompoundTag(vs) => match vs[0].get_tag() {
            NBTTag::ListTag(et, n, elems) => {
                assert_eq!(*et, TagType::TAGCompound);
                assert_eq!(*n, 2);
                match (&elems[0], &elems[1]) {
                    (NBTTag::CompoundTag(first), NBTTag::CompoundTag(second)) => {
                        assert_eq!(first.len(), 1);
                        assert_eq!(first[0].get_name(), "x");
                        assert_eq!(second.len(), 0);
                    }
                    _ => panic!("elements of undeclared kind"),
                }
            }
            _ => panic!("expected a list child"),
        },
        _ => panic!("expected a compound root"),
    }
}

#[test]
fn empty_names_and_strings() {
    let data = b"\x0a\x00\x00\x08\x00\x00\x00\x00\x00".to_vec();
    let mut parser = Parser::new(data);
    let root = parser.parse().unwrap();
    assert_eq!(root.get_name(), "");
    match root.get_tag() {
        NBTTag::CompoundTag(vs) => {
            assert_eq!(vs[0].get_name(), "");
            match vs[0].get_tag() {
                NBTTag::StringTag(v) => assert_eq!(v, ""),
                _ => panic!("expected a string child"),
            }
        }
        _ => panic!("expected a compound root"),
    }
}

#[test]
fn read_name_reads_one_length_prefixed_field() {
    let data = b"\x00\x05hello\x01\x02".to_vec();
    let mut parser = Parser::new(data);
    assert_eq!(parser.read_name().unwrap(), "hello");
    assert_eq!(parser.position(), 7);
}
