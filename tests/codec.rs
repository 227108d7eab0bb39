use wasm_sections::{
    encode_str, encode_u32, BinaryReader, DecodeError, Export, ExportKind, ExportSection,
    ExternalKind, Instance, InstanceSection, InstanceSectionReader, ModuleArg,
};

fn decode_u32(bytes: &[u8]) -> Result<u32, DecodeError> {
    let mut r = BinaryReader::new_with_offset(bytes, 0);
    r.read_var_u32()
}

#[test]
fn uvarint_exact_bytes() {
    let cases: [(u32, &[u8]); 6] = [
        (0, &[0x00]),
        (127, &[0x7f]),
        (128, &[0x80, 0x01]),
        (300, &[0xac, 0x02]),
        (16384, &[0x80, 0x80, 0x01]),
        (u32::MAX, &[0xff, 0xff, 0xff, 0xff, 0x0f]),
    ];
    for (v, expected) in cases.iter() {
        let mut sink = Vec::new();
        encode_u32(*v, &mut sink);
        assert_eq!(&sink[..], *expected);
        assert_eq!(decode_u32(&sink), Ok(*v));
    }
}

#[test]
fn uvarint_round_trip_sample() {
    let mut v: u64 = 0;
    while v <= u32::MAX as u64 {
        let mut sink = Vec::new();
        encode_u32(v as u32, &mut sink);
        let mut groups = 1;
        let mut x = v >> 7;
        while x != 0 {
            groups += 1;
            x >>= 7;
        }
        assert_eq!(sink.len(), groups);
        assert_eq!(decode_u32(&sink), Ok(v as u32));
        v = v * 3 + 1;
    }
}

#[test]
fn uvarint_errors() {
    assert_eq!(decode_u32(&[]), Err(DecodeError::UnexpectedEof { offset: 0 }));
    assert_eq!(decode_u32(&[0x80, 0x80]), Err(DecodeError::UnexpectedEof { offset: 2 }));
    assert_eq!(
        decode_u32(&[0x80, 0x80, 0x80, 0x80, 0x80]),
        Err(DecodeError::MalformedInteger { offset: 4 })
    );
    assert_eq!(
        decode_u32(&[0xff, 0xff, 0xff, 0xff, 0x10]),
        Err(DecodeError::IntegerTooLarge { offset: 4 })
    );
}

#[test]
fn uvarint_error_offset_is_absolute() {
    let mut r = BinaryReader::new_with_offset(&[0x80], 100);
    assert_eq!(r.read_var_u32(), Err(DecodeError::UnexpectedEof { offset: 101 }));
    assert_eq!(r.original_position(), 100);
}

#[test]
fn text_encoding_and_errors() {
    let mut sink = Vec::new();
    encode_str("héllo", &mut sink);
    assert_eq!(sink, vec![6, b'h', 0xc3, 0xa9, b'l', b'l', b'o']);
    let mut r = BinaryReader::new_with_offset(&sink, 0);
    assert_eq!(r.read_string(), Ok("héllo"));
    assert!(r.eof());

    let mut r = BinaryReader::new_with_offset(&[3, b'a', b'b'], 10);
    assert_eq!(r.read_string(), Err(DecodeError::UnexpectedEof { offset: 11 }));
    assert_eq!(r.original_position(), 10);

    let mut r = BinaryReader::new_with_offset(&[2, 0xc3, 0x28], 0);
    assert_eq!(r.read_string(), Err(DecodeError::InvalidUtf8 { offset: 1 }));
}

#[test]
fn export_kind_and_index() {
    assert_eq!(Export::Func(3).kind(), ExportKind::Func);
    assert_eq!(Export::Table(4).kind(), ExportKind::Table);
    assert_eq!(Export::Memory(5).kind(), ExportKind::Memory);
    assert_eq!(Export::Global(6).kind(), ExportKind::Global);
    assert_eq!(Export::Tag(7).kind(), ExportKind::Tag);
    assert_eq!(Export::Tag(7).index(), 7);
}

#[test]
fn scenario_single_export() {
    let mut exports = ExportSection::new();
    assert!(exports.is_empty());
    exports.export("foo", Export::Func(0));
    assert_eq!(exports.len(), 1);
    assert!(!exports.is_empty());
    assert_eq!(exports.id(), 7);
    let mut sink = Vec::new();
    exports.encode(&mut sink);
    assert_eq!(sink, vec![0x01, 0x03, b'f', b'o', b'o', 0x00, 0x00]);

    let mut r = BinaryReader::new_with_offset(&sink[1..], 1);
    let e = r.read_export().unwrap();
    assert_eq!(e.name, "foo");
    assert_eq!(e.kind, ExternalKind::Func);
    assert_eq!(e.index, 0);
    assert!(r.eof());
}

#[test]
fn export_kinds_bytes() {
    let mut exports = ExportSection::new();
    exports.export("a", Export::Table(1));
    exports.export("b", Export::Memory(2));
    exports.export("c", Export::Global(200));
    exports.export("d", Export::Tag(3));
    let mut sink = Vec::new();
    exports.encode(&mut sink);
    assert_eq!(
        sink,
        vec![4, 1, b'a', 1, 1, 1, b'b', 2, 2, 1, b'c', 3, 0xc8, 0x01, 1, b'd', 4, 3]
    );
}

#[test]
fn export_tag_rejected() {
    let data = [0x03, b'f', b'o', b'o', 0x12, 0x00];
    let mut r = BinaryReader::new_with_offset(&data, 50);
    assert_eq!(
        r.read_export().unwrap_err(),
        DecodeError::InvalidTag { byte: 0x12, offset: 54 }
    );
    assert_eq!(r.original_position(), 50);
}

#[test]
fn scenario_export_items() {
    let mut instances = InstanceSection::new();
    instances.export_items(&[("foo", Export::Func(0))]);
    assert_eq!(instances.len(), 1);
    let mut sink = Vec::new();
    instances.encode(&mut sink);
    assert_eq!(sink, vec![0x01, 0x01, 0x01, 0x03, b'f', b'o', b'o', 0x00, 0x00]);

    let mut reader = InstanceSectionReader::new(&sink, 0).unwrap();
    assert_eq!(reader.get_count(), 1);
    match reader.read().unwrap() {
        Instance::FromExports(exports) => {
            assert_eq!(exports.len(), 1);
            assert_eq!(exports[0].name, "foo");
            assert_eq!(exports[0].kind, ExternalKind::Func);
            assert_eq!(exports[0].index, 0);
        }
        other => panic!("unexpected {:?}", other),
    }
    assert!(reader.eof());
}

#[test]
fn scenario_instantiate() {
    let mut instances = InstanceSection::new();
    instances.instantiate(1, &[("foo", ModuleArg::Instance(0))]);
    let mut sink = Vec::new();
    instances.encode(&mut sink);
    assert_eq!(sink, vec![0x01, 0x00, 0x01, 0x01, 0x03, b'f', b'o', b'o', 0x12, 0x00]);

    let mut reader = InstanceSectionReader::new(&sink, 0).unwrap();
    assert_eq!(reader.get_count(), 1);
    match reader.read().unwrap() {
        Instance::Instantiate { module_index, args } => {
            assert_eq!(module_index, 1);
            assert_eq!(args.len(), 1);
            assert_eq!(args[0].name, "foo");
            assert_eq!(args[0].kind, ExternalKind::Instance);
            assert_eq!(args[0].index, 0);
        }
        other => panic!("unexpected {:?}", other),
    }
    assert_eq!(reader.original_position(), sink.len());
}

#[test]
fn section_round_trip_in_order() {
    let mut instances = InstanceSection::new();
    instances.export_items(&[("a", Export::Memory(9)), ("bb", Export::Global(300))]);
    instances.instantiate(7, &[("x", ModuleArg::Instance(0)), ("y", ModuleArg::Instance(1))]);
    instances.export_items(&[]);
    assert_eq!(instances.len(), 3);
    let mut sink = Vec::new();
    instances.encode(&mut sink);

    let reader = InstanceSectionReader::new(&sink, 0).unwrap();
    assert_eq!(reader.get_count(), 3);
    let mut iter = reader.into_iter();
    match iter.next().unwrap().unwrap() {
        Instance::FromExports(e) => {
            assert_eq!(e.len(), 2);
            assert_eq!((e[0].name, e[0].kind, e[0].index), ("a", ExternalKind::Memory, 9));
            assert_eq!((e[1].name, e[1].kind, e[1].index), ("bb", ExternalKind::Global, 300));
        }
        other => panic!("unexpected {:?}", other),
    }
    match iter.next().unwrap().unwrap() {
        Instance::Instantiate { module_index, args } => {
            assert_eq!(module_index, 7);
            assert_eq!(args.len(), 2);
            assert_eq!(args[0].name, "x");
            assert_eq!(args[1].name, "y");
            assert_eq!(args[1].index, 1);
        }
        other => panic!("unexpected {:?}", other),
    }
    match iter.next().unwrap().unwrap() {
        Instance::FromExports(e) => assert!(e.is_empty()),
        other => panic!("unexpected {:?}", other),
    }
    assert!(iter.next().is_none());
}

#[test]
fn iteration_stops_at_count_despite_extra_bytes() {
    let data = [0x01, 0x01, 0x00, 0xff, 0xff, 0xff];
    let reader = InstanceSectionReader::new(&data, 0).unwrap();
    let mut iter = reader.into_iter();
    assert!(matches!(iter.next(), Some(Ok(Instance::FromExports(_)))));
    assert!(iter.next().is_none());
    assert!(iter.next().is_none());
}

#[test]
fn iteration_stops_after_first_error() {
    let data = [0x03, 0x07, 0x01, 0x00];
    let reader = InstanceSectionReader::new(&data, 20).unwrap();
    let mut iter = reader.into_iter();
    assert_eq!(
        iter.next().unwrap().unwrap_err(),
        DecodeError::InvalidDiscriminant { byte: 0x07, offset: 21 }
    );
    assert!(iter.next().is_none());
}

#[test]
fn instance_discriminant_rejected() {
    for b in 2u8..=255 {
        let data = [0x01, b, 0x00];
        let mut reader = InstanceSectionReader::new(&data, 0).unwrap();
        assert_eq!(
            reader.read().unwrap_err(),
            DecodeError::InvalidDiscriminant { byte: b, offset: 1 }
        );
        assert_eq!(reader.original_position(), 1);
    }
}

#[test]
fn instantiation_arg_tag_rejected() {
    let data = [0x01, 0x00, 0x01, 0x01, 0x03, b'f', b'o', b'o', 0x05, 0x00];
    let mut reader = InstanceSectionReader::new(&data, 0).unwrap();
    assert_eq!(
        reader.read().unwrap_err(),
        DecodeError::InvalidTag { byte: 0x05, offset: 8 }
    );
}

#[test]
fn truncation_gives_eof() {
    let mut instances = InstanceSection::new();
    instances.instantiate(1, &[("foo", ModuleArg::Instance(0))]);
    instances.export_items(&[("bar", Export::Table(300))]);
    let mut sink = Vec::new();
    instances.encode(&mut sink);
    for k in 1..sink.len() {
        let mut reader = InstanceSectionReader::new(&sink[..k], 0).unwrap();
        let first = reader.read();
        let second = reader.read();
        let failed = first.is_err() || second.is_err();
        assert!(failed, "prefix of {} bytes decoded fully", k);
        let err = if let Err(e) = first { e } else { second.unwrap_err() };
        assert!(matches!(err, DecodeError::UnexpectedEof { .. }));
    }
}

#[test]
fn reader_new_on_empty_data() {
    assert_eq!(
        InstanceSectionReader::new(&[], 5).unwrap_err(),
        DecodeError::UnexpectedEof { offset: 5 }
    );
    let reader = InstanceSectionReader::new(&[0x00], 5).unwrap();
    assert_eq!(reader.get_count(), 0);
    assert_eq!(reader.range(), (5, 6));
    let mut iter = reader.into_iter();
    assert!(iter.next().is_none());
}

#[test]
fn error_offset_accessor() {
    let e = DecodeError::InvalidTag { byte: 9, offset: 33 };
    assert_eq!(e.offset(), 33);
}

#[test]
fn export_empty_name_and_largest_index() {
    let mut exports = ExportSection::new();
    exports.export("", Export::Global(u32::MAX));
    let mut sink = Vec::new();
    exports.encode(&mut sink);
    assert_eq!(sink, vec![0x01, 0x00, 0x03, 0xff, 0xff, 0xff, 0xff, 0x0f]);
    let mut r = BinaryReader::new_with_offset(&sink[1..], 0);
    let e = r.read_export().unwrap();
    assert_eq!((e.name, e.kind, e.index), ("", ExternalKind::Global, u32::MAX));
}

#[test]
fn instantiate_without_args() {
    let mut instances = InstanceSection::new();
    instances.instantiate(200, &[]);
    assert!(!instances.is_empty());
    let mut sink = Vec::new();
    instances.encode(&mut sink);
    assert_eq!(sink, vec![0x01, 0x00, 0xc8, 0x01, 0x00]);
    let mut reader = InstanceSectionReader::new(&sink, 0).unwrap();
    match reader.read().unwrap() {
        Instance::Instantiate { module_index, args } => {
            assert_eq!(module_index, 200);
            assert!(args.is_empty());
        }
        other => panic!("unexpected {:?}", other),
    }
    assert!(reader.eof());
}

#[test]
fn instantiation_arg_accepts_export_family_kinds() {
    let data = [0x01, 0x00, 0x00, 0x01, 0x01, b'm', 0x02, 0x05];
    let mut reader = InstanceSectionReader::new(&data, 0).unwrap();
    match reader.read().unwrap() {
        Instance::Instantiate { args, .. } => {
            assert_eq!((args[0].name, args[0].kind, args[0].index), ("m", ExternalKind::Memory, 5));
        }
        other => panic!("unexpected {:?}", other),
    }
}

#[test]
fn empty_sections_encode_to_zero_count() {
    let exports = ExportSection::default();
    assert!(exports.is_empty());
    assert_eq!(exports.len(), 0);
    let mut sink = Vec::new();
    exports.encode(&mut sink);
    assert_eq!(sink, vec![0x00]);
    let instances = InstanceSection::default();
    assert!(instances.is_empty());
    assert_eq!(instances.id(), 2);
    let mut sink = Vec::new();
    instances.encode(&mut sink);
    assert_eq!(sink, vec![0x00]);
}

#[test]
fn range_is_whole_buffer_and_unchanged_by_reads() {
    let data = [0x02, 0x01, 0x00, 0x01, 0x00];
    let mut reader = InstanceSectionReader::new(&data, 10).unwrap();
    assert_eq!(reader.range(), (10, 15));
    reader.read().unwrap();
    assert_eq!(reader.range(), (10, 15));
    reader.read().unwrap();
    assert_eq!(reader.range(), (10, 15));
    assert_eq!(reader.original_position(), 15);
    let mut r = BinaryReader::new_with_offset(&data, 3);
    r.read_u8().unwrap();
    assert_eq!(r.range(), (3, 8));
}

#[test]
fn bad_tag_inside_export_items_record() {
    let data = [
        0x01, 0x01, 0x02, 0x01, b'a', 0x00, 0x00, 0x01, b'b', 0x09, 0x00,
    ];
    let mut reader = InstanceSectionReader::new(&data, 0).unwrap();
    assert_eq!(
        reader.read().unwrap_err(),
        DecodeError::InvalidTag { byte: 0x09, offset: 9 }
    );
    assert_eq!(reader.original_position(), 1);
}
