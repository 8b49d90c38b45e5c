//! Decoding the bytes of type and symbol streams.

use ezpdb::decode::{chain_field_lists, decode_input, parse_pdb_bytes, ModuleBytes, PdbBytes};
use ezpdb::error::Error;
use ezpdb::records::{RawField, RawRecord, RawSymbol, RawType, RawTypeStream};

/// An `S_PUB32` record: flags, offset, segment and name.
fn pub_record(name: &str, flags: u32, offset: u32, segment: u16) -> Vec<u8> {
    let mut data = Vec::new();
    data.extend_from_slice(&0x110eu16.to_le_bytes());
    data.extend_from_slice(&flags.to_le_bytes());
    data.extend_from_slice(&offset.to_le_bytes());
    data.extend_from_slice(&segment.to_le_bytes());
    data.extend_from_slice(name.as_bytes());
    data.push(0);
    while (data.len() + 2) % 4 != 0 {
        data.push(0);
    }
    let mut rec = (data.len() as u16).to_le_bytes().to_vec();
    rec.extend_from_slice(&data);
    rec
}

fn bytes() -> PdbBytes {
    PdbBytes {
        path: "d.pdb".to_string(),
        machine: 0x8664,
        age: 2,
        guid: [7; 16],
        signature: 9,
        version: 20000404,
        tpi: Vec::new(),
        ipi: None,
        section_headers: None,
        global_symbols: pub_record("main", 2, 0x10, 1),
        modules: vec![ModuleBytes { name: "m.obj".to_string(), object_file_name: "m.lib".to_string(), symbols: None }],
    }
}

#[test]
fn symbol_bytes_decode_to_records() {
    let input = decode_input(bytes()).expect("an empty type stream decodes");
    assert_eq!(input.tpi.begin, 0x1000);
    assert!(input.tpi.records.is_empty());
    assert_eq!(input.global_symbols.len(), 1);
    match &input.global_symbols[0] {
        RawSymbol::Pub { name, flags, segment, offset } => {
            assert_eq!(name, "main");
            assert_eq!(*flags, 2);
            assert_eq!(*segment, 1);
            assert_eq!(*offset, 0x10);
        }
        other => panic!("unexpected record {:?}", other),
    }
    assert_eq!(input.modules.len(), 1);
    assert_eq!(input.modules[0].name, "m.obj");
    assert!(input.modules[0].symbols.is_none());
}

#[test]
fn an_invalid_type_stream_is_an_error() {
    let mut b = bytes();
    b.tpi = vec![1, 2, 3];
    assert!(decode_input(b).is_err());
}

#[test]
fn decoded_bytes_parse() {
    let pdb = parse_pdb_bytes(bytes(), Some(0x1000)).expect("the input parses");
    assert_eq!(pdb.public_symbols.len(), 1);
    assert_eq!(pdb.public_symbols[0].name, "main");
    assert_eq!(pdb.age, 2);
}

/// An `LF_MEMBER` field of type `int` (0x74).
fn member_field(name: &str, offset: u16) -> Vec<u8> {
    let mut f = Vec::new();
    f.extend_from_slice(&0x150du16.to_le_bytes());
    f.extend_from_slice(&3u16.to_le_bytes());
    f.extend_from_slice(&0x74u32.to_le_bytes());
    f.extend_from_slice(&offset.to_le_bytes());
    f.extend_from_slice(name.as_bytes());
    f.push(0);
    f
}

/// An `LF_INDEX` field linking to field list `ty`.
fn index_field(ty: u32) -> Vec<u8> {
    let mut f = Vec::new();
    f.extend_from_slice(&0x1404u16.to_le_bytes());
    f.extend_from_slice(&0u16.to_le_bytes());
    f.extend_from_slice(&ty.to_le_bytes());
    f
}

/// An `LF_FIELDLIST` record holding `fields`.
fn field_list(fields: &[Vec<u8>]) -> Vec<u8> {
    let mut data = 0x1203u16.to_le_bytes().to_vec();
    for f in fields {
        data.extend_from_slice(f);
    }
    let mut rec = (data.len() as u16).to_le_bytes().to_vec();
    rec.extend_from_slice(&data);
    rec
}

/// A type stream: its header, then `records` from index 0x1000 on.
fn type_stream(records: &[Vec<u8>], header_size: u32, record_bytes: Option<u32>) -> Vec<u8> {
    let body: Vec<u8> = records.concat();
    let mut h = vec![0u8; 56];
    h[0..4].copy_from_slice(&20040203u32.to_le_bytes());
    h[4..8].copy_from_slice(&header_size.to_le_bytes());
    h[8..12].copy_from_slice(&0x1000u32.to_le_bytes());
    h[12..16].copy_from_slice(&(0x1000 + records.len() as u32).to_le_bytes());
    h[16..20].copy_from_slice(&record_bytes.unwrap_or(body.len() as u32).to_le_bytes());
    h.extend_from_slice(&body);
    h
}

fn member_names(r: &RawRecord) -> Vec<String> {
    match r {
        RawRecord::Parsed(RawType::FieldList { fields }) => fields
            .iter()
            .map(|f| match f {
                RawField::Member { name, .. } => name.clone(),
                other => panic!("unexpected field {:?}", other),
            })
            .collect(),
        other => panic!("unexpected record {:?}", other),
    }
}

#[test]
fn field_lists_gather_their_chain() {
    let mut b = bytes();
    b.tpi = type_stream(
        &[
            field_list(&[member_field("a", 0), index_field(0x1001)]),
            field_list(&[member_field("b", 4)]),
        ],
        56,
        None,
    );
    let input = decode_input(b).expect("the type stream decodes");
    assert_eq!(input.tpi.begin, 0x1000);
    assert_eq!(input.tpi.end, 0x1002);
    assert_eq!(input.tpi.records.len(), 2);
    assert_eq!(member_names(&input.tpi.records[0]), vec!["a".to_string(), "b".to_string()]);
    assert_eq!(member_names(&input.tpi.records[1]), vec!["b".to_string()]);
}

#[test]
fn a_field_list_chain_that_loops_ends() {
    let mut b = bytes();
    b.tpi = type_stream(
        &[
            field_list(&[member_field("a", 0), index_field(0x1001)]),
            field_list(&[member_field("b", 4), index_field(0x1000)]),
        ],
        56,
        None,
    );
    let input = decode_input(b).expect("the type stream decodes");
    assert_eq!(member_names(&input.tpi.records[0]), vec!["a".to_string(), "b".to_string()]);
    assert_eq!(member_names(&input.tpi.records[1]), vec!["b".to_string(), "a".to_string()]);
}

#[test]
fn a_header_whose_sizes_overflow_is_refused() {
    let mut b = bytes();
    b.tpi = type_stream(&[], 56, Some(0xffff_fff0));
    match decode_input(b) {
        Err(Error::PdbCrateError(m)) => assert!(m.contains("exceed the size of any stream")),
        other => panic!("unexpected result {:?}", other),
    }
}

fn member(name: &str) -> RawField {
    RawField::Member { ty: 0x74, name: name.to_string(), offset: Some(0) }
}

#[test]
fn chains_follow_the_last_link_and_stop_where_no_field_list_is() {
    let records = vec![
        // 0x1000: two links; the last one counts.
        RawRecord::Parsed(RawType::FieldList {
            fields: vec![member("a"), RawField::Index { ty: 0x1003 }, member("b"), RawField::Index { ty: 0x1001 }],
        }),
        // 0x1001
        RawRecord::Parsed(RawType::FieldList { fields: vec![member("c"), RawField::Index { ty: 0x1002 }] }),
        // 0x1002: not a field list, so the chain ends before it.
        RawRecord::Parsed(RawType::Pointer { ty: 0x74, attr: 0x1000c }),
        // 0x1003: links past the last record.
        RawRecord::Parsed(RawType::FieldList { fields: vec![member("d"), RawField::Index { ty: 0x2000 }] }),
    ];
    let s = chain_field_lists(RawTypeStream { begin: 0x1000, end: 0x1004, records });
    assert_eq!(s.begin, 0x1000);
    assert_eq!(s.end, 0x1004);
    assert_eq!(member_names(&s.records[0]), vec!["a".to_string(), "b".to_string(), "c".to_string()]);
    assert_eq!(member_names(&s.records[1]), vec!["c".to_string()]);
    assert!(matches!(s.records[2], RawRecord::Parsed(RawType::Pointer { ty: 0x74, .. })));
    assert_eq!(member_names(&s.records[3]), vec!["d".to_string()]);
}
