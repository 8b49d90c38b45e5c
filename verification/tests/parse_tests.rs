//! Parsing a small PDB given as plain records: header values, types, symbol
//! locations, debug modules, and the report built from the result.

use ezpdb::api_compat::api_summary;
use ezpdb::new_pdb::{new_pdb_data, parse_pdb_new};
use ezpdb::parse::{parse_pdb_data, PdbInput, RawModule};
use ezpdb::records::{RawField, RawRecord, RawSymbol, RawType, RawTypeStream};
use ezpdb::symbol_types::{MachineType, ParsedPdb, Procedure, Version};
use ezpdb::sections::decode_section_headers;
use ezpdb::type_info::{ClassKind, PrimitiveKind, Type, VariantValue};

const GUID: [u8; 16] = [
    0x67, 0xe5, 0x50, 0x44, 0x10, 0xb1, 0x42, 0x6f, 0x92, 0x47, 0xbb, 0x68, 0x0e, 0x5f, 0xe0, 0xc8,
];

fn section_header(virtual_address: u32) -> Vec<u8> {
    let mut b = vec![0u8; 40];
    b[..5].copy_from_slice(b".text");
    b[8..12].copy_from_slice(&0x100u32.to_le_bytes());
    b[12..16].copy_from_slice(&virtual_address.to_le_bytes());
    b
}

fn tpi() -> RawTypeStream {
    let records = vec![
        // 0x1000
        RawType::FieldList {
            fields: vec![
                RawField::Member { ty: 0x74, name: "count".to_string(), offset: Some(0) },
                RawField::Member { ty: 0x1002, name: "flags".to_string(), offset: Some(4) },
            ],
        },
        // 0x1001
        RawType::Struct {
            name: "Foo".to_string(),
            unique_name: Some(".?AUFoo@@".to_string()),
            property: 0x0200,
            field_list: 0x1000,
            derivation_list: 0,
            length: Some(8),
        },
        // 0x1002
        RawType::Bitfield { underlying_type: 0x75, length: 3, position: 1 },
        // 0x1003
        RawType::Array { element_type: 0x74, index_type: 0x23, len: Some(16) },
        // 0x1004
        RawType::ArgList { args: vec![0x74] },
        // 0x1005
        RawType::Proc { return_value: 0x03, arg_list: 0x1004, call: 0 },
        // 0x1006
        RawType::FuncId { name: "misplaced".to_string(), scope: 0, func_type: 0 },
    ];
    {
        let records: Vec<RawRecord> = records.into_iter().map(RawRecord::Parsed).collect();
        RawTypeStream { begin: 0x1000, end: 0x1000 + records.len() as u32, records }
    }
}

fn input(path: &str) -> PdbInput {
    PdbInput {
        path: path.to_string(),
        machine: 0x8664,
        age: 3,
        guid: GUID,
        signature: 0x5f00_0000,
        version: 20000404,
        tpi: tpi(),
        ipi: None,
        section_headers: Some(section_header(0x1000)),
        global_symbols: vec![
            RawSymbol::Pub { name: "foo".to_string(), flags: 2, segment: 1, offset: 0x10 },
            RawSymbol::Pub { name: "nowhere".to_string(), flags: 0, segment: 0, offset: 0x10 },
            RawSymbol::Data {
                kind: 0x110d,
                name: "g_foo".to_string(),
                type_index: 0x1001,
                segment: 1,
                offset: 0x20,
            },
            RawSymbol::Data {
                kind: 0x110d,
                name: "g_unknown".to_string(),
                type_index: 0x9999,
                segment: 1,
                offset: 0x28,
            },
            RawSymbol::Other,
        ],
        modules: vec![
            RawModule {
                name: "main.obj".to_string(),
                object_file_name: "app.lib".to_string(),
                symbols: Some(vec![
                    RawSymbol::Proc {
                        kind: 0x1110,
                        name: "main".to_string(),
                        proc_type: 0x1005,
                        segment: 1,
                        offset: 0x30,
                        proc_len: 0x10,
                        debug_start: 1,
                        debug_end: 0xf,
                        signature: None,
                    },
                    RawSymbol::Data {
                        kind: 0x110d,
                        name: "module_data".to_string(),
                        type_index: 0x1001,
                        segment: 1,
                        offset: 0x40,
                    },
                ]),
            },
            RawModule { name: "gone.obj".to_string(), object_file_name: "gone.lib".to_string(), symbols: None },
        ],
    }
}

fn parsed(base: Option<usize>) -> ParsedPdb {
    parse_pdb_data(input("test.pdb"), base).expect("the input parses")
}

fn node(pdb: &ParsedPdb, idx: u32) -> &Type {
    &pdb.nodes[pdb.types[&idx].0]
}

#[test]
fn header_values_come_from_the_input() {
    let pdb = parsed(None);
    assert_eq!(pdb.path, "test.pdb");
    assert_eq!(pdb.machine_type, Some(MachineType::Amd64));
    assert_eq!(pdb.age, 3);
    assert_eq!(pdb.guid, GUID);
    assert_eq!(pdb.timestamp, 0x5f00_0000);
    assert_eq!(pdb.version, Version::V41);
}

#[test]
fn struct_fields_resolve_through_the_type_map() {
    let pdb = parsed(None);
    match node(&pdb, 0x1001) {
        Type::Class(c) => {
            assert_eq!(c.name, "Foo");
            assert_eq!(c.size, 8);
            assert_eq!(c.fields.len(), 2);
            match &pdb.nodes[c.fields[1].0] {
                Type::Member(m) => {
                    assert_eq!(m.name, "flags");
                    assert_eq!(m.offset, 4);
                    match &pdb.nodes[m.underlying_type.0] {
                        Type::Bitfield(b) => {
                            assert_eq!(b.len, 3);
                            assert_eq!(b.position, 1);
                        }
                        other => panic!("unexpected member type {:?}", other),
                    }
                }
                other => panic!("unexpected field {:?}", other),
            }
        }
        other => panic!("unexpected node {:?}", other),
    }
    match node(&pdb, 0x74) {
        Type::Primitive(p) => assert_eq!(p.kind, PrimitiveKind::I32),
        other => panic!("unexpected node {:?}", other),
    }
}

#[test]
fn ipi_records_in_the_tpi_stream_are_left_out() {
    let pdb = parsed(None);
    assert!(!pdb.types.contains_key(&0x1006));
    assert!(pdb.ipi_types.is_empty());
}

#[test]
fn arrays_are_completed_with_element_counts() {
    let pdb = parsed(None);
    match node(&pdb, 0x1003) {
        Type::Array(a) => {
            assert_eq!(a.size, 16);
            assert_eq!(a.dimensions_bytes, vec![16]);
            assert_eq!(a.dimensions_elements, vec![4]);
        }
        other => panic!("unexpected node {:?}", other),
    }
}

#[test]
fn every_type_key_is_listed_once_in_order() {
    let pdb = parsed(None);
    assert_eq!(pdb.type_order.len(), pdb.types.len());
    for k in &pdb.type_order {
        assert!(pdb.types.contains_key(k));
    }
}

#[test]
fn symbol_locations_resolve_through_the_section_headers() {
    let pdb = parsed(None);
    assert_eq!(pdb.public_symbols.len(), 2);
    let foo = &pdb.public_symbols[0];
    assert_eq!(foo.name, "foo");
    assert!(foo.is_function);
    assert!(!foo.is_code);
    assert_eq!(foo.section, Some(1));
    assert_eq!(foo.section_offset, 0x10);
    assert_eq!(foo.rva, Some(0x1010));
    assert_eq!(foo.address, None);
    assert_eq!(foo.format_location(), "0001:00000010");

    let nowhere = &pdb.public_symbols[1];
    assert_eq!(nowhere.section, None);
    assert_eq!(nowhere.rva, None);
    assert!(!nowhere.has_valid_location());
    assert_eq!(nowhere.section_and_offset(), None);
}

#[test]
fn data_symbols_come_from_the_global_stream_only() {
    let pdb = parsed(None);
    assert_eq!(pdb.global_data.len(), 1);
    let d = &pdb.global_data[0];
    assert_eq!(d.name, "g_foo");
    assert!(d.is_global);
    assert_eq!(d.rva, Some(0x1020));
    assert_eq!(d.ty, pdb.types[&0x1001]);
}

#[test]
fn procedures_come_from_module_streams() {
    let pdb = parsed(None);
    assert_eq!(pdb.procedures.len(), 1);
    let p = &pdb.procedures[0];
    assert_eq!(p.name, "main");
    assert!(p.is_global);
    assert!(!p.is_dpc);
    assert_eq!(p.rva, Some(0x1030));
    assert_eq!(p.len, 0x10);
    assert_eq!(p.end_rva(), Some(0x1040));
    assert!(p.contains_rva(0x1030));
    assert!(p.contains_rva(0x103f));
    assert!(!p.contains_rva(0x1040));
}

#[test]
fn debug_modules_keep_their_order() {
    let pdb = parsed(None);
    assert_eq!(pdb.debug_modules.len(), 2);
    assert_eq!(pdb.debug_modules[0].name, "main.obj");
    assert_eq!(pdb.debug_modules[0].object_file_name, "app.lib");
    assert_eq!(pdb.debug_modules[1].name, "gone.obj");
    assert!(pdb.debug_modules[1].source_files.is_none());
}

#[test]
fn section_fields_are_independent_of_the_base_address() {
    let no_base = parsed(None);
    let base = 0x1_4000_0000usize;
    let with_base = parsed(Some(base));
    assert_eq!(no_base.public_symbols.len(), with_base.public_symbols.len());
    for (a, b) in no_base.public_symbols.iter().zip(with_base.public_symbols.iter()) {
        assert_eq!(a.section, b.section);
        assert_eq!(a.section_offset, b.section_offset);
        assert_eq!(a.rva, b.rva);
        assert_eq!(a.address, None);
        assert_eq!(b.address, b.rva.map(|r| r + base));
    }
    let p = &with_base.procedures[0];
    assert_eq!(p.address, Some(base + 0x1030));
    assert_eq!(p.end_address(), Some(base + 0x1040));
    assert!(p.contains_address(base + 0x1030));
    assert!(!p.contains_address(0x1030));
}

#[test]
fn headers_that_are_not_whole_records_give_no_rva() {
    let mut inp = input("x.pdb");
    inp.section_headers = Some(vec![0u8; 39]);
    let pdb = parse_pdb_data(inp, None).expect("the input parses");
    assert_eq!(pdb.public_symbols[0].section, Some(1));
    assert_eq!(pdb.public_symbols[0].rva, None);
}

#[test]
fn an_array_of_an_unsized_element_is_left_out() {
    let mut inp = input("x.pdb");
    inp.tpi.records.push(RawRecord::Parsed(RawType::Array {
        element_type: 0x1005,
        index_type: 0x23,
        len: Some(8),
    }));
    let pdb = parse_pdb_data(inp, None).expect("the input parses");
    assert!(!pdb.types.contains_key(&0x1007));
    assert!(pdb.types.contains_key(&0x1003));
}

#[test]
fn undecodable_and_unknown_records_are_left_out() {
    let mut inp = input("x.pdb");
    inp.tpi.records.push(RawRecord::Undecodable);
    inp.tpi.records.push(RawRecord::Parsed(RawType::Unknown));
    let pdb = parse_pdb_data(inp, None).expect("the input parses");
    assert!(!pdb.types.contains_key(&0x1007));
    assert!(!pdb.types.contains_key(&0x1008));
}

#[test]
fn records_that_refer_to_themselves_are_left_out() {
    let mut inp = input("x.pdb");
    // 0x1007 is a pointer to a modifier of itself.
    inp.tpi.records.push(RawRecord::Parsed(RawType::Modifier { underlying_type: 0x1007, attributes: 1 }));
    let pdb = parse_pdb_data(inp, None).expect("the input parses");
    assert!(!pdb.types.contains_key(&0x1007));
}

#[test]
fn the_report_lists_types_symbols_and_modules() {
    let pdb = parsed(None);
    let report = new_pdb_data(&pdb);
    assert_eq!(report.header.age, 3);
    assert_eq!(report.header.guid, "67e55044-10b1-426f-9247-bb680e5fe0c8");
    assert_eq!(report.header.guid, format!("{:?}", uuid::Uuid::from_bytes(GUID)));

    // Field lists and argument lists are not reported as types.
    assert!(report.types.iter().all(|t| t.index != 0x1000 && t.index != 0x1004));
    assert_eq!(report.types.len(), pdb.types.len() - 2);

    let foo = report.types.iter().find(|t| t.index == 0x1001).expect("Foo is reported");
    assert_eq!(foo.kind, "Class");
    assert_eq!(foo.name.as_deref(), Some("Foo"));
    assert_eq!(foo.size, Some(8));
    assert_eq!(foo.fields.len(), 2);
    assert_eq!(foo.fields[0].name, "count");
    assert_eq!(foo.fields[0].type_kind.as_deref(), Some("Primitive(I32)"));
    assert_eq!(foo.fields[1].type_kind.as_deref(), Some("Bitfield"));
    assert_eq!(foo.fields[1].bitfield_length, Some(3));
    assert_eq!(foo.fields[1].bitfield_position, Some(1));

    let long = report.types.iter().find(|t| t.index == 0x74).expect("long is reported");
    assert_eq!(long.kind, "Primitive(I32)");

    assert_eq!(report.symbols.public_symbols[0].offset, Some(0x1010));
    assert!(report.symbols.public_symbols[0].is_function);
    assert_eq!(report.symbols.procedures[0].len, 0x10);
    assert_eq!(report.symbols.data_symbols[0].name, "g_foo");
    assert_eq!(report.modules[1].object_file, "gone.lib");
}

#[test]
fn parse_pdb_new_reports_the_parse() {
    let report = parse_pdb_new(input("y.pdb")).expect("the input parses");
    assert_eq!(report.symbols.public_symbols.len(), 2);
    assert_eq!(report.modules.len(), 2);
}

#[test]
fn report_records_render_as_debug_does() {
    let pdb = parsed(None);
    let report = new_pdb_data(&pdb);
    for t in &report.types {
        assert_eq!(t.debug_text(), format!("{:?}", t));
    }
    for s in &report.symbols.public_symbols {
        assert_eq!(s.debug_text(), format!("{:?}", s));
    }
    for p in &report.symbols.procedures {
        assert_eq!(p.debug_text(), format!("{:?}", p));
    }
    for m in &report.modules {
        assert_eq!(m.debug_text(), format!("{:?}", m));
    }
}

fn ipi() -> RawTypeStream {
    let records = vec![
        // 0x1000
        RawType::StringId { name: "cl.exe".to_string(), id: 0 },
        // 0x1001
        RawType::StringId { name: "-O2".to_string(), id: 0 },
        // 0x1002
        RawType::BuildInfo { args: vec![0x1000, 0, 0x1001] },
        // 0x1003
        RawType::FuncId { name: "main".to_string(), scope: 0, func_type: 0x1005 },
        // 0x1004: a TPI kind in the IPI stream
        RawType::Pointer { ty: 0x74, attr: 0x1000c },
    ];
    {
        let records: Vec<RawRecord> = records.into_iter().map(RawRecord::Parsed).collect();
        RawTypeStream { begin: 0x1000, end: 0x1000 + records.len() as u32, records }
    }
}

fn input_with_ipi() -> PdbInput {
    let mut inp = input("ipi.pdb");
    inp.ipi = Some(ipi());
    inp.global_symbols.push(RawSymbol::BuildInfo { item: 0x1002, item_rendering: None });
    inp
}

#[test]
fn ipi_items_go_to_the_ipi_map() {
    let pdb = parse_pdb_data(input_with_ipi(), None).expect("the input parses");
    match &pdb.nodes[pdb.ipi_types[&0x1002].0] {
        Type::BuildInfoType(b) => assert_eq!(b.items.len(), 2),
        other => panic!("unexpected node {:?}", other),
    }
    match &pdb.nodes[pdb.ipi_types[&0x1003].0] {
        Type::FuncId(f) => {
            assert_eq!(f.name, "main");
            // The function type is looked up in the TPI map.
            assert_eq!(f.function_type, Some(pdb.types[&0x1005]));
        }
        other => panic!("unexpected node {:?}", other),
    }
    assert!(matches!(&pdb.nodes[pdb.ipi_types[&0x1004].0], Type::Pointer(_)));
    for (_, r) in pdb.types.iter() {
        assert!(!matches!(
            &pdb.nodes[r.0],
            Type::FuncId(_)
                | Type::MFuncId(_)
                | Type::StringId(_)
                | Type::SubStrList(_)
                | Type::BuildInfoType(_)
                | Type::UdtSrcLineType(_)
        ));
    }
}

#[test]
fn build_info_takes_the_string_items_it_names() {
    let pdb = parse_pdb_data(input_with_ipi(), None).expect("the input parses");
    let info = pdb.assembly_info.build_info.as_ref().expect("a build info symbol was given");
    assert_eq!(info.arguments, vec!["cl.exe".to_string(), "-O2".to_string()]);
    assert!(pdb.assembly_info.compiler_info.is_none());
}

#[test]
fn locations_are_consistent_for_every_symbol() {
    for base in [None, Some(0x1000_0000usize)] {
        let pdb = parse_pdb_data(input_with_ipi(), base).expect("the input parses");
        let check = |section: Option<u16>, offset: u32, rva: Option<usize>, address: Option<usize>| {
            if section.is_none() {
                assert_eq!(rva, None);
            }
            if let Some(s) = section {
                assert!(s >= 1);
            }
            if let Some(r) = rva {
                assert_eq!(r, 0x1000 + offset as usize);
            }
            assert_eq!(address, rva.and_then(|r| base.map(|b| r + b)));
        };
        for s in &pdb.public_symbols {
            check(s.section, s.section_offset, s.rva, s.address);
        }
        for p in &pdb.procedures {
            check(p.section, p.section_offset, p.rva, p.address);
        }
        for d in &pdb.global_data {
            check(d.section, d.section_offset, d.rva, d.address);
        }
    }
}

#[test]
fn header_counts_and_symbols_summarise_a_parse() {
    let pdb = parse_pdb_data(input_with_ipi(), None).expect("the input parses");
    let s = api_summary(&pdb);
    assert_eq!(s.path, "ipi.pdb");
    assert_eq!(s.guid, "67e55044-10b1-426f-9247-bb680e5fe0c8");
    assert_eq!(s.machine_type, format!("{:?}", pdb.machine_type));
    assert_eq!(s.version, format!("{:?}", pdb.version));
    assert_eq!(s.public_symbols[0], ("foo".to_string(), Some(0x1010)));
    assert_eq!(s.types, pdb.types.len());
    assert_eq!(s.ipi_types, Some(pdb.ipi_types.len()));
}

#[test]
fn other_versions_render_with_their_number() {
    let mut inp = input("v.pdb");
    inp.version = 20091201;
    inp.machine = 0x1234;
    let pdb = parse_pdb_data(inp, None).expect("the input parses");
    assert_eq!(pdb.version, Version::Other(20091201));
    assert_eq!(pdb.machine_type, None);
    let s = api_summary(&pdb);
    assert_eq!(s.version, "Other(20091201)");
    assert_eq!(s.machine_type, "None");
}

fn input_with_types(records: Vec<RawType>) -> PdbInput {
    let mut inp = input("t.pdb");
    inp.tpi = {
        let records: Vec<RawRecord> = records.into_iter().map(RawRecord::Parsed).collect();
        RawTypeStream { begin: 0x1000, end: 0x1000 + records.len() as u32, records }
    };
    inp.global_symbols.clear();
    inp.modules.clear();
    inp
}

fn plain_struct(name: &str, property: u16, length: u64) -> RawType {
    RawType::Struct {
        name: name.to_string(),
        unique_name: Some(format!(".?AU{}@@", name)),
        property,
        field_list: 0,
        derivation_list: 0,
        length: Some(length),
    }
}

#[test]
fn class_kinds_follow_name_and_properties() {
    let pdb = parse_pdb_data(
        input_with_types(vec![
            plain_struct("IUnknownish", 0x10, 8),
            plain_struct("Widget", 0x2, 8),
            plain_struct("Point", 0x0, 8),
            plain_struct("Inner", 0x0, 8),
        ]),
        None,
    )
    .expect("the input parses");
    let kind = |idx: u32| match node(&pdb, idx) {
        Type::Class(c) => c.kind,
        other => panic!("unexpected node {:?}", other),
    };
    assert_eq!(kind(0x1000), ClassKind::Interface);
    assert_eq!(kind(0x1001), ClassKind::Class);
    assert_eq!(kind(0x1002), ClassKind::Struct);
    assert_eq!(kind(0x1003), ClassKind::Struct);
    assert_eq!(ClassKind::Interface.name(), "Interface");
}

#[test]
fn forward_references_take_the_size_of_their_definition() {
    let pdb = parse_pdb_data(
        input_with_types(vec![
            // 0x1000: a forward reference (size unknown here)
            plain_struct("Fwd", 0x280, 0),
            // 0x1001: an array of it
            RawType::Array { element_type: 0x1000, index_type: 0x23, len: Some(24) },
            // 0x1002: the definition
            plain_struct("Fwd", 0x200, 8),
        ]),
        None,
    )
    .expect("the input parses");
    match node(&pdb, 0x1001) {
        Type::Array(a) => {
            assert_eq!(a.stride, None);
            assert_eq!(a.dimensions_elements, vec![3]);
        }
        other => panic!("unexpected node {:?}", other),
    }
    assert_eq!(ezpdb::type_size::node_size(&pdb, pdb.types[&0x1000], true), Some(8));
    assert_eq!(ezpdb::type_size::node_size(&pdb, pdb.types[&0x1000], false), Some(0));
}

#[test]
fn enumerators_take_the_smallest_type_that_holds_them() {
    let pdb = parse_pdb_data(
        input_with_types(vec![
            RawType::FieldList {
                fields: vec![
                    RawField::Enumerate { name: "A".to_string(), as_unsigned: Some(1), as_signed: Some(1) },
                    RawField::Enumerate { name: "B".to_string(), as_unsigned: Some(70000), as_signed: Some(70000) },
                    RawField::Enumerate { name: "C".to_string(), as_unsigned: None, as_signed: Some(-2) },
                ],
            },
            RawType::Enum {
                name: "E".to_string(),
                unique_name: None,
                property: 0,
                underlying_type: 0x74,
                fields: 0x1000,
            },
        ]),
        None,
    )
    .expect("the input parses");
    match node(&pdb, 0x1001) {
        Type::Enumeration(e) => {
            let values: Vec<_> = e.variants.iter().map(|v| (v.name.clone(), v.value)).collect();
            assert_eq!(
                values,
                vec![
                    ("A".to_string(), VariantValue::U8(1)),
                    ("B".to_string(), VariantValue::U32(70000)),
                    ("C".to_string(), VariantValue::I8(-2)),
                ]
            );
            assert_eq!(e.variants[2].value.as_i64(), -2);
        }
        other => panic!("unexpected node {:?}", other),
    }
    let report = new_pdb_data(&pdb);
    let e = report.types.iter().find(|t| t.index == 0x1001).expect("E is reported");
    assert_eq!(e.variants.iter().map(|v| v.value).collect::<Vec<_>>(), vec![1, 70000, -2]);
}

#[test]
fn section_header_records_decode_little_endian() {
    let mut bytes = section_header(0x1234_5678);
    bytes.extend(section_header(0x2000));
    let headers = decode_section_headers(&bytes).expect("two whole records");
    assert_eq!(headers.len(), 2);
    assert_eq!(headers[0].virtual_address, 0x1234_5678);
    assert_eq!(headers[0].virtual_size, 0x100);
    assert_eq!(&headers[0].name, b".text\0\0\0");
    assert_eq!(headers[1].virtual_address, 0x2000);
    assert!(decode_section_headers(&bytes[..79]).is_none());
}

/// Records whose references are primitives or earlier records that convert
/// are all converted; one that needs an unconvertible record is not.
#[test]
fn records_converting_in_order_are_all_entered() {
    let tpi_records = vec![
        // 0x1000: const int
        RawRecord::Parsed(RawType::Modifier { underlying_type: 0x74, attributes: 1 }),
        // 0x1001: pointer to 0x1000
        RawRecord::Parsed(RawType::Pointer { ty: 0x1000, attr: 0x1000c }),
        // 0x1002
        RawRecord::Parsed(RawType::ArgList { args: vec![0x1001, 0x74] }),
        // 0x1003
        RawRecord::Parsed(RawType::Proc { return_value: 0x03, arg_list: 0x1002, call: 0 }),
        // 0x1004
        RawRecord::Undecodable,
        // 0x1005: needs the undecodable record
        RawRecord::Parsed(RawType::Alias { name: "broken".to_string(), utype: 0x1004 }),
        // 0x1006
        RawRecord::Parsed(RawType::FieldList {
            fields: vec![RawField::Member { ty: 0x1001, name: "p".to_string(), offset: Some(0) }],
        }),
        // 0x1007
        RawRecord::Parsed(RawType::Struct {
            name: "Holder".to_string(),
            unique_name: None,
            property: 0,
            field_list: 0x1006,
            derivation_list: 0,
            length: Some(8),
        }),
        // 0x1008: array of the structure
        RawRecord::Parsed(RawType::Array { element_type: 0x1007, index_type: 0x23, len: Some(16) }),
        // 0x1009: a field whose type record is undecodable is left out
        RawRecord::Parsed(RawType::FieldList {
            fields: vec![
                RawField::Member { ty: 0x1004, name: "lost".to_string(), offset: Some(0) },
                RawField::Member { ty: 0x74, name: "kept".to_string(), offset: Some(8) },
            ],
        }),
        // 0x100a
        RawRecord::Parsed(RawType::Struct {
            name: "Partial".to_string(),
            unique_name: None,
            property: 0,
            field_list: 0x1009,
            derivation_list: 0,
            length: Some(16),
        }),
        // 0x100b: a pointer whose target record is undecodable
        RawRecord::Parsed(RawType::Pointer { ty: 0x1004, attr: 0x1000c }),
    ];
    let ipi_records = vec![
        // 0x1000
        RawRecord::Parsed(RawType::StringId { name: "x.cpp".to_string(), id: 0 }),
        // 0x1001
        RawRecord::Parsed(RawType::SubStrList { ids: vec![0x1000] }),
        // 0x1002
        RawRecord::Parsed(RawType::StringId { name: "y".to_string(), id: 0x1001 }),
        // 0x1003
        RawRecord::Parsed(RawType::UdtSrcLine { ty: 0x1007, line: 12 }),
        // 0x1004: its type did not convert
        RawRecord::Parsed(RawType::UdtSrcLine { ty: 0x1005, line: 13 }),
    ];
    let mut inp = input("order.pdb");
    inp.tpi = RawTypeStream { begin: 0x1000, end: 0x1000 + tpi_records.len() as u32, records: tpi_records };
    inp.ipi = Some(RawTypeStream { begin: 0x1000, end: 0x1000 + ipi_records.len() as u32, records: ipi_records });
    inp.global_symbols = vec![];
    inp.modules = vec![];
    let pdb = parse_pdb_data(inp, None).expect("the input parses");
    for k in [0x1000u32, 0x1001, 0x1002, 0x1003, 0x1006, 0x1007, 0x1008, 0x1009, 0x100a, 0x100b] {
        assert!(pdb.types.contains_key(&k), "TPI record {:#x} is entered", k);
    }
    match &pdb.nodes[pdb.types[&0x100a].0] {
        Type::Class(c) => assert_eq!(c.fields.len(), 1),
        other => panic!("unexpected node {:?}", other),
    }
    match &pdb.nodes[pdb.types[&0x100b].0] {
        Type::Pointer(p) => assert_eq!(p.underlying_type, None),
        other => panic!("unexpected node {:?}", other),
    }
    assert!(!pdb.types.contains_key(&0x1004));
    assert!(!pdb.types.contains_key(&0x1005));
    for k in [0x1000u32, 0x1001, 0x1002, 0x1003] {
        assert!(pdb.ipi_types.contains_key(&k), "IPI record {:#x} is entered", k);
    }
    assert!(!pdb.ipi_types.contains_key(&0x1004));
}

#[test]
fn global_id_procedures_are_global() {
    let p = Procedure::from_record(
        0x1147,
        "f".to_string(),
        0x1000,
        1,
        0x10,
        4,
        0,
        3,
        None,
        &None,
        None,
    );
    assert!(p.is_global);
    assert!(!p.is_dpc);
    let q = Procedure::from_record(0x110f, "g".to_string(), 0x1000, 1, 0x10, 4, 0, 3, None, &None, None);
    assert!(!q.is_global);
}

#[test]
fn ipi_items_past_the_header_end_are_not_read() {
    let mut inp = input_with_ipi();
    if let Some(s) = inp.ipi.as_mut() {
        // Only the items 0x1000 and 0x1001 lie below the header's end.
        s.end = 0x1002;
    }
    let pdb = parse_pdb_data(inp, None).expect("the input parses");
    assert!(pdb.ipi_types.contains_key(&0x1000));
    assert!(pdb.ipi_types.contains_key(&0x1001));
    assert!(!pdb.ipi_types.contains_key(&0x1002));
    assert!(!pdb.ipi_types.contains_key(&0x1003));
    assert!(!pdb.ipi_types.contains_key(&0x1004));
    // The build info symbol still finds its item by position.
    let info = pdb.assembly_info.build_info.as_ref().expect("a build info symbol was given");
    assert_eq!(info.arguments, vec!["cl.exe".to_string(), "-O2".to_string()]);
}
