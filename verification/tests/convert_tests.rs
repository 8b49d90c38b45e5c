//! Converting single type records, and the errors of conversion.

use ezpdb::convert::{
    convert_method, convert_method_list_entry, convert_overloaded_method, handle_ipi_type, handle_type,
    lookup_ipi_type, lookup_tpi_type,
};
use ezpdb::error::Error;
use ezpdb::records::{RawRecord, RawType, RawTypeStream};
use ezpdb::symbol_types::{Data, ParsedPdb};
use ezpdb::type_info::{Indirection, PrimitiveKind, Type};
use ezpdb::type_size::complete_types;

fn stream(records: Vec<RawRecord>) -> RawTypeStream {
    let end = 0x1000 + records.len() as u32;
    RawTypeStream { begin: 0x1000, end, records }
}

fn parsed(r: RawType) -> RawRecord {
    RawRecord::Parsed(r)
}

#[test]
fn primitive_indices_decode_kind_and_pointer_mode() {
    let mut pdb = ParsedPdb::new("p.pdb".to_string());
    let s = stream(vec![]);
    let t = handle_type(0x0674, &mut pdb, &s, 1).expect("primitives always convert");
    match &pdb.nodes[t.0] {
        Type::Primitive(p) => {
            assert_eq!(p.kind, PrimitiveKind::I32);
            assert_eq!(p.indirection, Some(Indirection::Near64));
            assert_eq!(p.size(), 8);
        }
        other => panic!("unexpected node {:?}", other),
    }
    assert_eq!(lookup_tpi_type(0x0674, &pdb), Some(t));
    assert_eq!(lookup_ipi_type(0x0674, &pdb), None);
}

#[test]
fn a_converted_index_is_returned_again_unchanged() {
    let mut pdb = ParsedPdb::new("p.pdb".to_string());
    let s = stream(vec![parsed(RawType::Pointer { ty: 0x74, attr: 0x1000c })]);
    let first = handle_type(0x1000, &mut pdb, &s, 4).expect("the pointer converts");
    let nodes = pdb.nodes.len();
    let second = handle_type(0x1000, &mut pdb, &s, 4).expect("the pointer converts");
    assert_eq!(first, second);
    assert_eq!(pdb.nodes.len(), nodes);
    match &pdb.nodes[first.0] {
        Type::Pointer(p) => {
            assert_eq!(p.underlying_type, Some(pdb.types[&0x74]));
            assert_eq!(p.attributes.size, 8);
        }
        other => panic!("unexpected node {:?}", other),
    }
}

#[test]
fn undecodable_records_are_crate_errors() {
    let mut pdb = ParsedPdb::new("p.pdb".to_string());
    let s = stream(vec![RawRecord::Undecodable]);
    assert!(matches!(handle_type(0x1000, &mut pdb, &s, 4), Err(Error::PdbCrateError(_))));
    assert!(matches!(handle_type(0x2000, &mut pdb, &s, 4), Err(Error::PdbCrateError(_))));
    assert!(pdb.types.is_empty());
}

#[test]
fn ipi_and_unknown_records_are_unhandled_in_the_tpi_map() {
    let mut pdb = ParsedPdb::new("p.pdb".to_string());
    let s = stream(vec![
        parsed(RawType::StringId { name: "x".to_string(), id: 0 }),
        parsed(RawType::Unknown),
    ]);
    assert!(matches!(handle_type(0x1000, &mut pdb, &s, 4), Err(Error::UnhandledType(_))));
    assert!(matches!(handle_type(0x1001, &mut pdb, &s, 4), Err(Error::UnhandledType(_))));
    // The same string record is an item of the IPI map.
    let t = handle_ipi_type(0x1000, &mut pdb, &s, 4).expect("a string item converts");
    match &pdb.nodes[t.0] {
        Type::StringId(sid) => assert_eq!(sid.id, "x"),
        other => panic!("unexpected node {:?}", other),
    }
    assert!(matches!(handle_ipi_type(0x1001, &mut pdb, &s, 4), Err(Error::UnhandledType(_))));
}

#[test]
fn records_in_a_cycle_are_unhandled() {
    let mut pdb = ParsedPdb::new("p.pdb".to_string());
    let s = stream(vec![
        parsed(RawType::Modifier { underlying_type: 0x1001, attributes: 1 }),
        parsed(RawType::Alias { name: "A".to_string(), utype: 0x1000 }),
    ]);
    assert!(matches!(handle_type(0x1000, &mut pdb, &s, 8), Err(Error::UnhandledType(_))));
}

#[test]
fn arrays_of_unsized_elements_are_unsupported() {
    let mut pdb = ParsedPdb::new("p.pdb".to_string());
    let s = stream(vec![
        parsed(RawType::ArgList { args: vec![] }),
        parsed(RawType::Proc { return_value: 0x03, arg_list: 0x1000, call: 0 }),
        parsed(RawType::Array { element_type: 0x1001, index_type: 0x23, len: Some(4) }),
    ]);
    assert!(matches!(handle_type(0x1002, &mut pdb, &s, 8), Err(Error::Unsupported(_))));
    assert!(complete_types(&mut pdb).is_ok());
}

#[test]
fn data_symbols_of_unknown_types_are_unresolved() {
    let pdb = ParsedPdb::new("p.pdb".to_string());
    let r = Data::from_record(0x110d, "d".to_string(), 0x1234, 1, 0, &None, None, &pdb.types);
    assert!(matches!(r, Err(Error::UnresolvedType(0x1234))));
}

#[test]
fn methods_resolve_their_types() {
    let mut pdb = ParsedPdb::new("p.pdb".to_string());
    let s = stream(vec![
        parsed(RawType::ArgList { args: vec![] }),
        parsed(RawType::MemberFunc {
            return_value: 0x03,
            class: 0x74,
            this: 0,
            arg_list: 0x1000,
            call: 0,
            this_adjust: 0,
        }),
        parsed(RawType::MethodList),
        RawRecord::Undecodable,
    ]);
    let m = convert_method(0x1001, "run", 0x10, &mut pdb, &s, 4).expect("the method type converts");
    assert_eq!(m.name, "run");
    assert_eq!(m.method_type, pdb.types[&0x1001]);
    assert_eq!(m.vtable_offset, Some(0x10));
    assert!(matches!(&pdb.nodes[m.method_type.0], Type::MemberFunction(_)));
    let plain = convert_method(0x1001, "stop", 0, &mut pdb, &s, 4).expect("the method type converts");
    assert_eq!(plain.vtable_offset, None);
    assert_eq!(plain.method_type, m.method_type);

    let e = convert_method_list_entry(0x1001, Some(8), &mut pdb, &s, 4).expect("the entry converts");
    assert_eq!(e.method_type, m.method_type);
    assert_eq!(e.vtable_offset, Some(8));
    let e = convert_method_list_entry(0x74, None, &mut pdb, &s, 4).expect("primitives convert");
    assert_eq!(e.method_type, pdb.types[&0x74]);
    assert_eq!(e.vtable_offset, None);

    let o = convert_overloaded_method("run", 0x1002, &mut pdb, &s, 4).expect("the list converts");
    assert_eq!(o.name, "run");
    assert!(matches!(&pdb.nodes[o.method_list.0], Type::MethodList(l) if l.0.is_empty()));

    assert!(matches!(convert_method(0x1003, "bad", 0, &mut pdb, &s, 4), Err(Error::PdbCrateError(_))));
    assert!(convert_overloaded_method("bad", 0x1003, &mut pdb, &s, 4).is_err());
    assert!(convert_method_list_entry(0x1003, None, &mut pdb, &s, 4).is_err());
}

#[test]
fn four_byte_ints_and_128_bit_pointers_decode_per_codeview() {
    let mut pdb = ParsedPdb::new("p.pdb".to_string());
    let s = stream(vec![]);
    let t = handle_type(0x0774, &mut pdb, &s, 1).expect("primitives always convert");
    match &pdb.nodes[t.0] {
        Type::Primitive(p) => {
            assert_eq!(p.kind, PrimitiveKind::I32);
            assert_eq!(p.indirection, Some(Indirection::Near128));
            assert_eq!(p.size(), 16);
        }
        other => panic!("unexpected node {:?}", other),
    }
    let u = handle_type(0x0075, &mut pdb, &s, 1).expect("primitives always convert");
    match &pdb.nodes[u.0] {
        Type::Primitive(p) => assert_eq!(p.kind, PrimitiveKind::U32),
        other => panic!("unexpected node {:?}", other),
    }
}
