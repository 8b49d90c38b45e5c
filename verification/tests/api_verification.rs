//! The public API of the type and symbol models is reachable as documented.

use ezpdb::error::Error;
use ezpdb::symbol_types::{
    AssemblyInfo, BuildInfo, Data, DebugModule, MachineType, ParsedPdb, Procedure, PublicSymbol,
    TypeRef, Version,
};
use ezpdb::type_info::{Primitive, PrimitiveKind, Type};

#[test]
fn test_type_enum_variants() {
    // Every documented variant of Type can be matched on.
    let dummy_type = Type::Primitive(Primitive { kind: PrimitiveKind::Void, indirection: None });

    match &dummy_type {
        Type::Class(_) => {}
        Type::VirtualBaseClass(_) => {}
        Type::Union(_) => {}
        Type::Bitfield(_) => {}
        Type::Enumeration(_) => {}
        Type::EnumVariant(_) => {}
        Type::Pointer(_) => {}
        Type::Primitive(_) => {}
        Type::Array(_) => {}
        Type::FieldList(_) => {}
        Type::ArgumentList(_) => {}
        Type::Modifier(_) => {}
        Type::Member(_) => {}
        Type::Procedure(_) => {}
        Type::MemberFunction(_) => {}
        Type::MethodList(_) => {}
        Type::MethodListEntry(_) => {}
        Type::Nested(_) => {}
        Type::OverloadedMethod(_) => {}
        Type::Method(_) => {}
        Type::StaticMember(_) => {}
        Type::BaseClass(_) => {}
        Type::VTable(_) => {}
        Type::Alias(_) => {}
        Type::VTableShape(_) => {}
        Type::VFTableType(_) => {}
        Type::FuncId(_) => {}
        Type::MFuncId(_) => {}
        Type::StringId(_) => {}
        Type::SubStrList(_) => {}
        Type::BuildInfoType(_) => {}
        Type::UdtSrcLineType(_) => {}
    }
}

#[test]
fn test_new_type_structures() {
    // A node of the type arena is referred to by its position.
    let dummy_type = TypeRef(0);

    let _alias = ezpdb::type_info::Alias { name: String::from("MyInt"), underlying_type: dummy_type };

    let _vtshape = ezpdb::type_info::VTableShape { count: 1, descriptors: vec![0x00] };

    let _vftable = ezpdb::type_info::VFTableType { root: dummy_type, path: dummy_type, offset: 0, segment: 0 };

    let _func_id = ezpdb::type_info::FuncIdType {
        name: String::from("MyFunction"),
        function_type: Some(dummy_type),
        parent_scope: None,
    };

    let _mfunc_id = ezpdb::type_info::MFuncIdType {
        name: String::from("MyMethod"),
        function_type: Some(dummy_type),
        parent_type: Some(dummy_type),
    };

    let _string_id = ezpdb::type_info::StringIdType { id: String::from("source.cpp"), substring: None };

    let _substr_list = ezpdb::type_info::SubStrListType { strings: vec![dummy_type] };

    let _build_info = ezpdb::type_info::BuildInfoTypeData { items: vec![dummy_type] };

    let udt_src = ezpdb::type_info::UdtSrcLineType {
        source_file: Some(dummy_type),
        line_number: 42,
        udt: dummy_type,
    };
    assert_eq!(udt_src.line_number, 42);
}

#[test]
fn test_error_types() {
    let _err1 = Error::MissingDependency("test");
    let _err2 = Error::Unsupported("test");
    let _err3 = Error::NeedForwardReferenceImplementation;
    let _err4 = Error::UnhandledType(String::from("test"));
    let _err5 = Error::UnresolvedType(0);

    let err = Error::Unsupported("feature");
    let msg = format!("{:?}", err);
    assert_eq!(msg, "Unsupported(\"feature\")");
}

#[test]
fn test_symbol_types() {
    let _: Option<MachineType> = None;
    let _: Option<Version> = None;
    let _: Option<AssemblyInfo> = None;
    let _: Option<BuildInfo> = None;
    let _: Option<PublicSymbol> = None;
    let _: Option<Data> = None;
    let _: Option<Procedure> = None;
    let _: Option<DebugModule> = None;
}

#[test]
fn test_typed_trait() {
    let mut pdb = ParsedPdb::new(String::from("test.pdb"));

    let prim = Primitive { kind: PrimitiveKind::I32, indirection: None };

    // The size of a type node, with the parsed PDB at hand.
    pdb.nodes.push(Type::Primitive(prim));
    let size = ezpdb::type_size::node_size(&pdb, TypeRef(0), true);
    assert_eq!(size, Some(4));
}

#[test]
fn test_parsed_pdb_fields() {
    let pdb = ParsedPdb::new(String::from("test.pdb"));

    let _ = &pdb.path;
    let _ = &pdb.assembly_info;
    let _ = &pdb.public_symbols;
    let _ = &pdb.types;
    let _ = &pdb.ipi_types;
    let _ = &pdb.procedures;
    let _ = &pdb.global_data;
    let _ = &pdb.debug_modules;
    let _ = &pdb.version;
    let _ = pdb.guid;
    let _ = pdb.age;
    let _ = pdb.timestamp;
    let _ = &pdb.machine_type;
    assert_eq!(pdb.path, "test.pdb");
    assert!(pdb.types.is_empty());
}
