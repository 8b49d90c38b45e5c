//! What this parser reports of a PDB, in the shape that the comparison
//! reads: the header, the types with their fields, enumerators and base
//! classes, the symbols and the modules; and the `{:?}` text of its records.
use vstd::prelude::*;

use crate::error::Error;
use crate::old_pdb::{opt_u32_nat, widen};
use crate::parse::{parse_pdb_data, parse_outcome, PdbInput};
use crate::symbol_types::{ParsedPdb, TypeRef};
use crate::text::{
    debug_opt_num, debug_opt_text, decimal_text, opt_nat, push_debug_opt_text,
    push_debug_opt_u64, push_quoted, push_str, push_u64, quoted_text, signed_decimal_text,
    i64_text, hex_text,
};
use crate::type_info::{EnumVariant, Type};
use crate::type_size::opt_text;

verus! {

#[derive(Debug, Clone)]
pub struct NewPdbData {
    pub header: HeaderInfo,
    pub types: Vec<TypeInfo>,
    pub symbols: SymbolData,
    pub modules: Vec<ModuleInfo>,
}

#[derive(Debug, Clone)]
pub struct HeaderInfo {
    pub age: u32,
    pub guid: String,
}

#[derive(Debug, Clone)]
pub struct TypeInfo {
    pub index: u32,
    pub kind: String,
    pub name: Option<String>,
    pub size: Option<u64>,
    pub fields: Vec<FieldInfo>,
    pub variants: Vec<VariantInfo>,
    pub base_classes: Vec<BaseClassInfo>,
}

#[derive(Debug, Clone)]
pub struct FieldInfo {
    pub name: String,
    pub offset: Option<u64>,
    pub type_index: Option<u32>,
    pub type_kind: Option<String>,
    pub bitfield_length: Option<usize>,
    pub bitfield_position: Option<usize>,
}

#[derive(Debug, Clone)]
pub struct VariantInfo {
    pub name: String,
    pub value: i64,
}

#[derive(Debug, Clone)]
pub struct BaseClassInfo {
    pub name: Option<String>,
    pub offset: u64,
    pub type_index: Option<u32>,
}

#[derive(Debug, Clone)]
pub struct SymbolData {
    pub public_symbols: Vec<PublicSymbol>,
    pub procedures: Vec<ProcedureSymbol>,
    pub data_symbols: Vec<DataSymbol>,
}

#[derive(Debug, Clone)]
pub struct PublicSymbol {
    pub name: String,
    pub offset: Option<u32>,
    pub is_function: bool,
}

#[derive(Debug, Clone)]
pub struct ProcedureSymbol {
    pub name: String,
    pub offset: Option<u32>,
    pub len: u32,
}

#[derive(Debug, Clone)]
pub struct DataSymbol {
    pub name: String,
    pub offset: Option<u32>,
}

#[derive(Debug, Clone)]
pub struct ModuleInfo {
    pub name: String,
    pub object_file: String,
}

// ---------------------------------------------------------------------------
// The `{:?}` text of the records
// ---------------------------------------------------------------------------

/// An optional `usize` as an optional natural number.
pub open spec fn opt_usize_nat(o: Option<usize>) -> Option<nat> {
    match o {
        None => None,
        Some(v) => Some(v as nat),
    }
}

/// What `{:?}` renders for a list: the items' texts between square brackets,
/// separated by a comma and a space.
pub open spec fn list_text(items: Seq<Seq<char>>) -> Seq<char> {
    "["@ + joined(items) + "]"@
}

/// The texts of `items`, separated by a comma and a space.
pub open spec fn joined(items: Seq<Seq<char>>) -> Seq<char>
    decreases items.len(),
{
    if items.len() == 0 {
        Seq::empty()
    } else if items.len() == 1 {
        items[0]
    } else {
        joined(items.drop_last()) + ", "@ + items.last()
    }
}

fn widen_usize(o: Option<usize>) -> (r: Option<u64>)
    ensures
        opt_nat(r) == opt_usize_nat(o),
{
    match o {
        None => None,
        Some(v) => Some(v as u64),
    }
}

impl FieldInfo {
    /// The `{:?}` text of the record.
    pub open spec fn spec_debug_text(self) -> Seq<char> {
        "FieldInfo { name: "@ + quoted_text(self.name@) + ", offset: "@ + debug_opt_num(
            opt_nat(self.offset),
        ) + ", type_index: "@ + debug_opt_num(opt_u32_nat(self.type_index)) + ", type_kind: "@
            + debug_opt_text(opt_text(self.type_kind)) + ", bitfield_length: "@ + debug_opt_num(
            opt_usize_nat(self.bitfield_length),
        ) + ", bitfield_position: "@ + debug_opt_num(opt_usize_nat(self.bitfield_position))
            + " }"@
    }

    /// Renders the record as `{:?}` does (see [`Self::spec_debug_text`]).
    pub fn debug_text(&self) -> (s: String)
        ensures
            s@ == self.spec_debug_text(),
    {
        let mut s = String::new();
        push_str(&mut s, "FieldInfo { name: ");
        push_quoted(&mut s, self.name.as_str());
        push_str(&mut s, ", offset: ");
        push_debug_opt_u64(&mut s, self.offset);
        push_str(&mut s, ", type_index: ");
        push_debug_opt_u64(&mut s, widen(self.type_index));
        push_str(&mut s, ", type_kind: ");
        push_debug_opt_text(&mut s, &self.type_kind);
        push_str(&mut s, ", bitfield_length: ");
        push_debug_opt_u64(&mut s, widen_usize(self.bitfield_length));
        push_str(&mut s, ", bitfield_position: ");
        push_debug_opt_u64(&mut s, widen_usize(self.bitfield_position));
        push_str(&mut s, " }");
        assert(s@ =~= self.spec_debug_text());
        s
    }
}

impl VariantInfo {
    /// The `{:?}` text of the record.
    pub open spec fn spec_debug_text(self) -> Seq<char> {
        "VariantInfo { name: "@ + quoted_text(self.name@) + ", value: "@ + signed_decimal_text(
            self.value as int,
        ) + " }"@
    }

    /// Renders the record as `{:?}` does (see [`Self::spec_debug_text`]).
    pub fn debug_text(&self) -> (s: String)
        ensures
            s@ == self.spec_debug_text(),
    {
        let mut s = String::new();
        push_str(&mut s, "VariantInfo { name: ");
        push_quoted(&mut s, self.name.as_str());
        push_str(&mut s, ", value: ");
        let v = i64_text(self.value);
        push_str(&mut s, v.as_str());
        push_str(&mut s, " }");
        assert(s@ =~= self.spec_debug_text());
        s
    }
}

impl BaseClassInfo {
    /// The `{:?}` text of the record.
    pub open spec fn spec_debug_text(self) -> Seq<char> {
        "BaseClassInfo { name: "@ + debug_opt_text(opt_text(self.name)) + ", offset: "@
            + decimal_text(self.offset as nat) + ", type_index: "@ + debug_opt_num(
            opt_u32_nat(self.type_index),
        ) + " }"@
    }

    /// Renders the record as `{:?}` does (see [`Self::spec_debug_text`]).
    pub fn debug_text(&self) -> (s: String)
        ensures
            s@ == self.spec_debug_text(),
    {
        let mut s = String::new();
        push_str(&mut s, "BaseClassInfo { name: ");
        push_debug_opt_text(&mut s, &self.name);
        push_str(&mut s, ", offset: ");
        push_u64(&mut s, self.offset);
        push_str(&mut s, ", type_index: ");
        push_debug_opt_u64(&mut s, widen(self.type_index));
        push_str(&mut s, " }");
        assert(s@ =~= self.spec_debug_text());
        s
    }
}


/// Appends what `{:?}` renders for a list of [`FieldInfo`] records.
fn push_fields_text(s: &mut String, items: &Vec<FieldInfo>)
    ensures
        final(s)@ == old(s)@ + list_text(items@.map_values(|x: FieldInfo| x.spec_debug_text())),
{
    let ghost s0 = s@;
    push_str(s, "[");
    let mut i: usize = 0;
    while i < items.len()
        invariant
            0 <= i <= items@.len(),
            s@ == s0 + "["@ + joined(items@.subrange(0, i as int).map_values(|x: FieldInfo| x.spec_debug_text())),
        decreases items@.len() - i,
    {
        let ghost prev = s@;
        let ghost done = items@.subrange(0, i as int).map_values(|x: FieldInfo| x.spec_debug_text());
        let ghost next = items@.subrange(0, (i + 1) as int).map_values(|x: FieldInfo| x.spec_debug_text());
        assert(next.drop_last() =~= done);
        assert(next.last() == items@[i as int].spec_debug_text());
        if i > 0 {
            push_str(s, ", ");
        }
        let t = items[i].debug_text();
        push_str(s, t.as_str());
        proof {
            if i == 0 {
                assert(done =~= Seq::<Seq<char>>::empty());
                assert(joined(next) == next[0]);
                assert(s@ =~= s0 + "["@ + joined(next));
            } else {
                assert(joined(next) == joined(done) + ", "@ + next.last());
                assert(s@ =~= s0 + "["@ + joined(next));
            }
        }
        i = i + 1;
    }
    assert(items@.subrange(0, items@.len() as int) =~= items@);
    push_str(s, "]");
    assert(s@ =~= s0 + list_text(items@.map_values(|x: FieldInfo| x.spec_debug_text())));
}

/// Appends what `{:?}` renders for a list of [`VariantInfo`] records.
fn push_variants_text(s: &mut String, items: &Vec<VariantInfo>)
    ensures
        final(s)@ == old(s)@ + list_text(items@.map_values(|x: VariantInfo| x.spec_debug_text())),
{
    let ghost s0 = s@;
    push_str(s, "[");
    let mut i: usize = 0;
    while i < items.len()
        invariant
            0 <= i <= items@.len(),
            s@ == s0 + "["@ + joined(items@.subrange(0, i as int).map_values(|x: VariantInfo| x.spec_debug_text())),
        decreases items@.len() - i,
    {
        let ghost prev = s@;
        let ghost done = items@.subrange(0, i as int).map_values(|x: VariantInfo| x.spec_debug_text());
        let ghost next = items@.subrange(0, (i + 1) as int).map_values(|x: VariantInfo| x.spec_debug_text());
        assert(next.drop_last() =~= done);
        assert(next.last() == items@[i as int].spec_debug_text());
        if i > 0 {
            push_str(s, ", ");
        }
        let t = items[i].debug_text();
        push_str(s, t.as_str());
        proof {
            if i == 0 {
                assert(done =~= Seq::<Seq<char>>::empty());
                assert(joined(next) == next[0]);
                assert(s@ =~= s0 + "["@ + joined(next));
            } else {
                assert(joined(next) == joined(done) + ", "@ + next.last());
                assert(s@ =~= s0 + "["@ + joined(next));
            }
        }
        i = i + 1;
    }
    assert(items@.subrange(0, items@.len() as int) =~= items@);
    push_str(s, "]");
    assert(s@ =~= s0 + list_text(items@.map_values(|x: VariantInfo| x.spec_debug_text())));
}

/// Appends what `{:?}` renders for a list of [`BaseClassInfo`] records.
fn push_bases_text(s: &mut String, items: &Vec<BaseClassInfo>)
    ensures
        final(s)@ == old(s)@ + list_text(items@.map_values(|x: BaseClassInfo| x.spec_debug_text())),
{
    let ghost s0 = s@;
    push_str(s, "[");
    let mut i: usize = 0;
    while i < items.len()
        invariant
            0 <= i <= items@.len(),
            s@ == s0 + "["@ + joined(items@.subrange(0, i as int).map_values(|x: BaseClassInfo| x.spec_debug_text())),
        decreases items@.len() - i,
    {
        let ghost prev = s@;
        let ghost done = items@.subrange(0, i as int).map_values(|x: BaseClassInfo| x.spec_debug_text());
        let ghost next = items@.subrange(0, (i + 1) as int).map_values(|x: BaseClassInfo| x.spec_debug_text());
        assert(next.drop_last() =~= done);
        assert(next.last() == items@[i as int].spec_debug_text());
        if i > 0 {
            push_str(s, ", ");
        }
        let t = items[i].debug_text();
        push_str(s, t.as_str());
        proof {
            if i == 0 {
                assert(done =~= Seq::<Seq<char>>::empty());
                assert(joined(next) == next[0]);
                assert(s@ =~= s0 + "["@ + joined(next));
            } else {
                assert(joined(next) == joined(done) + ", "@ + next.last());
                assert(s@ =~= s0 + "["@ + joined(next));
            }
        }
        i = i + 1;
    }
    assert(items@.subrange(0, items@.len() as int) =~= items@);
    push_str(s, "]");
    assert(s@ =~= s0 + list_text(items@.map_values(|x: BaseClassInfo| x.spec_debug_text())));
}

impl TypeInfo {
    /// The `{:?}` text of the record.
    pub open spec fn spec_debug_text(self) -> Seq<char> {
        "TypeInfo { index: "@ + decimal_text(self.index as nat) + ", kind: "@ + quoted_text(
            self.kind@,
        ) + ", name: "@ + debug_opt_text(opt_text(self.name)) + ", size: "@ + debug_opt_num(
            opt_nat(self.size),
        ) + ", fields: "@ + list_text(self.fields@.map_values(|x: FieldInfo| x.spec_debug_text()))
            + ", variants: "@ + list_text(
            self.variants@.map_values(|x: VariantInfo| x.spec_debug_text()),
        ) + ", base_classes: "@ + list_text(
            self.base_classes@.map_values(|x: BaseClassInfo| x.spec_debug_text()),
        ) + " }"@
    }

    /// Renders the record as `{:?}` does (see [`Self::spec_debug_text`]).
    pub fn debug_text(&self) -> (s: String)
        ensures
            s@ == self.spec_debug_text(),
    {
        let mut s = String::new();
        push_str(&mut s, "TypeInfo { index: ");
        push_u64(&mut s, self.index as u64);
        push_str(&mut s, ", kind: ");
        push_quoted(&mut s, self.kind.as_str());
        push_str(&mut s, ", name: ");
        push_debug_opt_text(&mut s, &self.name);
        push_str(&mut s, ", size: ");
        push_debug_opt_u64(&mut s, self.size);
        push_str(&mut s, ", fields: ");
        push_fields_text(&mut s, &self.fields);
        push_str(&mut s, ", variants: ");
        push_variants_text(&mut s, &self.variants);
        push_str(&mut s, ", base_classes: ");
        push_bases_text(&mut s, &self.base_classes);
        push_str(&mut s, " }");
        assert(s@ =~= self.spec_debug_text());
        s
    }
}

impl PublicSymbol {
    /// The `{:?}` text of the record.
    pub open spec fn spec_debug_text(self) -> Seq<char> {
        "PublicSymbol { name: "@ + quoted_text(self.name@) + ", offset: "@ + debug_opt_num(
            opt_u32_nat(self.offset),
        ) + ", is_function: "@ + crate::text::bool_text(self.is_function) + " }"@
    }

    /// Renders the record as `{:?}` does (see [`Self::spec_debug_text`]).
    pub fn debug_text(&self) -> (s: String)
        ensures
            s@ == self.spec_debug_text(),
    {
        let mut s = String::new();
        push_str(&mut s, "PublicSymbol { name: ");
        push_quoted(&mut s, self.name.as_str());
        push_str(&mut s, ", offset: ");
        push_debug_opt_u64(&mut s, widen(self.offset));
        push_str(&mut s, ", is_function: ");
        crate::text::push_bool(&mut s, self.is_function);
        push_str(&mut s, " }");
        assert(s@ =~= self.spec_debug_text());
        s
    }
}

impl ProcedureSymbol {
    /// The `{:?}` text of the record.
    pub open spec fn spec_debug_text(self) -> Seq<char> {
        "ProcedureSymbol { name: "@ + quoted_text(self.name@) + ", offset: "@ + debug_opt_num(
            opt_u32_nat(self.offset),
        ) + ", len: "@ + decimal_text(self.len as nat) + " }"@
    }

    /// Renders the record as `{:?}` does (see [`Self::spec_debug_text`]).
    pub fn debug_text(&self) -> (s: String)
        ensures
            s@ == self.spec_debug_text(),
    {
        let mut s = String::new();
        push_str(&mut s, "ProcedureSymbol { name: ");
        push_quoted(&mut s, self.name.as_str());
        push_str(&mut s, ", offset: ");
        push_debug_opt_u64(&mut s, widen(self.offset));
        push_str(&mut s, ", len: ");
        push_u64(&mut s, self.len as u64);
        push_str(&mut s, " }");
        assert(s@ =~= self.spec_debug_text());
        s
    }
}

impl DataSymbol {
    /// The `{:?}` text of the record.
    pub open spec fn spec_debug_text(self) -> Seq<char> {
        "DataSymbol { name: "@ + quoted_text(self.name@) + ", offset: "@ + debug_opt_num(
            opt_u32_nat(self.offset),
        ) + " }"@
    }

    /// Renders the record as `{:?}` does (see [`Self::spec_debug_text`]).
    pub fn debug_text(&self) -> (s: String)
        ensures
            s@ == self.spec_debug_text(),
    {
        let mut s = String::new();
        push_str(&mut s, "DataSymbol { name: ");
        push_quoted(&mut s, self.name.as_str());
        push_str(&mut s, ", offset: ");
        push_debug_opt_u64(&mut s, widen(self.offset));
        push_str(&mut s, " }");
        assert(s@ =~= self.spec_debug_text());
        s
    }
}

impl ModuleInfo {
    /// The `{:?}` text of the record.
    pub open spec fn spec_debug_text(self) -> Seq<char> {
        "ModuleInfo { name: "@ + quoted_text(self.name@) + ", object_file: "@ + quoted_text(
            self.object_file@,
        ) + " }"@
    }

    /// Renders the record as `{:?}` does (see [`Self::spec_debug_text`]).
    pub fn debug_text(&self) -> (s: String)
        ensures
            s@ == self.spec_debug_text(),
    {
        let mut s = String::new();
        push_str(&mut s, "ModuleInfo { name: ");
        push_quoted(&mut s, self.name.as_str());
        push_str(&mut s, ", object_file: ");
        push_quoted(&mut s, self.object_file.as_str());
        push_str(&mut s, " }");
        assert(s@ =~= self.spec_debug_text());
        s
    }
}


// ---------------------------------------------------------------------------
// The report of a parsed PDB
// ---------------------------------------------------------------------------

/// The two lowercase hexadecimal digits of each byte, in order.
pub open spec fn bytes_hex(b: Seq<u8>) -> Seq<char>
    decreases b.len(),
{
    if b.len() == 0 {
        Seq::empty()
    } else {
        bytes_hex(b.drop_last()) + hex_text(b.last() as nat, 2)
    }
}

/// The hyphenated text of a GUID given by its 16 bytes: the hexadecimal
/// digits of bytes 0-3, 4-5, 6-7, 8-9 and 10-15, separated by hyphens.
pub open spec fn hyphenated_guid(b: Seq<u8>) -> Seq<char> {
    bytes_hex(b.subrange(0, 4)) + "-"@ + bytes_hex(b.subrange(4, 6)) + "-"@ + bytes_hex(
        b.subrange(6, 8),
    ) + "-"@ + bytes_hex(b.subrange(8, 10)) + "-"@ + bytes_hex(b.subrange(10, 16))
}

/// Renders a GUID given by its 16 bytes with uuid's `Debug` for `Uuid`
/// (`Uuid::from_bytes` keeps the bytes in order): the hyphenated form, two
/// lowercase hexadecimal digits per byte, high nibble first, hyphens after
/// bytes 4, 6, 8 and 10 (see [`hyphenated_guid`]).
#[verifier::external_body]
pub(crate) fn guid_text(bytes: [u8; 16]) -> (r: String)
    ensures
        r@ == hyphenated_guid(bytes@),
{
    format!("{:?}", uuid::Uuid::from_bytes(bytes))
}

/// The kind text of a type node; none for field lists, argument lists and
/// method lists, which are not reported as types of their own.
pub open spec fn kind_text(t: Type) -> Option<Seq<char>> {
    match t {
        Type::Primitive(p) => Some("Primitive("@ + p.kind.spec_name() + ")"@),
        Type::Class(_) => Some("Class"@),
        Type::Union(_) => Some("Union"@),
        Type::Enumeration(_) => Some("Enumeration"@),
        Type::Pointer(_) => Some("Pointer"@),
        Type::Array(_) => Some("Array"@),
        Type::Procedure(_) => Some("Procedure"@),
        Type::MemberFunction(_) => Some("MemberFunction"@),
        Type::BaseClass(_) => Some("BaseClass"@),
        Type::VirtualBaseClass(_) => Some("VirtualBaseClass"@),
        Type::VTable(_) => Some("VTable"@),
        Type::Member(_) => Some("Member"@),
        Type::StaticMember(_) => Some("StaticMember"@),
        Type::Nested(_) => Some("Nested"@),
        Type::EnumVariant(_) => Some("EnumVariant"@),
        Type::OverloadedMethod(_) => Some("OverloadedMethod"@),
        Type::MethodListEntry(_) => Some("MethodListEntry"@),
        Type::Method(_) => Some("Method"@),
        Type::Bitfield(_) => Some("Bitfield"@),
        Type::FieldList(_) => None,
        Type::ArgumentList(_) => None,
        Type::MethodList(_) => None,
        Type::Modifier(_) => Some("Modifier"@),
        Type::FuncId(_) => Some("FuncId"@),
        Type::MFuncId(_) => Some("MFuncId"@),
        Type::StringId(_) => Some("StringId"@),
        Type::SubStrList(_) => Some("SubStrList"@),
        Type::BuildInfoType(_) => Some("BuildInfoType"@),
        Type::UdtSrcLineType(_) => Some("UdtSrcLineType"@),
        Type::Alias(_) => Some("Alias"@),
        Type::VTableShape(_) => Some("VTableShape"@),
        Type::VFTableType(_) => Some("VFTableType"@),
    }
}

/// The reported name of a type node: that of user-defined types, members,
/// static members, nested types, enumerators, overloaded methods and methods.
pub open spec fn name_text(t: Type) -> Option<Seq<char>> {
    match t {
        Type::Class(c) => Some(c.name@),
        Type::Union(u) => Some(u.name@),
        Type::Enumeration(e) => Some(e.name@),
        Type::Member(m) => Some(m.name@),
        Type::StaticMember(m) => Some(m.name@),
        Type::Nested(n) => Some(n.name@),
        Type::EnumVariant(v) => Some(v.name@),
        Type::OverloadedMethod(m) => Some(m.name@),
        Type::Method(m) => Some(m.name@),
        _ => None,
    }
}

/// The reported size of a type node: that of classes and unions.
pub open spec fn size_value(t: Type) -> Option<nat> {
    match t {
        Type::Class(c) => Some(c.size as nat),
        Type::Union(u) => Some(u.size as nat),
        _ => None,
    }
}

/// The reported kind of a member's type.
pub open spec fn member_kind_text(t: Type) -> Seq<char> {
    match t {
        Type::Bitfield(_) => "Bitfield"@,
        Type::Primitive(p) => "Primitive("@ + p.kind.spec_name() + ")"@,
        Type::Pointer(_) => "Pointer"@,
        Type::Class(c) => "Class("@ + c.name@ + ")"@,
        Type::Union(u) => "Union("@ + u.name@ + ")"@,
        Type::Enumeration(e) => "Enumeration("@ + e.name@ + ")"@,
        Type::Array(_) => "Array"@,
        _ => "Other"@,
    }
}

/// The field nodes of a type node: those of classes and unions.
pub open spec fn field_refs(t: Type) -> Seq<TypeRef> {
    match t {
        Type::Class(c) => c.fields@,
        Type::Union(u) => u.fields@,
        _ => Seq::empty(),
    }
}

/// The members among the nodes `refs`, in order.
pub open spec fn member_nodes(pdb: ParsedPdb, refs: Seq<TypeRef>) -> Seq<crate::type_info::Member>
    decreases refs.len(),
{
    if refs.len() == 0 {
        Seq::empty()
    } else {
        let r = member_nodes(pdb, refs.drop_last());
        match pdb.nodes@[refs.last().0 as int] {
            Type::Member(m) => r.push(m),
            _ => r,
        }
    }
}

/// The offsets of the base classes among the nodes `refs`, in order: a
/// direct base's offset, a virtual base's base pointer offset.
pub open spec fn base_offsets(pdb: ParsedPdb, refs: Seq<TypeRef>) -> Seq<u64>
    decreases refs.len(),
{
    if refs.len() == 0 {
        Seq::empty()
    } else {
        let r = base_offsets(pdb, refs.drop_last());
        match pdb.nodes@[refs.last().0 as int] {
            Type::BaseClass(b) => r.push(b.offset as u64),
            Type::VirtualBaseClass(v) => r.push(v.base_pointer_offset as u64),
            _ => r,
        }
    }
}

/// The reported base class offsets of a type node (classes only).
pub open spec fn class_base_offsets(pdb: ParsedPdb, t: Type) -> Seq<u64> {
    match t {
        Type::Class(c) => base_offsets(pdb, c.fields@),
        _ => Seq::empty(),
    }
}

/// The reported enumerators of a type node: name and value as an `i64`.
pub open spec fn enum_variants(t: Type) -> Seq<(Seq<char>, i64)> {
    match t {
        Type::Enumeration(e) => e.variants@.map_values(|v: EnumVariant| (v.name@, v.value.spec_as_i64())),
        _ => Seq::empty(),
    }
}

/// Whether `f` reports member `m`.
pub open spec fn field_from(f: FieldInfo, m: crate::type_info::Member, pdb: ParsedPdb) -> bool {
    let t = pdb.nodes@[m.underlying_type.0 as int];
    &&& f.name@ == m.name@
    &&& f.offset == Some(m.offset as u64)
    &&& f.type_index is None
    &&& opt_text(f.type_kind) == Some(member_kind_text(t))
    &&& f.bitfield_length == (match t {
        Type::Bitfield(b) => Some(b.len),
        _ => None,
    })
    &&& f.bitfield_position == (match t {
        Type::Bitfield(b) => Some(b.position),
        _ => None,
    })
}

/// Whether `info` reports the type node `t` entered under index `k`.
pub open spec fn type_info_from(info: TypeInfo, k: u32, t: Type, pdb: ParsedPdb) -> bool {
    let members = member_nodes(pdb, field_refs(t));
    let bases = class_base_offsets(pdb, t);
    &&& info.index == k
    &&& kind_text(t) == Some(info.kind@)
    &&& opt_text(info.name) == name_text(t)
    &&& opt_nat(info.size) == size_value(t)
    &&& info.fields@.len() == members.len()
    &&& forall|i: int| 0 <= i < members.len() ==> field_from(#[trigger] info.fields@[i], members[i], pdb)
    &&& info.variants@.map_values(|v: VariantInfo| (v.name@, v.value)) == enum_variants(t)
    &&& info.base_classes@.len() == bases.len()
    &&& forall|i: int|
        0 <= i < bases.len() ==> (#[trigger] info.base_classes@[i]).name is None
            && info.base_classes@[i].offset == bases[i] && info.base_classes@[i].type_index is None
}

/// The TPI keys among `order` whose node is reported as a type, in order.
pub open spec fn kept_keys(pdb: ParsedPdb, order: Seq<u32>) -> Seq<u32>
    decreases order.len(),
{
    if order.len() == 0 {
        Seq::empty()
    } else {
        let r = kept_keys(pdb, order.drop_last());
        if kind_text(pdb.nodes@[pdb.types@[order.last()].0 as int]) is Some {
            r.push(order.last())
        } else {
            r
        }
    }
}

/// Whether `types` reports the TPI types of `pdb`, in the order they were entered.
pub open spec fn types_from(types: Seq<TypeInfo>, pdb: ParsedPdb) -> bool {
    let keys = kept_keys(pdb, pdb.type_order@);
    &&& types.len() == keys.len()
    &&& forall|i: int|
        0 <= i < keys.len() ==> type_info_from(
            #[trigger] types[i],
            keys[i],
            pdb.nodes@[pdb.types@[keys[i]].0 as int],
            pdb,
        )
}

proof fn lemma_kept_keys_distinct(pdb: ParsedPdb, order: Seq<u32>)
    requires
        order.no_duplicates(),
    ensures
        kept_keys(pdb, order).no_duplicates(),
        forall|k: u32| kept_keys(pdb, order).contains(k) ==> order.contains(k),
    decreases order.len(),
{
    if order.len() > 0 {
        let d = order.drop_last();
        assert(d.no_duplicates()) by {
            assert forall|i: int, j: int| 0 <= i < d.len() && 0 <= j < d.len() && i != j implies d[i] != d[j] by {
                assert(d[i] == order[i] && d[j] == order[j]);
            }
        }
        lemma_kept_keys_distinct(pdb, d);
        let r = kept_keys(pdb, d);
        if r.contains(order.last()) {
            assert(d.contains(order.last()));
            let w = choose|w: int| 0 <= w < d.len() && d[w] == order.last();
            assert(order[w] == order[order.len() - 1]);
        }
        assert forall|k: u32| kept_keys(pdb, order).contains(k) implies order.contains(k) by {
            if r.contains(k) {
                assert(d.contains(k));
                let w = choose|w: int| 0 <= w < d.len() && d[w] == k;
                assert(order[w] == k);
            } else {
                assert(order[order.len() - 1] == k);
            }
        }
    }
}

/// A report lists each TPI type of the parsed PDB at most once: no two of
/// its types have the same index.
pub proof fn lemma_types_reported_once(data: NewPdbData, pdb: ParsedPdb)
    requires
        pdb.wf(),
        report_from(data, pdb),
    ensures
        forall|i: int, j: int|
            0 <= i < j < data.types@.len() ==> (#[trigger] data.types@[i]).index != (#[trigger] data.types@[j]).index,
{
    lemma_kept_keys_distinct(pdb, pdb.type_order@);
    let keys = kept_keys(pdb, pdb.type_order@);
    assert forall|i: int, j: int| 0 <= i < j < data.types@.len() implies (#[trigger] data.types@[i]).index
        != (#[trigger] data.types@[j]).index by {
        assert(type_info_from(data.types@[i], keys[i], pdb.nodes@[pdb.types@[keys[i]].0 as int], pdb));
        assert(type_info_from(data.types@[j], keys[j], pdb.nodes@[pdb.types@[keys[j]].0 as int], pdb));
    }
}

fn kind_of(t: &Type) -> (r: Option<String>)
    ensures
        opt_text(r) == kind_text(*t),
{
    let k: &str = match t {
        Type::Primitive(p) => {
            let mut s = crate::text::text("Primitive(");
            push_str(&mut s, p.kind.name());
            push_str(&mut s, ")");
            assert(s@ =~= "Primitive("@ + p.kind.spec_name() + ")"@);
            return Some(s);
        },
        Type::Class(_) => "Class",
        Type::Union(_) => "Union",
        Type::Enumeration(_) => "Enumeration",
        Type::Pointer(_) => "Pointer",
        Type::Array(_) => "Array",
        Type::Procedure(_) => "Procedure",
        Type::MemberFunction(_) => "MemberFunction",
        Type::BaseClass(_) => "BaseClass",
        Type::VirtualBaseClass(_) => "VirtualBaseClass",
        Type::VTable(_) => "VTable",
        Type::Member(_) => "Member",
        Type::StaticMember(_) => "StaticMember",
        Type::Nested(_) => "Nested",
        Type::EnumVariant(_) => "EnumVariant",
        Type::OverloadedMethod(_) => "OverloadedMethod",
        Type::MethodListEntry(_) => "MethodListEntry",
        Type::Method(_) => "Method",
        Type::Bitfield(_) => "Bitfield",
        Type::FieldList(_) => return None,
        Type::ArgumentList(_) => return None,
        Type::MethodList(_) => return None,
        Type::Modifier(_) => "Modifier",
        Type::FuncId(_) => "FuncId",
        Type::MFuncId(_) => "MFuncId",
        Type::StringId(_) => "StringId",
        Type::SubStrList(_) => "SubStrList",
        Type::BuildInfoType(_) => "BuildInfoType",
        Type::UdtSrcLineType(_) => "UdtSrcLineType",
        Type::Alias(_) => "Alias",
        Type::VTableShape(_) => "VTableShape",
        Type::VFTableType(_) => "VFTableType",
    };
    Some(crate::text::text(k))
}

fn name_of(t: &Type) -> (r: Option<String>)
    ensures
        opt_text(r) == name_text(*t),
{
    match t {
        Type::Class(c) => Some(c.name.clone()),
        Type::Union(u) => Some(u.name.clone()),
        Type::Enumeration(e) => Some(e.name.clone()),
        Type::Member(m) => Some(m.name.clone()),
        Type::StaticMember(m) => Some(m.name.clone()),
        Type::Nested(n) => Some(n.name.clone()),
        Type::EnumVariant(v) => Some(v.name.clone()),
        Type::OverloadedMethod(m) => Some(m.name.clone()),
        Type::Method(m) => Some(m.name.clone()),
        _ => None,
    }
}

fn size_of_node(t: &Type) -> (r: Option<u64>)
    ensures
        opt_nat(r) == size_value(*t),
{
    match t {
        Type::Class(c) => Some(c.size as u64),
        Type::Union(u) => Some(u.size as u64),
        _ => None,
    }
}

fn member_kind(t: &Type) -> (r: String)
    ensures
        r@ == member_kind_text(*t),
{
    match t {
        Type::Bitfield(_) => crate::text::text("Bitfield"),
        Type::Primitive(p) => {
            let mut s = crate::text::text("Primitive(");
            push_str(&mut s, p.kind.name());
            push_str(&mut s, ")");
            assert(s@ =~= member_kind_text(*t));
            s
        },
        Type::Pointer(_) => crate::text::text("Pointer"),
        Type::Class(c) => {
            let mut s = crate::text::text("Class(");
            push_str(&mut s, c.name.as_str());
            push_str(&mut s, ")");
            assert(s@ =~= member_kind_text(*t));
            s
        },
        Type::Union(u) => {
            let mut s = crate::text::text("Union(");
            push_str(&mut s, u.name.as_str());
            push_str(&mut s, ")");
            assert(s@ =~= member_kind_text(*t));
            s
        },
        Type::Enumeration(e) => {
            let mut s = crate::text::text("Enumeration(");
            push_str(&mut s, e.name.as_str());
            push_str(&mut s, ")");
            assert(s@ =~= member_kind_text(*t));
            s
        },
        Type::Array(_) => crate::text::text("Array"),
        _ => crate::text::text("Other"),
    }
}

/// The fields of the members among the nodes `refs`.
fn fields_of(pdb: &ParsedPdb, refs: &Vec<TypeRef>, below: usize) -> (out: Vec<FieldInfo>)
    requires
        pdb.wf(),
        below <= pdb.nodes@.len(),
        crate::type_info::all_below(refs@, below as int),
    ensures
        out@.len() == member_nodes(*pdb, refs@).len(),
        forall|i: int|
            0 <= i < out@.len() ==> field_from(#[trigger] out@[i], member_nodes(*pdb, refs@)[i], *pdb),
{
    let mut out: Vec<FieldInfo> = Vec::new();
    let mut i: usize = 0;
    while i < refs.len()
        invariant
            pdb.wf(),
            below <= pdb.nodes@.len(),
            crate::type_info::all_below(refs@, below as int),
            0 <= i <= refs@.len(),
            out@.len() == member_nodes(*pdb, refs@.subrange(0, i as int)).len(),
            forall|j: int|
                0 <= j < out@.len() ==> field_from(
                    #[trigger] out@[j],
                    member_nodes(*pdb, refs@.subrange(0, i as int))[j],
                    *pdb,
                ),
        decreases refs@.len() - i,
    {
        let ghost next = refs@.subrange(0, (i + 1) as int);
        assert(next.drop_last() =~= refs@.subrange(0, i as int));
        assert(next.last() == refs@[i as int]);
        let r = refs[i];
        assert(r.0 < below);
        if let Type::Member(m) = &pdb.nodes[r.0] {
            assert(pdb.nodes@[r.0 as int].refs_below(r.0 as int));
            let t = &pdb.nodes[m.underlying_type.0];
            let (len, pos) = match t {
                Type::Bitfield(b) => (Some(b.len), Some(b.position)),
                _ => (None, None),
            };
            out.push(
                FieldInfo {
                    name: m.name.clone(),
                    offset: Some(m.offset as u64),
                    type_index: None,
                    type_kind: Some(member_kind(t)),
                    bitfield_length: len,
                    bitfield_position: pos,
                },
            );
        }
        i = i + 1;
    }
    assert(refs@.subrange(0, refs@.len() as int) =~= refs@);
    out
}

/// The base class offsets among the nodes `refs`.
fn bases_of(pdb: &ParsedPdb, refs: &Vec<TypeRef>, below: usize) -> (out: Vec<BaseClassInfo>)
    requires
        below <= pdb.nodes@.len(),
        crate::type_info::all_below(refs@, below as int),
    ensures
        out@.len() == base_offsets(*pdb, refs@).len(),
        forall|i: int|
            0 <= i < out@.len() ==> (#[trigger] out@[i]).name is None && out@[i].offset
                == base_offsets(*pdb, refs@)[i] && out@[i].type_index is None,
{
    let mut out: Vec<BaseClassInfo> = Vec::new();
    let mut i: usize = 0;
    while i < refs.len()
        invariant
            below <= pdb.nodes@.len(),
            crate::type_info::all_below(refs@, below as int),
            0 <= i <= refs@.len(),
            out@.len() == base_offsets(*pdb, refs@.subrange(0, i as int)).len(),
            forall|j: int|
                0 <= j < out@.len() ==> (#[trigger] out@[j]).name is None && out@[j].offset
                    == base_offsets(*pdb, refs@.subrange(0, i as int))[j] && out@[j].type_index is None,
        decreases refs@.len() - i,
    {
        let ghost next = refs@.subrange(0, (i + 1) as int);
        assert(next.drop_last() =~= refs@.subrange(0, i as int));
        assert(next.last() == refs@[i as int]);
        let r = refs[i];
        assert(r.0 < below);
        match &pdb.nodes[r.0] {
            Type::BaseClass(b) => {
                out.push(BaseClassInfo { name: None, offset: b.offset as u64, type_index: None });
            },
            Type::VirtualBaseClass(v) => {
                out.push(
                    BaseClassInfo { name: None, offset: v.base_pointer_offset as u64, type_index: None },
                );
            },
            _ => {},
        }
        i = i + 1;
    }
    assert(refs@.subrange(0, refs@.len() as int) =~= refs@);
    out
}

/// The enumerators of an enumeration, with their values as `i64`.
fn variants_of_enum(vs: &Vec<EnumVariant>) -> (out: Vec<VariantInfo>)
    ensures
        out@.map_values(|v: VariantInfo| (v.name@, v.value)) == vs@.map_values(
            |v: EnumVariant| (v.name@, v.value.spec_as_i64()),
        ),
{
    let mut out: Vec<VariantInfo> = Vec::new();
    let mut i: usize = 0;
    while i < vs.len()
        invariant
            0 <= i <= vs@.len(),
            out@.len() == i,
            forall|k: int|
                0 <= k < i ==> (#[trigger] out@[k]).name@ == vs@[k].name@ && out@[k].value
                    == vs@[k].value.spec_as_i64(),
        decreases vs@.len() - i,
    {
        let v = &vs[i];
        out.push(VariantInfo { name: v.name.clone(), value: v.value.as_i64() });
        i = i + 1;
    }
    assert(out@.map_values(|v: VariantInfo| (v.name@, v.value)) =~= vs@.map_values(
        |v: EnumVariant| (v.name@, v.value.spec_as_i64()),
    ));
    out
}

/// The report of the type node at `r`, entered under index `k`; none for the
/// kinds that are not reported.
fn type_info_of(pdb: &ParsedPdb, k: u32, r: TypeRef) -> (out: Option<TypeInfo>)
    requires
        pdb.wf(),
        r.0 < pdb.nodes@.len(),
    ensures
        out is Some <==> kind_text(pdb.nodes@[r.0 as int]) is Some,
        out matches Some(info) ==> type_info_from(info, k, pdb.nodes@[r.0 as int], *pdb),
{
    let t = &pdb.nodes[r.0];
    assert(t.refs_below(r.0 as int));
    let kind = match kind_of(t) {
        Some(kind) => kind,
        None => return None,
    };
    let empty_refs: Vec<TypeRef> = Vec::new();
    let refs: &Vec<TypeRef> = match t {
        Type::Class(c) => &c.fields,
        Type::Union(u) => &u.fields,
        _ => &empty_refs,
    };
    assert(refs@ == field_refs(*t));
    let fields = fields_of(pdb, refs, r.0);
    let base_classes = match t {
        Type::Class(c) => bases_of(pdb, &c.fields, r.0),
        _ => Vec::new(),
    };
    let variants = match t {
        Type::Enumeration(e) => variants_of_enum(&e.variants),
        _ => Vec::new(),
    };
    let info = TypeInfo {
        index: k,
        kind,
        name: name_of(t),
        size: size_of_node(t),
        fields,
        variants,
        base_classes,
    };
    proof {
        if !(t is Enumeration) {
            assert(info.variants@.map_values(|v: VariantInfo| (v.name@, v.value)) =~= Seq::<(Seq<char>, i64)>::empty());
        }
    }
    Some(info)
}

/// The reports of the TPI types of `pdb`, in the order they were entered.
fn types_of(pdb: &ParsedPdb) -> (out: Vec<TypeInfo>)
    requires
        pdb.wf(),
    ensures
        types_from(out@, *pdb),
{
    let mut out: Vec<TypeInfo> = Vec::new();
    let mut j: usize = 0;
    while j < pdb.type_order.len()
        invariant
            pdb.wf(),
            0 <= j <= pdb.type_order@.len(),
            out@.len() == kept_keys(*pdb, pdb.type_order@.subrange(0, j as int)).len(),
            forall|i: int|
                0 <= i < out@.len() ==> type_info_from(
                    #[trigger] out@[i],
                    kept_keys(*pdb, pdb.type_order@.subrange(0, j as int))[i],
                    pdb.nodes@[pdb.types@[kept_keys(*pdb, pdb.type_order@.subrange(0, j as int))[i]].0 as int],
                    *pdb,
                ),
        decreases pdb.type_order@.len() - j,
    {
        let ghost next = pdb.type_order@.subrange(0, (j + 1) as int);
        assert(next.drop_last() =~= pdb.type_order@.subrange(0, j as int));
        assert(next.last() == pdb.type_order@[j as int]);
        let k = pdb.type_order[j];
        assert(pdb.types@.contains_key(k));
        let r = match pdb.types.get(&k) {
            Some(r) => *r,
            None => {
                j = j + 1;
                continue;
            },
        };
        if let Some(info) = type_info_of(pdb, k, r) {
            out.push(info);
        }
        j = j + 1;
    }
    assert(pdb.type_order@.subrange(0, pdb.type_order@.len() as int) =~= pdb.type_order@);
    out
}

/// The reported offset of a symbol: its RVA, truncated to 32 bits.
pub open spec fn offset_of(rva: Option<usize>) -> Option<u32> {
    match rva {
        Some(o) => Some(o as u32),
        None => None,
    }
}

fn offset_from(rva: Option<usize>) -> (r: Option<u32>)
    ensures
        r == offset_of(rva),
{
    match rva {
        Some(o) => Some(o as u32),
        None => None,
    }
}

/// Whether `data` is the report of `pdb`: its age and GUID; its types (see
/// [`types_from`]); each public symbol's name, offset and function flag; each
/// procedure's name, offset and length (truncated to 32 bits); each global
/// data symbol's name and offset; each debug module's name and object file.
pub open spec fn report_from(data: NewPdbData, pdb: ParsedPdb) -> bool {
    let ps = data.symbols.public_symbols@;
    let qs = data.symbols.procedures@;
    let ds = data.symbols.data_symbols@;
    &&& data.header.age == pdb.age
    &&& data.header.guid@ == hyphenated_guid(pdb.guid@)
    &&& types_from(data.types@, pdb)
    &&& ps.len() == pdb.public_symbols@.len()
    &&& forall|i: int|
        0 <= i < ps.len() ==> (#[trigger] ps[i]).name@ == pdb.public_symbols@[i].name@ && ps[i].offset
            == offset_of(pdb.public_symbols@[i].rva) && ps[i].is_function
            == pdb.public_symbols@[i].is_function
    &&& qs.len() == pdb.procedures@.len()
    &&& forall|i: int|
        0 <= i < qs.len() ==> (#[trigger] qs[i]).name@ == pdb.procedures@[i].name@ && qs[i].offset
            == offset_of(pdb.procedures@[i].rva) && qs[i].len == pdb.procedures@[i].len as u32
    &&& ds.len() == pdb.global_data@.len()
    &&& forall|i: int|
        0 <= i < ds.len() ==> (#[trigger] ds[i]).name@ == pdb.global_data@[i].name@ && ds[i].offset
            == offset_of(pdb.global_data@[i].rva)
    &&& data.modules@.len() == pdb.debug_modules@.len()
    &&& forall|i: int|
        0 <= i < data.modules@.len() ==> (#[trigger] data.modules@[i]).name@
            == pdb.debug_modules@[i].name@ && data.modules@[i].object_file@
            == pdb.debug_modules@[i].object_file_name@
}

/// The report of a parsed PDB (see [`report_from`]).
pub fn new_pdb_data(pdb: &ParsedPdb) -> (data: NewPdbData)
    requires
        pdb.wf(),
    ensures
        report_from(data, *pdb),
{
    let header = HeaderInfo { age: pdb.age, guid: guid_text(pdb.guid) };
    let types = types_of(pdb);

    let mut public_symbols: Vec<PublicSymbol> = Vec::new();
    let mut i: usize = 0;
    while i < pdb.public_symbols.len()
        invariant
            0 <= i <= pdb.public_symbols@.len(),
            public_symbols@.len() == i,
            forall|j: int|
                0 <= j < i ==> (#[trigger] public_symbols@[j]).name@ == pdb.public_symbols@[j].name@
                    && public_symbols@[j].offset == offset_of(pdb.public_symbols@[j].rva)
                    && public_symbols@[j].is_function == pdb.public_symbols@[j].is_function,
        decreases pdb.public_symbols@.len() - i,
    {
        let s = &pdb.public_symbols[i];
        public_symbols.push(
            PublicSymbol { name: s.name.clone(), offset: offset_from(s.rva), is_function: s.is_function },
        );
        i = i + 1;
    }

    let mut procedures: Vec<ProcedureSymbol> = Vec::new();
    let mut i: usize = 0;
    while i < pdb.procedures.len()
        invariant
            0 <= i <= pdb.procedures@.len(),
            procedures@.len() == i,
            forall|j: int|
                0 <= j < i ==> (#[trigger] procedures@[j]).name@ == pdb.procedures@[j].name@
                    && procedures@[j].offset == offset_of(pdb.procedures@[j].rva) && procedures@[j].len
                    == pdb.procedures@[j].len as u32,
        decreases pdb.procedures@.len() - i,
    {
        let p = &pdb.procedures[i];
        procedures.push(
            ProcedureSymbol { name: p.name.clone(), offset: offset_from(p.rva), len: p.len as u32 },
        );
        i = i + 1;
    }

    let mut data_symbols: Vec<DataSymbol> = Vec::new();
    let mut i: usize = 0;
    while i < pdb.global_data.len()
        invariant
            0 <= i <= pdb.global_data@.len(),
            data_symbols@.len() == i,
            forall|j: int|
                0 <= j < i ==> (#[trigger] data_symbols@[j]).name@ == pdb.global_data@[j].name@
                    && data_symbols@[j].offset == offset_of(pdb.global_data@[j].rva),
        decreases pdb.global_data@.len() - i,
    {
        let d = &pdb.global_data[i];
        data_symbols.push(DataSymbol { name: d.name.clone(), offset: offset_from(d.rva) });
        i = i + 1;
    }

    let mut modules: Vec<ModuleInfo> = Vec::new();
    let mut i: usize = 0;
    while i < pdb.debug_modules.len()
        invariant
            0 <= i <= pdb.debug_modules@.len(),
            modules@.len() == i,
            forall|j: int|
                0 <= j < i ==> (#[trigger] modules@[j]).name@ == pdb.debug_modules@[j].name@
                    && modules@[j].object_file@ == pdb.debug_modules@[j].object_file_name@,
        decreases pdb.debug_modules@.len() - i,
    {
        let m = &pdb.debug_modules[i];
        modules.push(ModuleInfo { name: m.name.clone(), object_file: m.object_file_name.clone() });
        i = i + 1;
    }

    NewPdbData {
        header,
        types,
        symbols: SymbolData { public_symbols, procedures, data_symbols },
        modules,
    }
}

/// Parses what was read of a PDB file without a base address (see
/// [`parse_pdb_data`]) and reports the result (see [`new_pdb_data`]); a failed
/// parse is returned as it is.
pub fn parse_pdb_new(input: PdbInput) -> (r: Result<NewPdbData, Error>)
    ensures
        exists|types: ParsedPdb, parsed: Result<ParsedPdb, Error>|
            #[trigger] parse_outcome(input, None, types, parsed) && match (parsed, r) {
                (Ok(pdb), Ok(data)) => report_from(data, pdb),
                (Err(e1), Err(e2)) => e1 == e2,
                _ => false,
            },
{
    let ghost input0 = input;
    let parsed = parse_pdb_data(input, None);
    let ghost types = choose|types: ParsedPdb| parse_outcome(input0, None, types, parsed);
    match parsed {
        Ok(pdb) => {
            let data = new_pdb_data(&pdb);
            assert(parse_outcome(input0, None, types, Ok::<ParsedPdb, Error>(pdb)));
            Ok(data)
        },
        Err(e) => {
            assert(parse_outcome(input0, None, types, Err::<ParsedPdb, Error>(e)));
            Err(e)
        },
    }
}

} // verus!
