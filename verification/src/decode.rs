//! Decoding the bytes of a PDB's type and symbol streams into plain records,
//! with ms-pdb's parsers.
use vstd::prelude::*;

use ms_pdb::codeview::syms::SymData;
use ms_pdb::codeview::types::fields::Field;
use ms_pdb::codeview::types::TypeData;
use ms_pdb::tpi::TypeStream;
use ms_pdb::Stream;

use crate::error::Error;
use crate::parse::{parse_outcome, parse_pdb_data, PdbInput, RawModule};
use crate::sections::le_u32;
use crate::records::{RawField, RawRecord, RawSymbol, RawType, RawTypeStream};
use crate::symbol_types::ParsedPdb;
use crate::text::text;

verus! {

#[verifier::external_type_specification]
#[verifier::external_body]
pub struct ExTypeData<'a>(TypeData<'a>);

#[verifier::external_type_specification]
#[verifier::external_body]
pub struct ExField<'a>(Field<'a>);

#[verifier::external_type_specification]
#[verifier::external_body]
pub struct ExSymData<'a>(SymData<'a>);

/// The records of a TPI or IPI stream, decoded one by one, with the `{:?}`
/// rendering of each record (by position).
#[derive(Debug)]
pub struct DecodedTypes {
    pub stream: RawTypeStream,
    pub renderings: Vec<String>,
}

/// What ms-pdb decodes from the bytes of a TPI or IPI stream (see
/// [`decode_type_stream`]).
pub uninterp spec fn decoded_type_stream(bytes: Seq<u8>) -> Result<DecodedTypes, String>;

/// What ms-pdb decodes from the bytes of a symbol stream (see [`decode_symbols`]).
pub uninterp spec fn decoded_symbols(bytes: Seq<u8>) -> Seq<RawSymbol>;

/// The length of a type stream's header.
pub const TYPE_STREAM_HEADER_LEN: usize = 56;

/// Whether ms-pdb's check of a type stream's header stays within 32 bits: it
/// adds the header's `header_size` (at byte 4) and `type_record_bytes` (at
/// byte 16) as `u32` once the stream holds a whole header whose
/// `type_index_end` (byte 12) is not below its `type_index_begin` (byte 8),
/// whose `type_index_begin` is at least 0x1000 and whose `header_size` is at
/// least the header's length.
pub open spec fn header_sums_fit(b: Seq<u8>) -> bool {
    ||| b.len() < TYPE_STREAM_HEADER_LEN
    ||| le_u32(b, 12) < le_u32(b, 8)
    ||| le_u32(b, 8) < 0x1000
    ||| le_u32(b, 4) < TYPE_STREAM_HEADER_LEN
    ||| le_u32(b, 4) + le_u32(b, 16) <= u32::MAX
}

fn read_le_u32(b: &Vec<u8>, at: usize) -> (v: u32)
    requires
        at + 4 <= b.len(),
    ensures
        v == le_u32(b@, at as int),
{
    let v: u32 = b[at] as u32 + 256 * (b[at + 1] as u32) + 65536 * (b[at + 2] as u32) + 16777216 * (
    b[at + 3] as u32);
    v
}

/// See [`header_sums_fit`].
fn header_sums_fit_exec(b: &Vec<u8>) -> (r: bool)
    ensures
        r == header_sums_fit(b@),
{
    if b.len() < TYPE_STREAM_HEADER_LEN {
        return true;
    }
    let header_size = read_le_u32(b, 4);
    let begin = read_le_u32(b, 8);
    let end = read_le_u32(b, 12);
    let record_bytes = read_le_u32(b, 16);
    end < begin || begin < 0x1000 || (header_size as usize) < TYPE_STREAM_HEADER_LEN || (header_size as u64)
        + (record_bytes as u64) <= u32::MAX as u64
}

/// Decodes the bytes of a TPI or IPI stream with ms-pdb: `TypeStream::parse`
/// reads and checks the header (its error message where the header is
/// invalid; the stream index given to it only names the stream in that
/// message); each record that `TypeStream::iter_type_records` yields is
/// decoded on its own with `TypeRecord::parse` (undecodable where that fails;
/// a field list with its own fields, its `LF_INDEX` links included), with the
/// `{:?}` rendering of each (that of `TypeData::Unknown` where it fails); and
/// the header's `type_index_begin` and `type_index_end` are kept. ms-pdb adds
/// the header's `header_size` and `type_record_bytes` as `u32`, which the
/// `requires` keeps from overflowing. The result is named
/// [`decoded_type_stream`].
#[verifier::external_body]
pub(crate) fn decode_type_stream(bytes: &Vec<u8>) -> (r: Result<DecodedTypes, String>)
    requires
        header_sums_fit(bytes@),
    ensures
        r == decoded_type_stream(bytes@),
{
    let s = TypeStream::parse(Stream::TPI, bytes.clone()).map_err(|e| e.to_string())?;
    let renderings = s.iter_type_records().map(|r| format!("{:?}", r.parse().unwrap_or(TypeData::Unknown))).collect();
    let records = s.iter_type_records().map(|r| match r.parse() {
        Ok(d) => RawRecord::Parsed(type_record(&d)),
        Err(_) => RawRecord::Undecodable,
    }).collect();
    let stream = RawTypeStream { begin: s.type_index_begin().0, end: s.type_index_end().0, records };
    Ok(DecodedTypes { stream, renderings })
}

/// Decodes the records of a symbol stream's bytes with ms-pdb's `SymIter` and
/// `Sym::parse`: public symbols, procedures, data symbols and build
/// information (the renderings of types left for the caller), other records as
/// such, undecodable ones as such. The result is named [`decoded_symbols`].
#[verifier::external_body]
pub(crate) fn decode_symbols(bytes: &Vec<u8>) -> (r: Vec<RawSymbol>)
    ensures
        r@ == decoded_symbols(bytes@),
{
    ms_pdb::codeview::syms::SymIter::new(bytes).map(|sym| match sym.parse() {
        Ok(d) => symbol_record(sym.kind.0, &d),
        Err(_) => RawSymbol::Undecodable,
    }).collect()
}

/// The record for a decoded type record of ms-pdb.
fn type_record(d: &TypeData) -> RawType {
    if let Some(r) = field_list_record(d) {
        r
    } else if let Some(r) = struct_record(d) {
        r
    } else if let Some(r) = union_record(d) {
        r
    } else if let Some(r) = enum_or_array_record(d) {
        r
    } else if let Some(r) = function_record(d) {
        r
    } else if let Some(r) = small_record(d) {
        r
    } else if let Some(r) = list_record(d) {
        r
    } else if let Some(r) = src_line_record(d) {
        r
    } else if let Some(r) = id_record(d) {
        r
    } else if let Some(r) = id_list_record(d) {
        r
    } else {
        RawType::Unknown
    }
}

/// Field lists (`TypeData::FieldList`): their own fields, in order, as
/// `FieldList::iter` yields them.
#[verifier::external_body]
fn field_list_record(d: &TypeData) -> Option<RawType> {
    match d {
        TypeData::FieldList(fl) => Some(RawType::FieldList { fields: fl.iter().map(|f| field_record(&f)).collect() }),
        _ => None,
    }
}

/// Structures (ms-pdb's `TypeData::Struct`), field by field.
#[verifier::external_body]
fn struct_record(d: &TypeData) -> Option<RawType> {
    let text = |b: &[u8]| String::from_utf8_lossy(b).into_owned();
    match d {
        TypeData::Struct(s) => Some(RawType::Struct { name: text(s.name), unique_name: s.unique_name.map(|u| text(u)),
            property: s.fixed.property.0.get(), field_list: s.fixed.field_list.get().0,
            derivation_list: s.fixed.derivation_list.get().0, length: u64::try_from(s.length).ok() }),
        _ => None,
    }
}

/// Unions (`TypeData::Union`), field by field.
#[verifier::external_body]
fn union_record(d: &TypeData) -> Option<RawType> {
    let text = |b: &[u8]| String::from_utf8_lossy(b).into_owned();
    match d {
        TypeData::Union(u) => Some(RawType::Union { name: text(u.name), unique_name: u.unique_name.map(|n| text(n)),
            property: u.fixed.property.0.get(), fields: u.fixed.fields.get().0, count: u.fixed.count.get(),
            length: u64::try_from(u.length).ok() }),
        _ => None,
    }
}

/// Enumerations and arrays (`TypeData::Enum`, `TypeData::Array`), field by field.
#[verifier::external_body]
fn enum_or_array_record(d: &TypeData) -> Option<RawType> {
    let text = |b: &[u8]| String::from_utf8_lossy(b).into_owned();
    match d {
        TypeData::Enum(e) => Some(RawType::Enum { name: text(e.name), unique_name: e.unique_name.map(|n| text(n)),
            property: e.fixed.property.0.get(), underlying_type: e.fixed.underlying_type.get().0,
            fields: e.fixed.fields.get().0 }),
        TypeData::Array(a) => Some(RawType::Array { element_type: a.fixed.element_type.get().0,
            index_type: a.fixed.index_type.get().0, len: u64::try_from(a.len).ok() }),
        _ => None,
    }
}

/// Procedure and member function types (`TypeData::Proc`, `TypeData::MemberFunc`), field by field.
#[verifier::external_body]
fn function_record(d: &TypeData) -> Option<RawType> {
    match d {
        TypeData::Proc(p) => Some(RawType::Proc { return_value: p.return_value.get().0,
            arg_list: p.arg_list.get().0, call: p.call }),
        TypeData::MemberFunc(m) => Some(RawType::MemberFunc { return_value: m.return_value.get().0,
            class: m.class.get().0, this: m.this.get().0, arg_list: m.arg_list.get().0, call: m.call,
            this_adjust: m.this_adjust.get() }),
        _ => None,
    }
}

/// Virtual table shapes, pointers, modifiers and bitfields, field by field.
#[verifier::external_body]
fn small_record(d: &TypeData) -> Option<RawType> {
    match d {
        TypeData::VTableShape(v) => Some(RawType::VTableShape { count: v.count, descriptors: v.descriptors.to_vec() }),
        TypeData::Pointer(p) => Some(RawType::Pointer { ty: p.fixed.ty.get().0, attr: p.fixed.attr.get() }),
        TypeData::Modifier(m) => Some(RawType::Modifier { underlying_type: m.underlying_type.get().0,
            attributes: m.attributes.get() }),
        TypeData::Bitfield(b) => Some(RawType::Bitfield { underlying_type: b.underlying_type.get().0,
            length: b.length, position: b.position }),
        _ => None,
    }
}

/// Method lists, argument lists and aliases, field by field.
#[verifier::external_body]
fn list_record(d: &TypeData) -> Option<RawType> {
    match d {
        TypeData::MethodList(_) => Some(RawType::MethodList),
        TypeData::ArgList(a) => Some(RawType::ArgList { args: a.args.iter().map(|t| t.get().0).collect() }),
        TypeData::Alias(a) => Some(RawType::Alias { name: String::from_utf8_lossy(a.name).into_owned(), utype: a.utype.0 }),
        _ => None,
    }
}

/// Source line records, field by field.
#[verifier::external_body]
fn src_line_record(d: &TypeData) -> Option<RawType> {
    match d {
        TypeData::UdtSrcLine(u) => Some(RawType::UdtSrcLine { ty: u.ty.get().0, line: u.line.get() }),
        TypeData::UdtModSrcLine(u) => Some(RawType::UdtModSrcLine { ty: u.ty.get().0, line: u.line.get() }),
        _ => None,
    }
}

/// Function ids and member function ids, field by field.
#[verifier::external_body]
fn id_record(d: &TypeData) -> Option<RawType> {
    let text = |b: &[u8]| String::from_utf8_lossy(b).into_owned();
    match d {
        TypeData::FuncId(f) => Some(RawType::FuncId { name: text(f.name), scope: f.fixed.scope.get(),
            func_type: f.fixed.func_type.get().0 }),
        TypeData::MFuncId(f) => Some(RawType::MFuncId { name: text(f.name), parent_type: f.fixed.parent_type.get().0,
            func_type: f.fixed.func_type.get().0 }),
        _ => None,
    }
}

/// String ids, substring lists, build information, virtual function tables.
#[verifier::external_body]
fn id_list_record(d: &TypeData) -> Option<RawType> {
    match d {
        TypeData::StringId(s) => Some(RawType::StringId { name: String::from_utf8_lossy(s.name).into_owned(), id: s.id }),
        TypeData::SubStrList(s) => Some(RawType::SubStrList { ids: s.ids.iter().map(|i| i.get()).collect() }),
        TypeData::BuildInfo(b) => Some(RawType::BuildInfo { args: b.args.iter().map(|i| i.get()).collect() }),
        TypeData::VFTable(v) => Some(RawType::VFTable { root: v.root.get().0, path: v.path.get().0,
            off: v.off.get(), seg: v.seg.get() }),
        _ => None,
    }
}

/// The record for a decoded field of ms-pdb.
fn field_record(f: &Field) -> RawField {
    if let Some(r) = member_field(f) {
        r
    } else if let Some(r) = other_field(f) {
        r
    } else if let Some(r) = base_field(f) {
        r
    } else {
        RawField::Other
    }
}

/// Members, static members, nested types and base classes, field by field.
#[verifier::external_body]
fn member_field(f: &Field) -> Option<RawField> {
    let text = |b: &[u8]| String::from_utf8_lossy(b).into_owned();
    match f {
        Field::Member(m) => Some(RawField::Member { ty: m.ty.0, name: text(m.name), offset: u64::try_from(m.offset).ok() }),
        Field::StaticMember(m) => Some(RawField::StaticMember { ty: m.ty.0, name: text(m.name) }),
        Field::NestedType(n) => Some(RawField::NestedType { nested_ty: n.nested_ty.0, name: text(n.name) }),
        Field::BaseClass(b) => Some(RawField::BaseClass { ty: b.ty.0, offset: u64::try_from(b.offset).ok() }),
        _ => None,
    }
}

/// Virtual function table pointers, methods, enumerators and field list
/// links, field by field.
#[verifier::external_body]
fn other_field(f: &Field) -> Option<RawField> {
    let text = |b: &[u8]| String::from_utf8_lossy(b).into_owned();
    match f {
        Field::VFuncTable(ty) => Some(RawField::VFuncTable { ty: ty.0 }),
        Field::Index(ty) => Some(RawField::Index { ty: ty.0 }),
        Field::OneMethod(_) => Some(RawField::OneMethod),
        Field::Method(_) => Some(RawField::Method),
        Field::Enumerate(e) => Some(RawField::Enumerate { name: text(e.name), as_unsigned: u64::try_from(e.value).ok(),
            as_signed: i64::try_from(e.value).ok() }),
        _ => None,
    }
}

/// Virtual base classes (direct and indirect), field by field.
#[verifier::external_body]
fn base_field(f: &Field) -> Option<RawField> {
    match f {
        Field::DirectVirtualBaseClass(v) => Some(RawField::VirtualBaseClass { direct: true, btype: v.fixed.btype.get().0,
            vbtype: v.fixed.vbtype.get().0, vbpoff: u64::try_from(v.vbpoff).ok(), vboff: u64::try_from(v.vboff).ok() }),
        Field::IndirectVirtualBaseClass(v) => Some(RawField::VirtualBaseClass { direct: false, btype: v.fixed.btype.get().0,
            vbtype: v.fixed.vbtype.get().0, vbpoff: u64::try_from(v.vbpoff).ok(), vboff: u64::try_from(v.vboff).ok() }),
        _ => None,
    }
}

/// The record for a decoded symbol of ms-pdb of record kind `kind`.
fn symbol_record(kind: u16, d: &SymData) -> RawSymbol {
    if let Some(r) = pub_or_data_symbol(kind, d) {
        r
    } else if let Some(r) = proc_symbol(kind, d) {
        r
    } else {
        RawSymbol::Other
    }
}

/// Public symbols, data symbols and build information (`SymData::Pub`,
/// `SymData::Data`, `SymData::BuildInfo`), field by field.
#[verifier::external_body]
fn pub_or_data_symbol(kind: u16, d: &SymData) -> Option<RawSymbol> {
    let text = |b: &[u8]| String::from_utf8_lossy(b).into_owned();
    match d {
        SymData::Pub(p) => Some(RawSymbol::Pub { name: text(p.name), flags: p.fixed.flags.get(),
            segment: p.fixed.offset_segment.segment.get(), offset: p.fixed.offset_segment.offset.get() }),
        SymData::Data(x) => Some(RawSymbol::Data { kind, name: text(x.name), type_index: x.header.type_.get().0,
            segment: x.header.offset_segment.segment.get(), offset: x.header.offset_segment.offset.get() }),
        SymData::BuildInfo(b) => Some(RawSymbol::BuildInfo { item: b.item, item_rendering: None }),
        _ => None,
    }
}

/// Procedures (`SymData::Proc`), field by field; the rendering of the
/// procedure type is left for the caller.
#[verifier::external_body]
fn proc_symbol(kind: u16, d: &SymData) -> Option<RawSymbol> {
    match d {
        SymData::Proc(p) => Some(RawSymbol::Proc { kind, name: String::from_utf8_lossy(p.name).into_owned(),
            proc_type: p.fixed.proc_type.get().0, segment: p.fixed.offset_segment.segment.get(),
            offset: p.fixed.offset_segment.offset.get(), proc_len: p.fixed.proc_len.get(),
            debug_start: p.fixed.debug_start.get(), debug_end: p.fixed.debug_end.get(), signature: None }),
        _ => None,
    }
}


// ---------------------------------------------------------------------------
// Field list chains
// ---------------------------------------------------------------------------

/// The fields of a field list other than its `LF_INDEX` links, in order.
pub open spec fn own_fields(fields: Seq<RawField>) -> Seq<RawField>
    decreases fields.len(),
{
    if fields.len() == 0 {
        Seq::empty()
    } else if fields.last() is Index {
        own_fields(fields.drop_last())
    } else {
        own_fields(fields.drop_last()).push(fields.last())
    }
}

/// The field list that the last `LF_INDEX` link of a field list names, where
/// it has one.
pub open spec fn last_link(fields: Seq<RawField>) -> Option<u32>
    decreases fields.len(),
{
    if fields.len() == 0 {
        None
    } else {
        match fields.last() {
            RawField::Index { ty } => Some(ty),
            _ => last_link(fields.drop_last()),
        }
    }
}

/// The fields of the chain of field lists of `s` that starts at index `idx`,
/// in the order in which ms-pdb's `TypeStream::iter_fields` yields them: the
/// fields of the field list at `idx` other than its links, then those of the
/// chain from the list its last link names. The chain ends at an index whose
/// record is not a decoded field list, and at one it has already read
/// (`seen`), where ms-pdb's iterator would go round for ever; `fuel` bounds the
/// steps, and a chain of distinct lists of `s` never reaches it when it starts
/// at the number of records of `s`.
pub open spec fn chain_from(s: RawTypeStream, idx: u32, seen: Seq<u32>, fuel: nat) -> Seq<RawField>
    decreases fuel,
{
    if fuel == 0 || seen.contains(idx) {
        Seq::empty()
    } else {
        match s.spec_record(idx) {
            Some(RawRecord::Parsed(RawType::FieldList { fields })) => own_fields(fields@) + match last_link(
                fields@,
            ) {
                Some(next) => chain_from(s, next, seen.push(idx), (fuel - 1) as nat),
                None => Seq::empty(),
            },
            _ => Seq::empty(),
        }
    }
}

/// The fields of the chain of field lists of `s` that starts at `idx` (see
/// [`chain_from`]).
pub open spec fn field_chain_of(s: RawTypeStream, idx: u32) -> Seq<RawField> {
    chain_from(s, idx, Seq::empty(), s.records@.len() as nat)
}

/// Whether record `i` of `s` is a field list with a type index.
pub open spec fn is_chain_start(s: RawTypeStream, i: int) -> bool {
    &&& s.begin + i <= u32::MAX
    &&& s.records@[i] matches RawRecord::Parsed(RawType::FieldList { .. })
}

/// Whether `r` is record `i` of `s` with, where it is a field list, the
/// fields of its whole chain.
pub open spec fn chained_record(s: RawTypeStream, i: int, r: RawRecord) -> bool {
    if is_chain_start(s, i) {
        r matches RawRecord::Parsed(RawType::FieldList { fields }) && fields@ == field_chain_of(
            s,
            (s.begin + i) as u32,
        )
    } else {
        r == s.records@[i]
    }
}

/// Whether `t` is stream `s` with each field list holding the fields of its
/// whole chain (see [`chain_from`]).
pub open spec fn chained(s: RawTypeStream, t: RawTypeStream) -> bool {
    &&& t.begin == s.begin
    &&& t.end == s.end
    &&& t.records@.len() == s.records@.len()
    &&& forall|i: int| 0 <= i < s.records@.len() ==> chained_record(s, i, #[trigger] t.records@[i])
}

/// A copy of a field.
fn copy_field(f: &RawField) -> (r: RawField)
    ensures
        r == *f,
{
    match f {
        RawField::Member { ty, name, offset } => RawField::Member { ty: *ty, name: name.clone(), offset: *offset },
        RawField::StaticMember { ty, name } => RawField::StaticMember { ty: *ty, name: name.clone() },
        RawField::BaseClass { ty, offset } => RawField::BaseClass { ty: *ty, offset: *offset },
        RawField::VirtualBaseClass { direct, btype, vbtype, vbpoff, vboff } => RawField::VirtualBaseClass {
            direct: *direct,
            btype: *btype,
            vbtype: *vbtype,
            vbpoff: *vbpoff,
            vboff: *vboff,
        },
        RawField::NestedType { nested_ty, name } => RawField::NestedType {
            nested_ty: *nested_ty,
            name: name.clone(),
        },
        RawField::OneMethod => RawField::OneMethod,
        RawField::Method => RawField::Method,
        RawField::Enumerate { name, as_unsigned, as_signed } => RawField::Enumerate {
            name: name.clone(),
            as_unsigned: *as_unsigned,
            as_signed: *as_signed,
        },
        RawField::VFuncTable { ty } => RawField::VFuncTable { ty: *ty },
        RawField::Index { ty } => RawField::Index { ty: *ty },
        RawField::Other => RawField::Other,
    }
}

/// Appends the fields of a field list other than its links to `out`, and
/// returns the list its last link names.
fn append_own_fields(fields: &Vec<RawField>, out: &mut Vec<RawField>) -> (link: Option<u32>)
    ensures
        final(out)@ == old(out)@ + own_fields(fields@),
        link == last_link(fields@),
{
    let mut link: Option<u32> = None;
    let mut i: usize = 0;
    while i < fields.len()
        invariant
            0 <= i <= fields@.len(),
            out@ == old(out)@ + own_fields(fields@.take(i as int)),
            link == last_link(fields@.take(i as int)),
        decreases fields@.len() - i,
    {
        assert(fields@.take(i as int + 1).drop_last() =~= fields@.take(i as int));
        match &fields[i] {
            RawField::Index { ty } => {
                link = Some(*ty);
            },
            f => {
                out.push(copy_field(f));
            },
        }
        i = i + 1;
    }
    assert(fields@.take(fields@.len() as int) =~= fields@);
    link
}

/// Whether `idx` is among `seen`.
fn seen_before(seen: &Vec<u32>, idx: u32) -> (r: bool)
    ensures
        r == seen@.contains(idx),
{
    let mut i: usize = 0;
    while i < seen.len()
        invariant
            0 <= i <= seen@.len(),
            forall|j: int| 0 <= j < i ==> seen@[j] != idx,
        decreases seen@.len() - i,
    {
        if seen[i] == idx {
            return true;
        }
        i = i + 1;
    }
    false
}

/// See [`field_chain_of`].
fn field_chain(s: &RawTypeStream, start: u32) -> (r: Vec<RawField>)
    ensures
        r@ == field_chain_of(*s, start),
{
    let mut out: Vec<RawField> = Vec::new();
    let mut seen: Vec<u32> = Vec::new();
    let mut cur = start;
    let mut fuel: usize = s.records.len();
    assert(out@ + chain_from(*s, cur, seen@, fuel as nat) =~= field_chain_of(*s, start));
    loop
        invariant
            out@ + chain_from(*s, cur, seen@, fuel as nat) == field_chain_of(*s, start),
        decreases fuel,
    {
        if fuel == 0 || seen_before(&seen, cur) {
            assert(out@ + Seq::<RawField>::empty() =~= out@);
            return out;
        }
        match s.record(cur) {
            Some(RawRecord::Parsed(RawType::FieldList { fields })) => {
                let ghost before = out@;
                let ghost seen0 = seen@;
                let ghost fuel0 = fuel as nat;
                let link = append_own_fields(fields, &mut out);
                seen.push(cur);
                fuel = fuel - 1;
                match link {
                    Some(next) => {
                        assert(out@ + chain_from(*s, next, seen@, fuel as nat) =~= before + chain_from(
                            *s,
                            cur,
                            seen0,
                            fuel0,
                        ));
                        cur = next;
                    },
                    None => {
                        assert(out@ =~= before + chain_from(*s, cur, seen0, fuel0));
                        return out;
                    },
                }
            },
            _ => {
                assert(out@ + Seq::<RawField>::empty() =~= out@);
                return out;
            },
        }
    }
}

/// Puts into each field list of a stream the fields of its whole chain (see
/// [`chained`]).
pub fn chain_field_lists(s: RawTypeStream) -> (t: RawTypeStream)
    ensures
        chained(s, t),
{
    let n = s.records.len();
    let mut chains: Vec<Option<Vec<RawField>>> = Vec::new();
    let mut i: usize = 0;
    while i < n
        invariant
            n == s.records@.len(),
            0 <= i <= n,
            chains@.len() == i,
            forall|j: int|
                0 <= j < i ==> (if is_chain_start(s, j) {
                    #[trigger] chains@[j] matches Some(c) && c@ == field_chain_of(s, (s.begin + j) as u32)
                } else {
                    chains@[j] is None
                }),
        decreases n - i,
    {
        let is_list = match &s.records[i] {
            RawRecord::Parsed(RawType::FieldList { .. }) => true,
            _ => false,
        };
        if is_list && (i as u64) <= (u32::MAX - s.begin) as u64 {
            let c = field_chain(&s, s.begin + i as u32);
            chains.push(Some(c));
        } else {
            chains.push(None);
        }
        i = i + 1;
    }
    let ghost s0 = s;
    let ghost chains0 = chains@;
    let RawTypeStream { begin, end, mut records } = s;
    let mut k: usize = 0;
    while k < n
        invariant
            n == s0.records@.len(),
            0 <= k <= n,
            records@.len() == n,
            chains@.len() == n,
            forall|j: int| k <= j < n ==> #[trigger] records@[j] == s0.records@[j],
            forall|j: int| k <= j < n ==> #[trigger] chains@[j] == chains0[j],
            forall|j: int| 0 <= j < k ==> chained_record(s0, j, #[trigger] records@[j]),
            forall|j: int|
                0 <= j < n ==> (if is_chain_start(s0, j) {
                    #[trigger] chains0[j] matches Some(c) && c@ == field_chain_of(s0, (s0.begin + j) as u32)
                } else {
                    chains0[j] is None
                }),
        decreases n - k,
    {
        let ghost records_before = records@;
        let ghost chains_before = chains@;
        let mut c: Option<Vec<RawField>> = None;
        chains.set_and_swap(k, &mut c);
        assert(c == chains0[k as int]);
        match c {
            Some(fields) => {
                records.set(k, RawRecord::Parsed(RawType::FieldList { fields }));
            },
            None => {},
        }
        assert forall|j: int| k < j < n implies #[trigger] records@[j] == s0.records@[j] by {
            assert(records_before[j] == s0.records@[j]);
        }
        assert forall|j: int| k < j < n implies #[trigger] chains@[j] == chains0[j] by {
            assert(chains_before[j] == chains0[j]);
        }
        k = k + 1;
    }
    RawTypeStream { begin, end, records }
}

// ---------------------------------------------------------------------------
// The input of a parse, from the bytes of the streams
// ---------------------------------------------------------------------------

/// The `{:?}` rendering of the record at `index` of a decoded stream, where
/// the stream has a record there.
pub open spec fn spec_rendering(d: DecodedTypes, index: u32) -> Option<String> {
    if d.stream.begin <= index && index - d.stream.begin < d.renderings@.len() {
        Some(d.renderings@[index - d.stream.begin])
    } else {
        None
    }
}

/// See [`spec_rendering`].
fn rendering_at(d: &DecodedTypes, index: u32) -> (r: Option<String>)
    ensures
        r == spec_rendering(*d, index),
{
    if d.stream.begin <= index && ((index - d.stream.begin) as usize) < d.renderings.len() {
        Some(d.renderings[(index - d.stream.begin) as usize].clone())
    } else {
        None
    }
}

/// The rendering of IPI item `item`, where the IPI stream was decoded.
pub open spec fn ipi_rendering(ipi: Option<DecodedTypes>, item: u32) -> Option<String> {
    match ipi {
        Some(d) => spec_rendering(d, item),
        None => None,
    }
}

/// Symbol `s` with the renderings it carries filled in: a procedure's type
/// from the TPI stream, a build information item from the IPI stream.
pub open spec fn with_renderings(s: RawSymbol, tpi: DecodedTypes, ipi: Option<DecodedTypes>) -> RawSymbol {
    match s {
        RawSymbol::Proc {
            kind,
            name,
            proc_type,
            segment,
            offset,
            proc_len,
            debug_start,
            debug_end,
            signature: _,
        } => RawSymbol::Proc {
            kind,
            name,
            proc_type,
            segment,
            offset,
            proc_len,
            debug_start,
            debug_end,
            signature: spec_rendering(tpi, proc_type),
        },
        RawSymbol::BuildInfo { item, item_rendering: _ } => RawSymbol::BuildInfo {
            item,
            item_rendering: ipi_rendering(ipi, item),
        },
        _ => s,
    }
}

fn attach_renderings(s: RawSymbol, tpi: &DecodedTypes, ipi: &Option<DecodedTypes>) -> (r: RawSymbol)
    ensures
        r == with_renderings(s, *tpi, *ipi),
{
    match s {
        RawSymbol::Proc { kind, name, proc_type, segment, offset, proc_len, debug_start, debug_end, signature: _ } => {
            RawSymbol::Proc {
                kind,
                name,
                proc_type,
                segment,
                offset,
                proc_len,
                debug_start,
                debug_end,
                signature: rendering_at(tpi, proc_type),
            }
        },
        RawSymbol::BuildInfo { item, item_rendering: _ } => {
            let item_rendering = match ipi {
                Some(d) => rendering_at(d, item),
                None => None,
            };
            RawSymbol::BuildInfo { item, item_rendering }
        },
        other => other,
    }
}

/// The decoded symbols of a symbol stream's bytes, with their renderings.
pub open spec fn symbols_of(bytes: Seq<u8>, tpi: DecodedTypes, ipi: Option<DecodedTypes>) -> Seq<RawSymbol> {
    decoded_symbols(bytes).map_values(|s: RawSymbol| with_renderings(s, tpi, ipi))
}

fn symbols_with_renderings(bytes: &Vec<u8>, tpi: &DecodedTypes, ipi: &Option<DecodedTypes>) -> (r: Vec<RawSymbol>)
    ensures
        r@ == symbols_of(bytes@, *tpi, *ipi),
{
    let mut syms = decode_symbols(bytes);
    let ghost decoded = syms@;
    let mut i: usize = 0;
    while i < syms.len()
        invariant
            decoded == decoded_symbols(bytes@),
            syms@.len() == decoded.len(),
            0 <= i <= syms@.len(),
            forall|j: int| 0 <= j < i ==> syms@[j] == with_renderings(decoded[j], *tpi, *ipi),
            forall|j: int| i <= j < syms@.len() ==> syms@[j] == decoded[j],
        decreases syms@.len() - i,
    {
        let mut s = RawSymbol::Other;
        syms.set_and_swap(i, &mut s);
        let t = attach_renderings(s, tpi, ipi);
        syms.set(i, t);
        i = i + 1;
    }
    assert(syms@ =~= symbols_of(bytes@, *tpi, *ipi));
    syms
}

/// A debug module of the DBI stream, with the bytes of its symbol records
/// where its stream could be read.
#[derive(Debug)]
pub struct ModuleBytes {
    pub name: String,
    pub object_file_name: String,
    pub symbols: Option<Vec<u8>>,
}

/// What is read of a PDB file, with its type and symbol streams as bytes.
#[derive(Debug)]
pub struct PdbBytes {
    /// The path the PDB was read from.
    pub path: String,
    /// The DBI header's machine field.
    pub machine: u16,
    /// The DBI header's age.
    pub age: u32,
    /// The PDB information stream's GUID.
    pub guid: [u8; 16],
    /// The PDB information stream's signature.
    pub signature: u32,
    /// The PDB information stream's version.
    pub version: u32,
    /// The TPI stream.
    pub tpi: Vec<u8>,
    /// The IPI stream, where it could be read.
    pub ipi: Option<Vec<u8>>,
    /// The section header stream, where it could be read.
    pub section_headers: Option<Vec<u8>>,
    /// The global symbol stream.
    pub global_symbols: Vec<u8>,
    /// The debug modules, in order.
    pub modules: Vec<ModuleBytes>,
}

/// The IPI stream decoded, where its bytes were read and decode.
pub open spec fn decoded_ipi(ipi: Option<Vec<u8>>) -> Option<DecodedTypes> {
    match ipi {
        Some(bytes) => if !header_sums_fit(bytes@) {
            None
        } else {
            match decoded_type_stream(bytes@) {
                Ok(d) => Some(d),
                Err(_) => None,
            }
        },
        None => None,
    }
}

/// The message for a TPI stream whose header's `header_size` and
/// `type_record_bytes` add up to more than 32 bits hold.
pub open spec fn oversized_header_message() -> Seq<char> {
    "Type stream has invalid values in header.  The header_size and type_record_bytes fields exceed the size of any stream."@
}

fn oversized_header_error() -> (e: Error)
    ensures
        e matches Error::PdbCrateError(m) && m@ == oversized_header_message(),
{
    Error::PdbCrateError(
        text(
            "Type stream has invalid values in header.  The header_size and type_record_bytes fields exceed the size of any stream.",
        ),
    )
}

/// The IPI stream decoded (see [`decoded_ipi`]).
fn decode_ipi(ipi: &Option<Vec<u8>>) -> (r: Option<DecodedTypes>)
    ensures
        r == decoded_ipi(*ipi),
{
    match ipi {
        Some(bytes) => {
            if !header_sums_fit_exec(bytes) {
                None
            } else {
                match decode_type_stream(bytes) {
                    Ok(d) => Some(d),
                    Err(_) => None,
                }
            }
        },
        None => None,
    }
}

/// Whether `m` is module `b` with its symbols decoded.
pub open spec fn module_decoded(m: RawModule, b: ModuleBytes, tpi: DecodedTypes, ipi: Option<DecodedTypes>) -> bool {
    &&& m.name@ == b.name@
    &&& m.object_file_name@ == b.object_file_name@
    &&& match (m.symbols, b.symbols) {
        (Some(s), Some(bytes)) => s@ == symbols_of(bytes@, tpi, ipi),
        (None, None) => true,
        _ => false,
    }
}

/// Whether `r` is the input that `b` decodes to: an error where the TPI
/// stream's header sizes overflow (see [`header_sums_fit`]) or the stream does
/// not decode (with ms-pdb's message); else the header values of `b`, the
/// decoded TPI stream and the IPI stream where it decodes, each with its field
/// list chains gathered (see [`chained`]), the section headers, and the
/// symbols of the global stream and of each module, decoded with their
/// renderings.
pub open spec fn input_decoded(b: PdbBytes, r: Result<PdbInput, Error>) -> bool {
    if !header_sums_fit(b.tpi@) {
        r matches Err(Error::PdbCrateError(e)) && e@ == oversized_header_message()
    } else {
    match decoded_type_stream(b.tpi@) {
        Err(m) => r matches Err(Error::PdbCrateError(e)) && e@ == m@,
        Ok(tpi) => match r {
            Ok(inp) => {
                let ipi = decoded_ipi(b.ipi);
                &&& inp.path@ == b.path@
                &&& inp.machine == b.machine
                &&& inp.age == b.age
                &&& inp.guid == b.guid
                &&& inp.signature == b.signature
                &&& inp.version == b.version
                &&& chained(tpi.stream, inp.tpi)
                &&& match ipi {
                    Some(d) => inp.ipi matches Some(s) && chained(d.stream, s),
                    None => inp.ipi is None,
                }
                &&& inp.section_headers == b.section_headers
                &&& inp.global_symbols@ == symbols_of(b.global_symbols@, tpi, ipi)
                &&& inp.modules@.len() == b.modules@.len()
                &&& forall|i: int|
                    0 <= i < b.modules@.len() ==> module_decoded(#[trigger] inp.modules@[i], b.modules@[i], tpi, ipi)
            },
            Err(_) => false,
        },
    }
    }
}

/// Decodes what was read of a PDB file (see [`input_decoded`]).
pub fn decode_input(b: PdbBytes) -> (r: Result<PdbInput, Error>)
    ensures
        input_decoded(b, r),
{
    let ghost b0 = b;
    let PdbBytes {
        path,
        machine,
        age,
        guid,
        signature,
        version,
        tpi,
        ipi,
        section_headers,
        global_symbols,
        modules,
    } = b;
    if !header_sums_fit_exec(&tpi) {
        return Err(oversized_header_error());
    }
    let tpi_types = match decode_type_stream(&tpi) {
        Ok(d) => d,
        Err(m) => {
            return Err(Error::PdbCrateError(m));
        },
    };
    let ipi_types = decode_ipi(&ipi);
    let globals = symbols_with_renderings(&global_symbols, &tpi_types, &ipi_types);
    let mut raw_modules: Vec<RawModule> = Vec::new();
    let mut i: usize = 0;
    while i < modules.len()
        invariant
            0 <= i <= modules@.len(),
            modules@ == b0.modules@,
            raw_modules@.len() == i,
            forall|j: int|
                0 <= j < i ==> module_decoded(#[trigger] raw_modules@[j], b0.modules@[j], tpi_types, ipi_types),
        decreases modules@.len() - i,
    {
        let m = &modules[i];
        let symbols = match &m.symbols {
            Some(bytes) => Some(symbols_with_renderings(bytes, &tpi_types, &ipi_types)),
            None => None,
        };
        raw_modules.push(RawModule { name: text(m.name.as_str()), object_file_name: text(m.object_file_name.as_str()), symbols });
        i = i + 1;
    }
    let DecodedTypes { stream: tpi_stream, renderings: _ } = tpi_types;
    let tpi_stream = chain_field_lists(tpi_stream);
    let ipi_stream = match ipi_types {
        Some(d) => Some(chain_field_lists(d.stream)),
        None => None,
    };
    Ok(PdbInput {
        path,
        machine,
        age,
        guid,
        signature,
        version,
        tpi: tpi_stream,
        ipi: ipi_stream,
        section_headers,
        global_symbols: globals,
        modules: raw_modules,
    })
}

/// Decodes what was read of a PDB file (see [`decode_input`]) and parses it
/// (see [`parse_pdb_data`]); an input that does not decode is its error.
pub fn parse_pdb_bytes(b: PdbBytes, base_address: Option<usize>) -> (r: Result<ParsedPdb, Error>)
    ensures
        exists|d: Result<PdbInput, Error>|
            #[trigger] input_decoded(b, d) && match d {
                Err(e) => r == Err::<ParsedPdb, Error>(e),
                Ok(inp) => exists|types: ParsedPdb| #[trigger] parse_outcome(inp, base_address, types, r),
            },
{
    let ghost b0 = b;
    match decode_input(b) {
        Err(e) => {
            assert(input_decoded(b0, Err::<PdbInput, Error>(e)));
            Err(e)
        },
        Ok(inp) => {
            let ghost inp0 = inp;
            let r = parse_pdb_data(inp, base_address);
            assert(input_decoded(b0, Ok::<PdbInput, Error>(inp0)));
            r
        },
    }
}

} // verus!
