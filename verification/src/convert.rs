//! Conversion of the type records of a PDB's TPI and IPI streams into the
//! type model. Each type index is converted once per stream map: the result is
//! kept in `ParsedPdb::types` (TPI) or `ParsedPdb::ipi_types` (IPI) and looked
//! up on later references.
use vstd::prelude::*;

use crate::error::Error;
use crate::records::{RawField, RawRecord, RawType, RawTypeStream};
use crate::symbol_types::{ParsedPdb, TypeRef};
use crate::text::{starts_with, text};
use crate::type_info::{
    decode_primitive_type, spec_decode_primitive_type, Alias, Array, ArgumentList, BaseClass, Bitfield,
    BuildInfoTypeData, Class, ClassKind, EnumVariant, Enumeration, FieldList, FuncIdType,
    FunctionAttributes, MFuncIdType, MemberFunction, Member, Method, MethodList, MethodListEntry,
    Modifier, Nested, OverloadedMethod, Pointer,
    PointerAttributes, Procedure, StaticMember, StringIdType, SubStrListType, Type, TypeProperties,
    UdtSrcLineType, Union, VFTableType, VTable, VTableShape, VariantValue, VirtualBaseClass,
};
use crate::type_size::{lemma_size_kept_by_append, node_size, opt_text, spec_type_size};

verus! {

broadcast use vstd::std_specs::hash::group_hash_axioms;

// ---------------------------------------------------------------------------
// What a conversion produces
// ---------------------------------------------------------------------------

/// Whether map `m` holds `r` under key `k`.
pub open spec fn maps_to(m: Map<u32, TypeRef>, k: u32, r: TypeRef) -> bool {
    m.contains_key(k) && m[k] == r
}

/// A numeric leaf as a `usize`: 0 where it did not fit in a `u64`, else the
/// number truncated to the width of `usize`.
pub open spec fn num_usize(v: Option<u64>) -> usize {
    match v {
        Some(x) => x as usize,
        None => 0,
    }
}

/// The kind given to a class record: an interface where the name starts with
/// 'I' and the class contains nested types; a class where it has constructors,
/// overloaded operators or an overloaded assignment; else a struct.
pub open spec fn spec_class_kind(name: Seq<char>, p: TypeProperties) -> ClassKind {
    if name.len() > 0 && name[0] == 'I' && p.contains_nested_types {
        ClassKind::Interface
    } else if p.constructors || p.overlapped_operators || p.overload_assignment {
        ClassKind::Class
    } else {
        ClassKind::Struct
    }
}

/// The kind recorded for a base class: that of the class it names, or struct
/// where the base type is not a class.
pub open spec fn base_kind(t: Type) -> ClassKind {
    match t {
        Type::Class(c) => c.kind,
        _ => ClassKind::Struct,
    }
}

/// The node that a map entry names in `p`.
pub open spec fn node_of(p: ParsedPdb, r: TypeRef) -> Type {
    p.nodes@[r.0 as int]
}

/// Whether node `t` is the conversion of field `f`, with type references
/// resolved through the TPI map of `after`.
pub open spec fn field_converts(f: RawField, t: Type, after: ParsedPdb) -> bool {
    match f {
        RawField::Member { ty, name, offset } => match t {
            Type::Member(m) => m.name@ == name@ && maps_to(after.types@, ty, m.underlying_type)
                && m.offset == num_usize(offset),
            _ => false,
        },
        RawField::StaticMember { ty, name } => match t {
            Type::StaticMember(m) => m.name@ == name@ && maps_to(after.types@, ty, m.field_type),
            _ => false,
        },
        RawField::BaseClass { ty, offset } => match t {
            Type::BaseClass(b) => maps_to(after.types@, ty, b.base_class) && b.offset == num_usize(
                offset,
            ) && b.kind == base_kind(node_of(after, b.base_class)),
            _ => false,
        },
        RawField::VirtualBaseClass { direct, btype, vbtype, vbpoff, vboff } => match t {
            Type::VirtualBaseClass(v) => v.direct == direct && maps_to(
                after.types@,
                btype,
                v.base_class,
            ) && maps_to(after.types@, vbtype, v.base_pointer) && v.base_pointer_offset
                == num_usize(vbpoff) && v.virtual_base_offset == num_usize(vboff),
            _ => false,
        },
        RawField::NestedType { nested_ty, name } => match t {
            Type::Nested(n) => n.name@ == name@ && maps_to(after.types@, nested_ty, n.nested_type),
            _ => false,
        },
        RawField::Enumerate { name, as_unsigned, as_signed } => match t {
            Type::EnumVariant(v) => v.name@ == name@ && VariantValue::spec_from_number(
                as_unsigned,
                as_signed,
            ) == Some(v.value),
            _ => false,
        },
        RawField::VFuncTable { ty } => match t {
            Type::VTable(v) => maps_to(after.types@, ty, v.0),
            _ => false,
        },
        _ => false,
    }
}

/// Whether a field converts whatever the rest of the stream holds: an
/// enumerator with a representable value.
pub open spec fn field_always_converts(f: RawField) -> bool {
    match f {
        RawField::Enumerate { as_unsigned, as_signed, .. } => VariantValue::spec_from_number(
            as_unsigned,
            as_signed,
        ) is Some,
        _ => false,
    }
}

/// Whether `out` holds the conversions of the fields of `chain` at the
/// strictly increasing positions `picks`, all below `n`, and every field below
/// `n` that always converts was picked.
pub open spec fn picks_upto(
    chain: Seq<RawField>,
    out: Seq<TypeRef>,
    picks: Seq<int>,
    after: ParsedPdb,
    n: int,
) -> bool {
    &&& n <= chain.len()
    &&& picks.len() == out.len()
    &&& forall|i: int| 0 <= i < picks.len() ==> 0 <= #[trigger] picks[i] < n
    &&& forall|i: int, j: int| 0 <= i < j < picks.len() ==> picks[i] < picks[j]
    &&& forall|i: int|
        0 <= i < out.len() ==> (#[trigger] out[i]).0 < after.nodes@.len() && field_converts(
            chain[picks[i]],
            node_of(after, out[i]),
            after,
        )
    &&& forall|j: int| 0 <= j < n && field_always_converts(#[trigger] chain[j]) ==> picks.contains(j)
}

/// [`picks_upto`] over the whole chain.
pub open spec fn picks_convert(
    chain: Seq<RawField>,
    out: Seq<TypeRef>,
    picks: Seq<int>,
    after: ParsedPdb,
) -> bool {
    picks_upto(chain, out, picks, after, chain.len() as int)
}

/// Whether `out` is a conversion of the field chain `chain`: the conversions,
/// in order, of the fields that converted (members, static members, base
/// classes, virtual base classes, nested types and virtual function tables
/// whose types resolve, and enumerators with a representable value).
pub open spec fn fields_convert(chain: Seq<RawField>, out: Seq<TypeRef>, after: ParsedPdb) -> bool {
    exists|picks: Seq<int>| picks_convert(chain, out, picks, after)
}

/// The enumerators (name and value) among the nodes `refs`, in order.
pub open spec fn variants_of(nodes: Seq<Type>, refs: Seq<TypeRef>) -> Seq<(Seq<char>, VariantValue)>
    decreases refs.len(),
{
    if refs.len() == 0 {
        Seq::empty()
    } else {
        let rest = variants_of(nodes, refs.drop_last());
        match nodes[refs.last().0 as int] {
            Type::EnumVariant(v) => rest.push((v.name@, v.value)),
            _ => rest,
        }
    }
}

/// The name and value of an enumerator.
pub open spec fn variant_view(v: EnumVariant) -> (Seq<char>, VariantValue) {
    (v.name@, v.value)
}

/// The arguments of a procedure whose argument list resolved to node `t`:
/// those of an argument list, none for any other node.
pub open spec fn arguments_of(t: Type) -> Seq<TypeRef> {
    match t {
        Type::ArgumentList(a) => a.0@,
        _ => Seq::empty(),
    }
}

/// Whether an optional reference, where present, is the map's entry for `k`.
pub open spec fn maybe_maps_to(m: Map<u32, TypeRef>, k: u32, r: Option<TypeRef>) -> bool {
    match r {
        Some(t) => maps_to(m, k, t),
        None => true,
    }
}

/// Whether node `t` is the conversion of a record of one of the TPI kinds,
/// with references resolved through the TPI map of `after`.
pub open spec fn record_converts(raw: RawType, t: Type, stream: RawTypeStream, after: ParsedPdb) -> bool {
    match raw {
        RawType::Array { element_type, index_type, len } => match t {
            Type::Array(a) => maps_to(after.types@, element_type, a.element_type) && maps_to(
                after.types@,
                index_type,
                a.indexing_type,
            ) && a.size == num_usize(len) && a.dimensions_bytes@ == seq![a.size]
                && a.dimensions_elements@.len() == 0,
            _ => false,
        },
        RawType::Struct { name, unique_name, property, field_list, derivation_list, length } =>
            match t {
            Type::Class(c) => c.name@ == name@ && opt_text(c.unique_name) == opt_text(unique_name)
                && c.properties == TypeProperties::spec_from_bits(property) && c.kind
                == spec_class_kind(name@, c.properties) && c.size == num_usize(length) && (
            if derivation_list == 0 {
                c.derived_from is None
            } else {
                maybe_maps_to(after.types@, derivation_list, c.derived_from) && c.derived_from is Some
            }) && (if field_list == 0 {
                c.fields@.len() == 0
            } else {
                fields_convert(stream.spec_field_chain(field_list), c.fields@, after)
            }),
            _ => false,
        },
        RawType::Union { name, unique_name, property, fields, count, length } => match t {
            Type::Union(u) => u.name@ == name@ && opt_text(u.unique_name) == opt_text(unique_name)
                && u.properties == TypeProperties::spec_from_bits(property) && u.size == num_usize(
                length,
            ) && u.count == count as usize && (if fields == 0 {
                u.fields@.len() == 0
            } else {
                fields_convert(stream.spec_field_chain(fields), u.fields@, after)
            }),
            _ => false,
        },
        RawType::Enum { name, unique_name, property, underlying_type, fields } => match t {
            Type::Enumeration(e) => e.name@ == name@ && opt_text(e.unique_name) == opt_text(
                unique_name,
            ) && e.properties == TypeProperties::spec_from_bits(property) && maps_to(
                after.types@,
                underlying_type,
                e.underlying_type,
            ) && (if fields == 0 {
                e.variants@.len() == 0
            } else {
                exists|out: Seq<TypeRef>|
                    fields_convert(stream.spec_field_chain(fields), out, after) && variants_of(
                        after.nodes@,
                        out,
                    ) == e.variants@.map_values(|v: EnumVariant| variant_view(v))
            }),
            _ => false,
        },
        RawType::Proc { return_value, arg_list, call } => match t {
            Type::Procedure(p) => p.attributes == FunctionAttributes::spec_from_call(call)
                && maybe_maps_to(after.types@, return_value, p.return_type)
                && after.types@.contains_key(arg_list) && p.argument_list@ == arguments_of(
                node_of(after, after.types@[arg_list]),
            ),
            _ => false,
        },
        RawType::MemberFunc { return_value, class, this, arg_list, call, this_adjust } => match t {
            Type::MemberFunction(m) => m.attributes == FunctionAttributes::spec_from_call(call)
                && maps_to(after.types@, return_value, m.return_type) && maps_to(
                after.types@,
                class,
                m.class_type,
            ) && maybe_maps_to(after.types@, this, m.this_pointer_type)
                && after.types@.contains_key(arg_list) && m.argument_list@ == arguments_of(
                node_of(after, after.types@[arg_list]),
            ) && m.this_adjustment == this_adjust,
            _ => false,
        },
        RawType::VTableShape { count, descriptors } => match t {
            Type::VTableShape(v) => v.count == count && v.descriptors@ == descriptors@,
            _ => false,
        },
        RawType::Pointer { ty, attr } => match t {
            Type::Pointer(p) => p.attributes == PointerAttributes::spec_from_bits(attr)
                && maybe_maps_to(after.types@, ty, p.underlying_type),
            _ => false,
        },
        RawType::Modifier { underlying_type, attributes } => match t {
            Type::Modifier(m) => maps_to(after.types@, underlying_type, m.underlying_type)
                && m.constant == (attributes & 1 != 0) && m.volatile == (attributes & 2 != 0)
                && m.unaligned == (attributes & 4 != 0),
            _ => false,
        },
        RawType::Bitfield { underlying_type, length, position } => match t {
            Type::Bitfield(b) => maps_to(after.types@, underlying_type, b.underlying_type) && b.len
                == length as usize && b.position == position as usize,
            _ => false,
        },
        RawType::FieldList { fields } => match t {
            Type::FieldList(f) => fields_convert(fields@, f.0@, after),
            _ => false,
        },
        RawType::MethodList => match t {
            Type::MethodList(l) => l.0@.len() == 0,
            _ => false,
        },
        RawType::ArgList { args } => match t {
            Type::ArgumentList(a) => a.0@.len() == args@.len() && forall|i: int|
                0 <= i < args@.len() ==> maps_to(after.types@, args@[i], #[trigger] a.0@[i]),
            _ => false,
        },
        RawType::Alias { name, utype } => match t {
            Type::Alias(a) => a.name@ == name@ && maps_to(after.types@, utype, a.underlying_type),
            _ => false,
        },
        RawType::VFTable { root, path, off, seg } => match t {
            Type::VFTableType(v) => maps_to(after.types@, root, v.root) && maps_to(
                after.types@,
                path,
                v.path,
            ) && v.offset == off && v.segment == seg,
            _ => false,
        },
        _ => false,
    }
}

/// An entry of either map of `p` for `k`: the TPI one where there is one, else the IPI one.
pub open spec fn lookup_either(p: ParsedPdb, k: u32) -> Option<TypeRef> {
    if p.types@.contains_key(k) {
        Some(p.types@[k])
    } else if p.ipi_types@.contains_key(k) {
        Some(p.ipi_types@[k])
    } else {
        None
    }
}

/// The non-zero item ids of a list, in order.
pub open spec fn nonzero_ids(ids: Seq<u32>) -> Seq<u32>
    decreases ids.len(),
{
    if ids.len() == 0 {
        Seq::empty()
    } else {
        let rest = nonzero_ids(ids.drop_last());
        if ids.last() != 0 {
            rest.push(ids.last())
        } else {
            rest
        }
    }
}

/// Whether `refs` are the IPI map's entries for `ids`, in order.
pub open spec fn all_map_to(m: Map<u32, TypeRef>, ids: Seq<u32>, refs: Seq<TypeRef>) -> bool {
    refs.len() == ids.len() && forall|i: int| 0 <= i < ids.len() ==> maps_to(m, ids[i], #[trigger] refs[i])
}

/// Whether node `t` is the conversion of a record of one of the IPI kinds.
/// Lookups that the conversion makes before converting anything are made in
/// `before`; references it converts are resolved through the IPI map of `after`.
pub open spec fn ipi_record_converts(raw: RawType, t: Type, before: ParsedPdb, after: ParsedPdb) -> bool {
    match raw {
        RawType::FuncId { name, scope, func_type } => match t {
            Type::FuncId(f) => f.name@ == name@ && f.function_type == (if func_type == 0 {
                None
            } else {
                lookup_either(before, func_type)
            }) && (if scope == 0 {
                f.parent_scope is None
            } else {
                f.parent_scope is Some && maybe_maps_to(after.ipi_types@, scope, f.parent_scope)
            }),
            _ => false,
        },
        RawType::MFuncId { name, parent_type, func_type } => match t {
            Type::MFuncId(f) => f.name@ == name@ && f.function_type == (if func_type == 0 {
                None
            } else {
                lookup_either(before, func_type)
            }) && f.parent_type == (if parent_type == 0 {
                None
            } else {
                lookup_either(before, parent_type)
            }),
            _ => false,
        },
        RawType::StringId { name, id } => match t {
            Type::StringId(s) => s.id@ == name@ && (if id == 0 {
                s.substring is None
            } else {
                s.substring is Some && maybe_maps_to(after.ipi_types@, id, s.substring)
            }),
            _ => false,
        },
        RawType::SubStrList { ids } => match t {
            Type::SubStrList(s) => all_map_to(after.ipi_types@, nonzero_ids(ids@), s.strings@),
            _ => false,
        },
        RawType::BuildInfo { args } => match t {
            Type::BuildInfoType(b) => all_map_to(after.ipi_types@, nonzero_ids(args@), b.items@),
            _ => false,
        },
        RawType::UdtSrcLine { ty, line } | RawType::UdtModSrcLine { ty, line } => match t {
            Type::UdtSrcLineType(u) => u.source_file is None && u.line_number == line
                && lookup_either(before, ty) == Some(u.udt),
            _ => false,
        },
        _ => false,
    }
}


// ---------------------------------------------------------------------------
// Facts that survive extending the parsed PDB
// ---------------------------------------------------------------------------

proof fn lemma_field_converts_mono(f: RawField, t: Type, a: ParsedPdb, b: ParsedPdb)
    requires
        a.wf(),
        a.extended_by(&b),
        field_converts(f, t, a),
    ensures
        field_converts(f, t, b),
{
    match f {
        RawField::BaseClass { ty, offset } => {
            if let Type::BaseClass(bc) = t {
                assert(a.types@.contains_key(ty));
                assert(node_of(b, bc.base_class) == node_of(a, bc.base_class));
            }
        },
        _ => {},
    }
}

proof fn lemma_picks_mono(
    chain: Seq<RawField>,
    out: Seq<TypeRef>,
    picks: Seq<int>,
    a: ParsedPdb,
    b: ParsedPdb,
    n: int,
)
    requires
        a.wf(),
        a.extended_by(&b),
        picks_upto(chain, out, picks, a, n),
    ensures
        picks_upto(chain, out, picks, b, n),
{
    assert forall|i: int| 0 <= i < out.len() implies (#[trigger] out[i]).0 < b.nodes@.len()
        && field_converts(chain[picks[i]], node_of(b, out[i]), b) by {
        assert(node_of(b, out[i]) == node_of(a, out[i]));
        lemma_field_converts_mono(chain[picks[i]], node_of(a, out[i]), a, b);
    }
}

proof fn lemma_fields_convert_mono(chain: Seq<RawField>, out: Seq<TypeRef>, a: ParsedPdb, b: ParsedPdb)
    requires
        a.wf(),
        a.extended_by(&b),
        fields_convert(chain, out, a),
    ensures
        fields_convert(chain, out, b),
{
    let picks = choose|picks: Seq<int>| picks_convert(chain, out, picks, a);
    lemma_picks_mono(chain, out, picks, a, b, chain.len() as int);
    assert(picks_convert(chain, out, picks, b));
}

proof fn lemma_variants_of_mono(na: Seq<Type>, nb: Seq<Type>, refs: Seq<TypeRef>)
    requires
        na.len() <= nb.len(),
        forall|i: int| 0 <= i < na.len() ==> nb[i] == #[trigger] na[i],
        forall|i: int| 0 <= i < refs.len() ==> (#[trigger] refs[i]).0 < na.len(),
    ensures
        variants_of(na, refs) == variants_of(nb, refs),
    decreases refs.len(),
{
    if refs.len() > 0 {
        assert(refs.drop_last().len() == refs.len() - 1);
        assert forall|i: int| 0 <= i < refs.drop_last().len() implies (
        #[trigger] refs.drop_last()[i]).0 < na.len() by {
            assert(refs.drop_last()[i] == refs[i]);
        }
        lemma_variants_of_mono(na, nb, refs.drop_last());
        assert(refs.last() == refs[refs.len() - 1]);
    }
}

proof fn lemma_record_converts_mono(
    raw: RawType,
    t: Type,
    stream: RawTypeStream,
    a: ParsedPdb,
    b: ParsedPdb,
)
    requires
        a.wf(),
        a.extended_by(&b),
        record_converts(raw, t, stream, a),
    ensures
        record_converts(raw, t, stream, b),
{
    match raw {
        RawType::Struct { field_list, .. } => {
            if let Type::Class(c) = t {
                if field_list != 0 {
                    lemma_fields_convert_mono(stream.spec_field_chain(field_list), c.fields@, a, b);
                }
            }
        },
        RawType::Union { fields, .. } => {
            if let Type::Union(u) = t {
                if fields != 0 {
                    lemma_fields_convert_mono(stream.spec_field_chain(fields), u.fields@, a, b);
                }
            }
        },
        RawType::Enum { fields, .. } => {
            if let Type::Enumeration(e) = t {
                if fields != 0 {
                    let chain = stream.spec_field_chain(fields);
                    let out = choose|out: Seq<TypeRef>|
                        fields_convert(chain, out, a) && variants_of(a.nodes@, out)
                            == e.variants@.map_values(|v: EnumVariant| variant_view(v));
                    let picks = choose|picks: Seq<int>| picks_convert(chain, out, picks, a);
                    lemma_fields_convert_mono(chain, out, a, b);
                    assert forall|i: int| 0 <= i < out.len() implies (#[trigger] out[i]).0
                        < a.nodes@.len() by {}
                    lemma_variants_of_mono(a.nodes@, b.nodes@, out);
                }
            }
        },
        RawType::Proc { arg_list, .. } => {
            assert(node_of(b, a.types@[arg_list]) == node_of(a, a.types@[arg_list]));
        },
        RawType::MemberFunc { arg_list, .. } => {
            assert(node_of(b, a.types@[arg_list]) == node_of(a, a.types@[arg_list]));
        },
        RawType::FieldList { fields } => {
            if let Type::FieldList(f) = t {
                lemma_fields_convert_mono(fields@, f.0@, a, b);
            }
        },
        _ => {},
    }
}

/// Whether the TPI map entry of `p` for `k` is a conversion out of `stream`:
/// below the stream's first index, the primitive type the index denotes; else
/// the conversion of the index's record (of one of the TPI kinds).
pub open spec fn tpi_entry_converts(p: ParsedPdb, stream: RawTypeStream, k: u32) -> bool {
    let t = node_of(p, p.types@[k]);
    if k < stream.begin {
        t == Type::Primitive(spec_decode_primitive_type(k))
    } else {
        match stream.spec_record(k) {
            Some(RawRecord::Parsed(raw)) => record_converts(raw, t, stream, p),
            _ => false,
        }
    }
}

/// Whether the IPI map entry of `p` for `k` is a conversion out of `stream`:
/// below the stream's first index, the primitive type the index denotes; else
/// the conversion of the index's record, of an IPI kind (its lookups made in
/// some earlier state) or of a TPI kind.
pub open spec fn ipi_entry_converts(p: ParsedPdb, stream: RawTypeStream, k: u32) -> bool {
    let t = node_of(p, p.ipi_types@[k]);
    if k < stream.begin {
        t == Type::Primitive(spec_decode_primitive_type(k))
    } else {
        match stream.spec_record(k) {
            Some(RawRecord::Parsed(raw)) => if raw.is_ipi_kind() {
                exists|before: ParsedPdb| #[trigger] ipi_record_converts(raw, t, before, p)
            } else {
                record_converts(raw, t, stream, p)
            },
            _ => false,
        }
    }
}

/// Whether every entry that `b` adds to the two type maps of `a` is a
/// conversion out of `stream`.
pub open spec fn added_from(a: ParsedPdb, b: ParsedPdb, stream: RawTypeStream) -> bool {
    &&& forall|k: u32|
        #[trigger] b.types@.contains_key(k) && !a.types@.contains_key(k) ==> tpi_entry_converts(
            b,
            stream,
            k,
        )
    &&& forall|k: u32|
        #[trigger] b.ipi_types@.contains_key(k) && !a.ipi_types@.contains_key(k) ==> ipi_entry_converts(
            b,
            stream,
            k,
        )
}

/// A map entry that is a conversion stays one as the parsed PDB is extended.
pub proof fn lemma_tpi_entry_mono(a: ParsedPdb, b: ParsedPdb, stream: RawTypeStream, k: u32)
    requires
        a.wf(),
        a.extended_by(&b),
        a.types@.contains_key(k),
        tpi_entry_converts(a, stream, k),
    ensures
        tpi_entry_converts(b, stream, k),
{
    assert(node_of(b, b.types@[k]) == node_of(a, a.types@[k]));
    if k >= stream.begin {
        if let Some(RawRecord::Parsed(raw)) = stream.spec_record(k) {
            lemma_record_converts_mono(raw, node_of(a, a.types@[k]), stream, a, b);
        }
    }
}

/// See [`lemma_tpi_entry_mono`].
pub proof fn lemma_ipi_entry_mono(a: ParsedPdb, b: ParsedPdb, stream: RawTypeStream, k: u32)
    requires
        a.wf(),
        a.extended_by(&b),
        a.ipi_types@.contains_key(k),
        ipi_entry_converts(a, stream, k),
    ensures
        ipi_entry_converts(b, stream, k),
{
    let t = node_of(a, a.ipi_types@[k]);
    assert(node_of(b, b.ipi_types@[k]) == t);
    if k >= stream.begin {
        if let Some(RawRecord::Parsed(raw)) = stream.spec_record(k) {
            if raw.is_ipi_kind() {
                let before = choose|before: ParsedPdb| #[trigger] ipi_record_converts(raw, t, before, a);
                lemma_ipi_record_converts_mono(raw, t, before, a, b);
            } else {
                lemma_record_converts_mono(raw, t, stream, a, b);
            }
        }
    }
}

/// Entries added in two steps are added in one.
pub proof fn lemma_added_trans(a: ParsedPdb, b: ParsedPdb, c: ParsedPdb, stream: RawTypeStream)
    requires
        b.wf(),
        a.extended_by(&b),
        b.extended_by(&c),
        added_from(a, b, stream),
        added_from(b, c, stream),
    ensures
        added_from(a, c, stream),
{
    assert forall|k: u32| #[trigger] c.types@.contains_key(k) && !a.types@.contains_key(k) implies tpi_entry_converts(
        c,
        stream,
        k,
    ) by {
        if b.types@.contains_key(k) {
            lemma_tpi_entry_mono(b, c, stream, k);
        }
    }
    assert forall|k: u32| #[trigger] c.ipi_types@.contains_key(k) && !a.ipi_types@.contains_key(k) implies ipi_entry_converts(
        c,
        stream,
        k,
    ) by {
        if b.ipi_types@.contains_key(k) {
            lemma_ipi_entry_mono(b, c, stream, k);
        }
    }
}

// ---------------------------------------------------------------------------
// When a conversion succeeds
// ---------------------------------------------------------------------------

/// Whether field `f` of a field list refers to type index `r`.
pub open spec fn field_refers(f: RawField, r: u32) -> bool {
    match f {
        RawField::Member { ty, .. } => r == ty,
        RawField::StaticMember { ty, .. } => r == ty,
        RawField::BaseClass { ty, .. } => r == ty,
        RawField::VirtualBaseClass { btype, vbtype, .. } => r == btype || r == vbtype,
        RawField::NestedType { nested_ty, .. } => r == nested_ty,
        RawField::VFuncTable { ty } => r == ty,
        _ => false,
    }
}

/// Whether some field of `fields` refers to type index `r`.
pub open spec fn fields_refer(fields: Seq<RawField>, r: u32) -> bool {
    exists|i: int| 0 <= i < fields.len() && #[trigger] field_refers(fields[i], r)
}

/// Whether the conversion of `raw`, a record of one of the TPI kinds, fails
/// unless type index `r` resolves through the TPI map.
pub open spec fn record_needs(raw: RawType, r: u32) -> bool {
    match raw {
        RawType::Struct { derivation_list, .. } => derivation_list != 0 && r == derivation_list,
        RawType::Enum { underlying_type, .. } => r == underlying_type,
        RawType::Array { element_type, index_type, .. } => r == element_type || r == index_type,
        RawType::Proc { arg_list, .. } => r == arg_list,
        RawType::MemberFunc { return_value, class, arg_list, .. } => r == return_value || r == class
            || r == arg_list,
        RawType::ArgList { args } => args@.contains(r),
        RawType::Modifier { underlying_type, .. } => r == underlying_type,
        RawType::Bitfield { underlying_type, .. } => r == underlying_type,
        RawType::Alias { utype, .. } => r == utype,
        RawType::VFTable { root, path, .. } => r == root || r == path,
        _ => false,
    }
}

/// Whether the conversion of `raw`, a record of one of the TPI kinds, tries
/// type index `r` in the TPI map and goes on without it where it does not
/// resolve: a pointer's target, a procedure's return type, a member
/// function's `this` type, the type of a field (of the field list it names).
pub open spec fn record_tries(raw: RawType, stream: RawTypeStream, r: u32) -> bool {
    match raw {
        RawType::Struct { field_list, .. } => field_list != 0 && fields_refer(
            stream.spec_field_chain(field_list),
            r,
        ),
        RawType::Union { fields, .. } => fields != 0 && fields_refer(stream.spec_field_chain(fields), r),
        RawType::Enum { fields, .. } => fields != 0 && fields_refer(stream.spec_field_chain(fields), r),
        RawType::Proc { return_value, .. } => r == return_value,
        RawType::MemberFunc { this, .. } => r == this,
        RawType::Pointer { ty, .. } => r == ty,
        RawType::FieldList { fields } => fields_refer(fields@, r),
        _ => false,
    }
}

/// Whether the record of type index `r` fails to convert at once, without a
/// lookup: `r` is no primitive and its record is missing or undecodable, of
/// an IPI kind or unknown.
pub open spec fn record_fails(stream: RawTypeStream, r: u32) -> bool {
    r >= stream.begin && match stream.spec_record(r) {
        Some(RawRecord::Parsed(raw)) => raw.is_ipi_kind() || raw is Unknown,
        _ => true,
    }
}

/// Whether type index `k` resolves through the TPI map of `p` without the
/// conversion of a record: it is below the stream's first index (a
/// primitive), or already in the map.
pub open spec fn settled(p: ParsedPdb, stream: RawTypeStream, k: u32) -> bool {
    k < stream.begin || p.types@.contains_key(k)
}

/// Whether the element type of array record `raw` has a size in `p`: the type
/// the TPI map holds for it, or else a primitive (whose size is always known).
/// True of the other records.
pub open spec fn element_sized(raw: RawType, stream: RawTypeStream, p: ParsedPdb) -> bool {
    match raw {
        RawType::Array { element_type, .. } => if p.types@.contains_key(element_type) {
            spec_type_size(p, false, p.types@[element_type].0 as int) is Some
        } else {
            element_type < stream.begin
        },
        _ => true,
    }
}

/// Whether record `raw` converts from `p` without the conversion of another
/// record: it is of one of the TPI kinds, every index it needs is settled,
/// every index it tries is settled or fails at once, and an array's element
/// type has a size.
pub open spec fn converts_from(raw: RawType, stream: RawTypeStream, p: ParsedPdb) -> bool {
    &&& !raw.is_ipi_kind()
    &&& !(raw is Unknown)
    &&& forall|r: u32| #[trigger] record_needs(raw, r) ==> settled(p, stream, r)
    &&& forall|r: u32|
        #[trigger] record_tries(raw, stream, r) ==> settled(p, stream, r) || record_fails(stream, r)
    &&& element_sized(raw, stream, p)
}

/// Whether `b` adds no entry to the TPI map of `a` but primitives (indices
/// below the stream's first one).
pub open spec fn adds_no_records(a: ParsedPdb, b: ParsedPdb, stream: RawTypeStream) -> bool {
    forall|k: u32| #[trigger] b.types@.contains_key(k) && !a.types@.contains_key(k) ==> k < stream.begin
}

/// Adding no records in two steps is adding none in one.
proof fn lemma_adds_no_records_trans(a: ParsedPdb, b: ParsedPdb, c: ParsedPdb, stream: RawTypeStream)
    requires
        a.extended_by(&b),
        adds_no_records(a, b, stream),
        adds_no_records(b, c, stream),
    ensures
        adds_no_records(a, c, stream),
{
    assert forall|k: u32| #[trigger] c.types@.contains_key(k) && !a.types@.contains_key(k) implies k
        < stream.begin by {
        if b.types@.contains_key(k) {
        }
    }
}

/// Whether field `f` is of a kind that refers to types: a member, static
/// member, base class, virtual base class, nested type or virtual function
/// table pointer.
pub open spec fn field_typed(f: RawField) -> bool {
    ||| f is Member
    ||| f is StaticMember
    ||| f is BaseClass
    ||| f is VirtualBaseClass
    ||| f is NestedType
    ||| f is VFuncTable
}

/// Whether every type index that field `f` refers to is settled in `p`.
pub open spec fn field_settled(f: RawField, p: ParsedPdb, stream: RawTypeStream) -> bool {
    forall|r: u32| #[trigger] field_refers(f, r) ==> settled(p, stream, r)
}

/// Whether field `f` refers to a type index that is not settled in `p` and
/// whose record fails at once.
pub open spec fn field_fails_at_once(f: RawField, p: ParsedPdb, stream: RawTypeStream) -> bool {
    exists|r: u32| #[trigger] field_refers(f, r) && !settled(p, stream, r) && record_fails(stream, r)
}

/// Whether the positions `picks` among the first `n` fields of `chain` were
/// chosen from `before`: every field of a typed kind whose types are all
/// settled in `before` is picked, and no field with a type that fails at once.
pub open spec fn picks_from(
    chain: Seq<RawField>,
    picks: Seq<int>,
    before: ParsedPdb,
    stream: RawTypeStream,
    n: int,
) -> bool {
    &&& forall|j: int|
        0 <= j < n && field_typed(#[trigger] chain[j]) && field_settled(chain[j], before, stream)
            ==> picks.contains(j)
    &&& forall|j: int|
        0 <= j < n && field_fails_at_once(#[trigger] chain[j], before, stream) ==> !picks.contains(j)
}

/// Whether `out` is a conversion of the field chain `chain` (see
/// [`fields_convert`]) made from `before`: the fields of typed kinds whose
/// types are settled in `before` are all kept, those with a type that fails
/// at once are all left out.
pub open spec fn fields_convert_from(
    chain: Seq<RawField>,
    out: Seq<TypeRef>,
    before: ParsedPdb,
    after: ParsedPdb,
    stream: RawTypeStream,
) -> bool {
    exists|picks: Seq<int>|
        picks_convert(chain, out, picks, after) && picks_from(chain, picks, before, stream, chain.len() as int)
}

/// Choosing the field at position `i` or not, as [`picks_from`] asks, extends it to `i + 1`.
proof fn lemma_picks_from_step(
    chain: Seq<RawField>,
    picks: Seq<int>,
    before: ParsedPdb,
    stream: RawTypeStream,
    i: int,
    picked: bool,
)
    requires
        0 <= i < chain.len(),
        picks_from(chain, picks, before, stream, i),
        forall|k: int| 0 <= k < picks.len() ==> #[trigger] picks[k] < i,
        field_typed(chain[i]) && field_settled(chain[i], before, stream) ==> picked,
        field_fails_at_once(chain[i], before, stream) ==> !picked,
    ensures
        picks_from(chain, if picked { picks.push(i) } else { picks }, before, stream, i + 1),
{
    let next = if picked { picks.push(i) } else { picks };
    assert forall|j: int|
        0 <= j < i + 1 && field_typed(#[trigger] chain[j]) && field_settled(chain[j], before, stream)
            implies next.contains(j) by {
        if j < i {
            assert(picks.contains(j));
            let k = choose|k: int| 0 <= k < picks.len() && picks[k] == j;
            assert(next[k] == j);
        } else {
            assert(next[next.len() - 1] == i);
        }
    }
    assert forall|j: int|
        0 <= j < i + 1 && field_fails_at_once(#[trigger] chain[j], before, stream) implies !next.contains(j) by {
        if next.contains(j) {
            let k = choose|k: int| 0 <= k < next.len() && next[k] == j;
            if k < picks.len() {
                assert(picks[k] < i);
                assert(picks.contains(j));
            }
        }
    }
}

/// Whether an optional reference `o` to type index `ty`, made from `before`,
/// is present where `ty` is settled in `before`, and absent where `ty` is not
/// settled and its record fails at once.
pub open spec fn tried_from(o: Option<TypeRef>, ty: u32, before: ParsedPdb, stream: RawTypeStream) -> bool {
    &&& settled(before, stream, ty) ==> o is Some
    &&& !settled(before, stream, ty) && record_fails(stream, ty) ==> o is None
}

/// Whether node `t`, converted from record `raw` starting from `before`, keeps
/// what it tried: the fields of its field list as [`fields_convert_from`]
/// says, and a pointer's target, a procedure's return type and a member
/// function's `this` type as [`tried_from`] says.
pub open spec fn tries_from(
    raw: RawType,
    t: Type,
    stream: RawTypeStream,
    before: ParsedPdb,
    after: ParsedPdb,
) -> bool {
    match (raw, t) {
        (RawType::Struct { field_list, .. }, Type::Class(c)) => field_list != 0 ==> fields_convert_from(
            stream.spec_field_chain(field_list),
            c.fields@,
            before,
            after,
            stream,
        ),
        (RawType::Union { fields, .. }, Type::Union(u)) => fields != 0 ==> fields_convert_from(
            stream.spec_field_chain(fields),
            u.fields@,
            before,
            after,
            stream,
        ),
        (RawType::FieldList { fields }, Type::FieldList(f)) => fields_convert_from(
            fields@,
            f.0@,
            before,
            after,
            stream,
        ),
        (RawType::Pointer { ty, .. }, Type::Pointer(p)) => tried_from(p.underlying_type, ty, before, stream),
        (RawType::Proc { return_value, .. }, Type::Procedure(p)) => tried_from(
            p.return_type,
            return_value,
            before,
            stream,
        ),
        (RawType::MemberFunc { this, .. }, Type::MemberFunction(m)) => tried_from(
            m.this_pointer_type,
            this,
            before,
            stream,
        ),
        _ => true,
    }
}

/// Picks chosen from a later state were chosen from an earlier one too.
proof fn lemma_picks_from_earlier(
    chain: Seq<RawField>,
    picks: Seq<int>,
    a: ParsedPdb,
    b: ParsedPdb,
    stream: RawTypeStream,
    n: int,
)
    requires
        a.extended_by(&b),
        added_from(a, b, stream),
        picks_from(chain, picks, b, stream, n),
    ensures
        picks_from(chain, picks, a, stream, n),
{
    assert forall|j: int|
        0 <= j < n && field_fails_at_once(#[trigger] chain[j], a, stream) implies !picks.contains(j) by {
        let r = choose|r: u32| #[trigger] field_refers(chain[j], r) && !settled(a, stream, r) && record_fails(stream, r);
        lemma_failing_never_added(a, b, stream, r);
        assert(field_fails_at_once(chain[j], b, stream));
    }
    assert forall|j: int|
        0 <= j < n && field_typed(#[trigger] chain[j]) && field_settled(chain[j], a, stream) implies picks.contains(j) by {
        assert(field_settled(chain[j], b, stream));
    }
}

/// A conversion of fields made from `b` was made from an earlier `a`, and
/// stays one as the parsed PDB grows past `c`.
proof fn lemma_fields_convert_from_move(
    chain: Seq<RawField>,
    out: Seq<TypeRef>,
    a: ParsedPdb,
    b: ParsedPdb,
    c: ParsedPdb,
    d: ParsedPdb,
    stream: RawTypeStream,
)
    requires
        a.extended_by(&b),
        added_from(a, b, stream),
        c.wf(),
        c.extended_by(&d),
        fields_convert_from(chain, out, b, c, stream),
    ensures
        fields_convert_from(chain, out, a, d, stream),
{
    let picks = choose|picks: Seq<int>|
        picks_convert(chain, out, picks, c) && picks_from(chain, picks, b, stream, chain.len() as int);
    lemma_picks_from_earlier(chain, picks, a, b, stream, chain.len() as int);
    lemma_picks_mono(chain, out, picks, c, d, chain.len() as int);
    assert(picks_convert(chain, out, picks, d) && picks_from(chain, picks, a, stream, chain.len() as int));
}

/// What a conversion from `b` tried, it tried from an earlier `a`; and so it
/// stays as the parsed PDB grows past `c`.
proof fn lemma_tries_from_move(
    raw: RawType,
    t: Type,
    a: ParsedPdb,
    b: ParsedPdb,
    c: ParsedPdb,
    d: ParsedPdb,
    stream: RawTypeStream,
)
    requires
        a.extended_by(&b),
        added_from(a, b, stream),
        c.wf(),
        c.extended_by(&d),
        tries_from(raw, t, stream, b, c),
    ensures
        tries_from(raw, t, stream, a, d),
{
    match (raw, t) {
        (RawType::Struct { field_list, .. }, Type::Class(cl)) => {
            if field_list != 0 {
                lemma_fields_convert_from_move(stream.spec_field_chain(field_list), cl.fields@, a, b, c, d, stream);
            }
        },
        (RawType::Union { fields, .. }, Type::Union(u)) => {
            if fields != 0 {
                lemma_fields_convert_from_move(stream.spec_field_chain(fields), u.fields@, a, b, c, d, stream);
            }
        },
        (RawType::FieldList { fields }, Type::FieldList(f)) => {
            lemma_fields_convert_from_move(fields@, f.0@, a, b, c, d, stream);
        },
        (RawType::Pointer { ty, .. }, _) => {
            if !settled(a, stream, ty) && record_fails(stream, ty) {
                lemma_failing_never_added(a, b, stream, ty);
            }
        },
        (RawType::Proc { return_value, .. }, _) => {
            if !settled(a, stream, return_value) && record_fails(stream, return_value) {
                lemma_failing_never_added(a, b, stream, return_value);
            }
        },
        (RawType::MemberFunc { this, .. }, _) => {
            if !settled(a, stream, this) && record_fails(stream, this) {
                lemma_failing_never_added(a, b, stream, this);
            }
        },
        _ => {},
    }
}

/// Whether every type index that record `raw` needs or tries is below `bound`.
pub open spec fn refs_under(raw: RawType, stream: RawTypeStream, bound: int) -> bool {
    forall|r: u32|
        #![trigger record_needs(raw, r)]
        #![trigger record_tries(raw, stream, r)]
        (record_needs(raw, r) || record_tries(raw, stream, r)) ==> r < bound
}

/// Whether every record of `stream` refers only to earlier records (or primitives).
pub open spec fn refs_backward(stream: RawTypeStream) -> bool {
    forall|k: u32|
        match #[trigger] stream.spec_record(k) {
            Some(RawRecord::Parsed(raw)) => refs_under(raw, stream, k as int),
            _ => true,
        }
}

/// Whether `b` adds no entry to the TPI map of `a` but primitives and indices below `bound`.
pub open spec fn adds_only_below(a: ParsedPdb, b: ParsedPdb, stream: RawTypeStream, bound: int) -> bool {
    forall|k: u32|
        #[trigger] b.types@.contains_key(k) && !a.types@.contains_key(k) ==> k < stream.begin || k < bound
}

proof fn lemma_adds_only_below_trans(
    a: ParsedPdb,
    b: ParsedPdb,
    c: ParsedPdb,
    stream: RawTypeStream,
    bound: int,
)
    requires
        a.extended_by(&b),
        adds_only_below(a, b, stream, bound),
        adds_only_below(b, c, stream, bound),
    ensures
        adds_only_below(a, c, stream, bound),
{
    assert forall|k: u32| #[trigger] c.types@.contains_key(k) && !a.types@.contains_key(k) implies k
        < stream.begin || k < bound by {
        if b.types@.contains_key(k) {
        }
    }
}

/// Whether the field positions `picks` of `chain` are exactly those of the
/// enumerators with a representable value and of the fields of typed kinds
/// none of whose types fails at once.
pub open spec fn picks_exact(chain: Seq<RawField>, picks: Seq<int>, stream: RawTypeStream) -> bool {
    forall|j: int|
        0 <= j < chain.len() ==> (picks.contains(j) <==> (field_always_converts(#[trigger] chain[j])
            || (field_typed(chain[j]) && !field_has_failing(chain[j], stream))))
}

/// Whether field `f` refers to a type index whose record fails at once.
pub open spec fn field_has_failing(f: RawField, stream: RawTypeStream) -> bool {
    exists|r: u32| #[trigger] field_refers(f, r) && record_fails(stream, r)
}

/// Whether `out` is the conversion of exactly the fields of `chain` that
/// [`picks_exact`] names, in order.
pub open spec fn fields_exact(chain: Seq<RawField>, out: Seq<TypeRef>, after: ParsedPdb, stream: RawTypeStream) -> bool {
    exists|picks: Seq<int>| picks_convert(chain, out, picks, after) && picks_exact(chain, picks, stream)
}

/// Whether node `t`, a conversion of record `raw`, kept exactly what it tried
/// whose record does not fail at once: the fields of its field list (see
/// [`fields_exact`]), a pointer's target, a procedure's return type, a member
/// function's `this` type.
pub open spec fn tries_exact(raw: RawType, t: Type, stream: RawTypeStream, after: ParsedPdb) -> bool {
    match (raw, t) {
        (RawType::Struct { field_list, .. }, Type::Class(c)) => field_list != 0 ==> fields_exact(
            stream.spec_field_chain(field_list),
            c.fields@,
            after,
            stream,
        ),
        (RawType::Union { fields, .. }, Type::Union(u)) => fields != 0 ==> fields_exact(
            stream.spec_field_chain(fields),
            u.fields@,
            after,
            stream,
        ),
        (RawType::FieldList { fields }, Type::FieldList(f)) => fields_exact(fields@, f.0@, after, stream),
        (RawType::Pointer { ty, .. }, Type::Pointer(p)) => (p.underlying_type is Some <==> !record_fails(stream, ty)),
        (RawType::Proc { return_value, .. }, Type::Procedure(p)) => (p.return_type is Some <==> !record_fails(
            stream,
            return_value,
        )),
        (RawType::MemberFunc { this, .. }, Type::MemberFunction(m)) => (m.this_pointer_type is Some
            <==> !record_fails(stream, this)),
        _ => true,
    }
}

/// Whether every TPI map entry of `p` is a conversion out of `stream`.
pub open spec fn entries_of(p: ParsedPdb, stream: RawTypeStream) -> bool {
    forall|k: u32| #[trigger] p.types@.contains_key(k) ==> tpi_entry_converts(p, stream, k)
}

/// A settled index of a map whose entries all come from `stream` has no
/// record that fails at once.
proof fn lemma_settled_not_failing(p: ParsedPdb, stream: RawTypeStream, r: u32)
    requires
        entries_of(p, stream),
        settled(p, stream, r),
    ensures
        !record_fails(stream, r),
{
    if r >= stream.begin {
        assert(tpi_entry_converts(p, stream, r));
    }
}

proof fn lemma_picks_exact(
    chain: Seq<RawField>,
    picks: Seq<int>,
    out: Seq<TypeRef>,
    before: ParsedPdb,
    after: ParsedPdb,
    stream: RawTypeStream,
)
    requires
        entries_of(before, stream),
        picks_convert(chain, out, picks, after),
        picks_from(chain, picks, before, stream, chain.len() as int),
        forall|r: u32|
            #[trigger] fields_refer(chain, r) ==> settled(before, stream, r) || record_fails(stream, r),
    ensures
        picks_exact(chain, picks, stream),
{
    assert forall|j: int| 0 <= j < chain.len() implies (picks.contains(j) <==> (field_always_converts(
        #[trigger] chain[j],
    ) || (field_typed(chain[j]) && !field_has_failing(chain[j], stream)))) by {
        if picks.contains(j) {
            let k = choose|k: int| 0 <= k < picks.len() && picks[k] == j;
            assert(field_converts(chain[picks[k]], node_of(after, out[k]), after));
            if field_has_failing(chain[j], stream) {
                let r = choose|r: u32| #[trigger] field_refers(chain[j], r) && record_fails(stream, r);
                if settled(before, stream, r) {
                    lemma_settled_not_failing(before, stream, r);
                }
                assert(field_fails_at_once(chain[j], before, stream));
            }
        } else {
            if field_typed(chain[j]) && !field_has_failing(chain[j], stream) {
                assert forall|r: u32| #[trigger] field_refers(chain[j], r) implies settled(before, stream, r) by {
                    assert(fields_refer(chain, r));
                }
                assert(field_settled(chain[j], before, stream));
            }
        }
    }
}

/// A record that converts from `before` (whose map entries all come from
/// `stream`) kept exactly what it tried.
pub proof fn lemma_tries_exact(raw: RawType, t: Type, stream: RawTypeStream, before: ParsedPdb, after: ParsedPdb)
    requires
        entries_of(before, stream),
        converts_from(raw, stream, before),
        tries_from(raw, t, stream, before, after),
    ensures
        tries_exact(raw, t, stream, after),
{
    match (raw, t) {
        (RawType::Struct { field_list, .. }, Type::Class(c)) => {
            if field_list != 0 {
                let chain = stream.spec_field_chain(field_list);
                let picks = choose|picks: Seq<int>|
                    picks_convert(chain, c.fields@, picks, after) && picks_from(chain, picks, before, stream, chain.len() as int);
                assert forall|r: u32| #[trigger] fields_refer(chain, r) implies settled(before, stream, r)
                    || record_fails(stream, r) by {
                    assert(record_tries(raw, stream, r));
                }
                lemma_picks_exact(chain, picks, c.fields@, before, after, stream);
            }
        },
        (RawType::Union { fields, .. }, Type::Union(u)) => {
            if fields != 0 {
                let chain = stream.spec_field_chain(fields);
                let picks = choose|picks: Seq<int>|
                    picks_convert(chain, u.fields@, picks, after) && picks_from(chain, picks, before, stream, chain.len() as int);
                assert forall|r: u32| #[trigger] fields_refer(chain, r) implies settled(before, stream, r)
                    || record_fails(stream, r) by {
                    assert(record_tries(raw, stream, r));
                }
                lemma_picks_exact(chain, picks, u.fields@, before, after, stream);
            }
        },
        (RawType::FieldList { fields }, Type::FieldList(f)) => {
            let chain = fields@;
            let picks = choose|picks: Seq<int>|
                picks_convert(chain, f.0@, picks, after) && picks_from(chain, picks, before, stream, chain.len() as int);
            assert forall|r: u32| #[trigger] fields_refer(chain, r) implies settled(before, stream, r)
                || record_fails(stream, r) by {
                assert(record_tries(raw, stream, r));
            }
            lemma_picks_exact(chain, picks, f.0@, before, after, stream);
        },
        (RawType::Pointer { ty, .. }, _) => {
            assert(record_tries(raw, stream, ty));
            if settled(before, stream, ty) {
                lemma_settled_not_failing(before, stream, ty);
            }
        },
        (RawType::Proc { return_value, .. }, _) => {
            assert(record_tries(raw, stream, return_value));
            if settled(before, stream, return_value) {
                lemma_settled_not_failing(before, stream, return_value);
            }
        },
        (RawType::MemberFunc { this, .. }, _) => {
            assert(record_tries(raw, stream, this));
            if settled(before, stream, this) {
                lemma_settled_not_failing(before, stream, this);
            }
        },
        _ => {},
    }
}

/// What a node kept exactly, it keeps as the parsed PDB grows.
proof fn lemma_tries_exact_mono(raw: RawType, t: Type, stream: RawTypeStream, a: ParsedPdb, b: ParsedPdb)
    requires
        a.wf(),
        a.extended_by(&b),
        tries_exact(raw, t, stream, a),
    ensures
        tries_exact(raw, t, stream, b),
{
    match (raw, t) {
        (RawType::Struct { field_list, .. }, Type::Class(c)) => {
            if field_list != 0 {
                let chain = stream.spec_field_chain(field_list);
                let picks = choose|picks: Seq<int>| picks_convert(chain, c.fields@, picks, a) && picks_exact(chain, picks, stream);
                lemma_picks_mono(chain, c.fields@, picks, a, b, chain.len() as int);
            }
        },
        (RawType::Union { fields, .. }, Type::Union(u)) => {
            if fields != 0 {
                let chain = stream.spec_field_chain(fields);
                let picks = choose|picks: Seq<int>| picks_convert(chain, u.fields@, picks, a) && picks_exact(chain, picks, stream);
                lemma_picks_mono(chain, u.fields@, picks, a, b, chain.len() as int);
            }
        },
        (RawType::FieldList { fields }, Type::FieldList(f)) => {
            let picks = choose|picks: Seq<int>| picks_convert(fields@, f.0@, picks, a) && picks_exact(fields@, picks, stream);
            lemma_picks_mono(fields@, f.0@, picks, a, b, fields@.len() as int);
        },
        _ => {},
    }
}

/// Whether every type index that field `f` refers to is below `bound`.
pub open spec fn field_under(f: RawField, bound: int) -> bool {
    forall|r: u32| #[trigger] field_refers(f, r) ==> r < bound
}

/// Whether every type index that a field of `chain` refers to is below `bound`.
pub open spec fn fields_under(chain: Seq<RawField>, bound: int) -> bool {
    forall|r: u32| #[trigger] fields_refer(chain, r) ==> r < bound
}

/// The fields of a field list that a record tries are below any bound of the record's references.
proof fn lemma_chain_under(raw: RawType, stream: RawTypeStream, chain: Seq<RawField>, bound: int)
    requires
        forall|r: u32| #[trigger] fields_refer(chain, r) ==> record_tries(raw, stream, r),
        refs_under(raw, stream, bound),
    ensures
        fields_under(chain, bound),
{
    assert forall|r: u32| #[trigger] fields_refer(chain, r) implies r < bound by {
        assert(record_tries(raw, stream, r));
    }
}

/// A step that adds only indices up to the single type `ty` of field `f` adds
/// only indices below any bound of the field's types.
proof fn lemma_single_ref_bound(f: RawField, ty: u32, a: ParsedPdb, b: ParsedPdb, stream: RawTypeStream)
    requires
        field_refers(f, ty),
        adds_only_below(a, b, stream, ty as int + 1),
    ensures
        forall|bound: int| #[trigger] field_under(f, bound) ==> adds_only_below(a, b, stream, bound),
{
}

/// A type index whose record fails at once is never entered in the TPI map
/// by conversions out of the stream.
proof fn lemma_failing_never_added(a: ParsedPdb, b: ParsedPdb, stream: RawTypeStream, r: u32)
    requires
        added_from(a, b, stream),
        record_fails(stream, r),
        !a.types@.contains_key(r),
    ensures
        !b.types@.contains_key(r),
{
    if b.types@.contains_key(r) {
        assert(tpi_entry_converts(b, stream, r));
    }
}

/// For a field with the single type index `ty`: where its types are settled
/// in `a`, `ty` is settled in `b`; where it has a type that fails at once in
/// `a`, `ty` is that type, still not settled in `b`.
proof fn lemma_single_ref_outcome(f: RawField, ty: u32, a: ParsedPdb, b: ParsedPdb, stream: RawTypeStream)
    requires
        field_refers(f, ty),
        forall|r: u32| #[trigger] field_refers(f, r) ==> r == ty,
        a.extended_by(&b),
        added_from(a, b, stream),
    ensures
        field_settled(f, a, stream) ==> settled(b, stream, ty),
        field_fails_at_once(f, a, stream) ==> !settled(b, stream, ty) && record_fails(stream, ty),
{
    if field_fails_at_once(f, a, stream) {
        let r = choose|r: u32| #[trigger] field_refers(f, r) && !settled(a, stream, r) && record_fails(stream, r);
        lemma_failing_never_added(a, b, stream, r);
    }
}

/// A field's reference is settled or fails at once, where every reference
/// of its list is.
proof fn lemma_field_ref_resolves_at_once(
    fields: Seq<RawField>,
    i: int,
    r: u32,
    p: ParsedPdb,
    q: ParsedPdb,
    stream: RawTypeStream,
)
    requires
        0 <= i < fields.len(),
        field_refers(fields[i], r),
        forall|x: u32|
            #[trigger] fields_refer(fields, x) ==> settled(p, stream, x) || record_fails(stream, x),
        p.extended_by(&q),
    ensures
        settled(q, stream, r) || record_fails(stream, r),
{
    assert(fields_refer(fields, r));
}

/// Whether the record at TPI index `k` converts when the records of `stream`
/// are converted in index order: it is of one of the TPI kinds, every index it
/// needs is a primitive or an earlier record that converts in turn, every
/// index it tries is one of these too or fails at once, and the element type
/// of an array has a size in `p`.
pub open spec fn converts_in_order(p: ParsedPdb, stream: RawTypeStream, k: u32) -> bool
    decreases k,
{
    k >= stream.begin && match stream.spec_record(k) {
        Some(RawRecord::Parsed(raw)) => {
            &&& !raw.is_ipi_kind()
            &&& !(raw is Unknown)
            &&& forall|r: u32|
                #[trigger] record_needs(raw, r) ==> r < stream.begin || (r < k && converts_in_order(
                    p,
                    stream,
                    r,
                ))
            &&& forall|r: u32|
                #[trigger] record_tries(raw, stream, r) ==> r < stream.begin || (r < k
                    && converts_in_order(p, stream, r)) || record_fails(stream, r)
            &&& element_sized(raw, stream, p)
        },
        _ => false,
    }
}

/// Whether the TPI map of `p` holds every record of `stream` that converts in
/// index order (see [`converts_in_order`]).
pub open spec fn holds_converted(p: ParsedPdb, stream: RawTypeStream) -> bool {
    forall|k: u32| #[trigger] converts_in_order(p, stream, k) ==> p.types@.contains_key(k)
}

/// Whether a record converts in order, when the parsed PDB has grown, it did
/// before: provided that every earlier record that converted in order then
/// was already in the TPI map.
proof fn lemma_converts_in_order_back(
    a: ParsedPdb,
    b: ParsedPdb,
    stream: RawTypeStream,
    bound: int,
    k: u32,
)
    requires
        a.wf(),
        a.extended_by(&b),
        forall|j: u32|
            j < bound && #[trigger] converts_in_order(a, stream, j) ==> a.types@.contains_key(j),
        k <= bound,
        converts_in_order(b, stream, k),
    ensures
        converts_in_order(a, stream, k),
    decreases k,
{
    if let Some(RawRecord::Parsed(raw)) = stream.spec_record(k) {
        assert forall|r: u32| #[trigger] record_needs(raw, r) implies r < stream.begin || (r < k
            && converts_in_order(a, stream, r)) by {
            if !(r < stream.begin) {
                lemma_converts_in_order_back(a, b, stream, bound, r);
            }
        }
        assert forall|r: u32| #[trigger] record_tries(raw, stream, r) implies r < stream.begin || (r
            < k && converts_in_order(a, stream, r)) || record_fails(stream, r) by {
            if !(r < stream.begin) && !record_fails(stream, r) {
                lemma_converts_in_order_back(a, b, stream, bound, r);
            }
        }
        if let RawType::Array { element_type, .. } = raw {
            assert(record_needs(raw, element_type));
            if a.types@.contains_key(element_type) {
                lemma_size_kept_by_append(a, b, a.types@[element_type].0 as int);
            } else if element_type >= stream.begin {
                lemma_converts_in_order_back(a, b, stream, bound, element_type);
            }
        }
    }
}

/// A record that converts in order, all earlier such records being in the TPI
/// map, converts from the map without the conversion of another record.
pub proof fn lemma_in_order_converts_from(p: ParsedPdb, stream: RawTypeStream, idx: u32)
    requires
        forall|j: u32|
            j < idx && #[trigger] converts_in_order(p, stream, j) ==> p.types@.contains_key(j),
        converts_in_order(p, stream, idx),
    ensures
        match stream.spec_record(idx) {
            Some(RawRecord::Parsed(raw)) => converts_from(raw, stream, p),
            _ => false,
        },
{
    if let Some(RawRecord::Parsed(raw)) = stream.spec_record(idx) {
        assert forall|r: u32| #[trigger] record_needs(raw, r) implies settled(p, stream, r) by {
            if !(r < stream.begin) {
                assert(converts_in_order(p, stream, r));
            }
        }
        assert forall|r: u32| #[trigger] record_tries(raw, stream, r) implies settled(p, stream, r)
            || record_fails(stream, r) by {
            if !(r < stream.begin) && !record_fails(stream, r) {
                assert(converts_in_order(p, stream, r));
            }
        }
    }
}

/// Once the record at `idx` is converted in order (when it converts in
/// order), the TPI map holds every record up to `idx` that converts in order.
pub proof fn lemma_in_order_step(a: ParsedPdb, b: ParsedPdb, stream: RawTypeStream, idx: u32)
    requires
        a.wf(),
        a.extended_by(&b),
        forall|j: u32|
            j < idx && #[trigger] converts_in_order(a, stream, j) ==> a.types@.contains_key(j),
        converts_in_order(a, stream, idx) ==> b.types@.contains_key(idx),
    ensures
        forall|j: u32|
            j <= idx && #[trigger] converts_in_order(b, stream, j) ==> b.types@.contains_key(j),
{
    assert forall|j: u32| j <= idx && #[trigger] converts_in_order(b, stream, j) implies b.types@.contains_key(
        j,
    ) by {
        lemma_converts_in_order_back(a, b, stream, idx as int, j);
    }
}

/// A TPI map that holds every record converting in order keeps doing so as the
/// parsed PDB grows.
pub proof fn lemma_holds_converted_kept(a: ParsedPdb, b: ParsedPdb, stream: RawTypeStream)
    requires
        a.wf(),
        a.extended_by(&b),
        holds_converted(a, stream),
    ensures
        holds_converted(b, stream),
{
    assert forall|k: u32| #[trigger] converts_in_order(b, stream, k) implies b.types@.contains_key(k) by {
        lemma_converts_in_order_back(a, b, stream, u32::MAX as int + 1, k);
    }
}

/// Whether the conversion of `raw`, a record of one of the IPI kinds, resolves
/// IPI item id `r` (through the IPI map).
pub open spec fn ipi_refers(raw: RawType, r: u32) -> bool {
    match raw {
        RawType::FuncId { scope, .. } => scope != 0 && r == scope,
        RawType::StringId { id, .. } => id != 0 && r == id,
        RawType::SubStrList { ids } => r != 0 && ids@.contains(r),
        RawType::BuildInfo { args } => r != 0 && args@.contains(r),
        _ => false,
    }
}

/// Whether IPI item id `k` resolves through the IPI map of `p` without the
/// conversion of a record: it is below the stream's first index, or already in the map.
pub open spec fn ipi_settled(p: ParsedPdb, stream: RawTypeStream, k: u32) -> bool {
    k < stream.begin || p.ipi_types@.contains_key(k)
}

/// Whether record `raw`, of one of the IPI kinds, converts from `p` without
/// the conversion of another record: every item id it resolves is settled,
/// and the user-defined type of a source line record is in one of the maps.
pub open spec fn ipi_converts_from(raw: RawType, stream: RawTypeStream, p: ParsedPdb) -> bool {
    &&& raw.is_ipi_kind()
    &&& forall|r: u32| #[trigger] ipi_refers(raw, r) ==> ipi_settled(p, stream, r)
    &&& match raw {
        RawType::UdtSrcLine { ty, .. } => lookup_either(p, ty) is Some,
        RawType::UdtModSrcLine { ty, .. } => lookup_either(p, ty) is Some,
        _ => true,
    }
}

/// Whether `b` adds no entry to the IPI map of `a` but primitives (indices
/// below the stream's first one).
pub open spec fn adds_no_ipi_records(a: ParsedPdb, b: ParsedPdb, stream: RawTypeStream) -> bool {
    forall|k: u32| #[trigger] b.ipi_types@.contains_key(k) && !a.ipi_types@.contains_key(k) ==> k
        < stream.begin
}

/// Whether the record at index `k` of IPI stream `stream` converts when the
/// records are converted in index order, after those of TPI stream `tpi`: it
/// is of one of the IPI kinds, every item id it resolves is a primitive or an
/// earlier record that converts in turn, and the user-defined type of a source
/// line record converts in order in `tpi` (see [`converts_in_order`]).
pub open spec fn ipi_converts_in_order(
    p: ParsedPdb,
    tpi: RawTypeStream,
    stream: RawTypeStream,
    k: u32,
) -> bool
    decreases k,
{
    k >= stream.begin && match stream.spec_record(k) {
        Some(RawRecord::Parsed(raw)) => {
            &&& raw.is_ipi_kind()
            &&& forall|r: u32|
                #[trigger] ipi_refers(raw, r) ==> r < stream.begin || (r < k && ipi_converts_in_order(
                    p,
                    tpi,
                    stream,
                    r,
                ))
            &&& match raw {
                RawType::UdtSrcLine { ty, .. } => converts_in_order(p, tpi, ty),
                RawType::UdtModSrcLine { ty, .. } => converts_in_order(p, tpi, ty),
                _ => true,
            }
        },
        _ => false,
    }
}

/// Whether the IPI map of `p` holds every record of IPI stream `stream` below
/// the stream's `end` that converts in order after TPI stream `tpi` (see
/// [`ipi_converts_in_order`]).
pub open spec fn ipi_holds_converted(p: ParsedPdb, tpi: RawTypeStream, stream: RawTypeStream) -> bool {
    forall|k: u32| k < stream.end && #[trigger] ipi_converts_in_order(p, tpi, stream, k) ==> p.ipi_types@.contains_key(k)
}

/// Adding no IPI records in two steps is adding none in one.
proof fn lemma_adds_no_ipi_records_trans(a: ParsedPdb, b: ParsedPdb, c: ParsedPdb, stream: RawTypeStream)
    requires
        a.extended_by(&b),
        adds_no_ipi_records(a, b, stream),
        adds_no_ipi_records(b, c, stream),
    ensures
        adds_no_ipi_records(a, c, stream),
{
    assert forall|k: u32| #[trigger] c.ipi_types@.contains_key(k) && !a.ipi_types@.contains_key(k) implies k
        < stream.begin by {
        if b.ipi_types@.contains_key(k) {
        }
    }
}

/// Whether an IPI record converts in order, when the parsed PDB has grown, it
/// did before, provided that the TPI map then held every TPI record that
/// converts in order.
proof fn lemma_ipi_converts_in_order_back(
    a: ParsedPdb,
    b: ParsedPdb,
    tpi: RawTypeStream,
    stream: RawTypeStream,
    k: u32,
)
    requires
        a.wf(),
        a.extended_by(&b),
        holds_converted(a, tpi),
        ipi_converts_in_order(b, tpi, stream, k),
    ensures
        ipi_converts_in_order(a, tpi, stream, k),
    decreases k,
{
    if let Some(RawRecord::Parsed(raw)) = stream.spec_record(k) {
        assert forall|r: u32| #[trigger] ipi_refers(raw, r) implies r < stream.begin || (r < k
            && ipi_converts_in_order(a, tpi, stream, r)) by {
            if !(r < stream.begin) {
                lemma_ipi_converts_in_order_back(a, b, tpi, stream, r);
            }
        }
        match raw {
            RawType::UdtSrcLine { ty, .. } => {
                lemma_converts_in_order_back(a, b, tpi, u32::MAX as int + 1, ty);
            },
            RawType::UdtModSrcLine { ty, .. } => {
                lemma_converts_in_order_back(a, b, tpi, u32::MAX as int + 1, ty);
            },
            _ => {},
        }
    }
}

/// An IPI record that converts in order, all earlier such records being in the
/// IPI map and every TPI record converting in order in the TPI map, converts
/// from the maps without the conversion of another record.
pub proof fn lemma_ipi_in_order_converts_from(
    p: ParsedPdb,
    tpi: RawTypeStream,
    stream: RawTypeStream,
    idx: u32,
)
    requires
        holds_converted(p, tpi),
        forall|j: u32|
            j < idx && #[trigger] ipi_converts_in_order(p, tpi, stream, j) ==> p.ipi_types@.contains_key(j),
        ipi_converts_in_order(p, tpi, stream, idx),
    ensures
        match stream.spec_record(idx) {
            Some(RawRecord::Parsed(raw)) => ipi_converts_from(raw, stream, p),
            _ => false,
        },
{
    if let Some(RawRecord::Parsed(raw)) = stream.spec_record(idx) {
        assert forall|r: u32| #[trigger] ipi_refers(raw, r) implies ipi_settled(p, stream, r) by {
            if !(r < stream.begin) {
                assert(ipi_converts_in_order(p, tpi, stream, r));
            }
        }
    }
}

/// Once the IPI record at `idx` is converted in order (when it converts in
/// order), the IPI map holds every record up to `idx` that converts in order.
pub proof fn lemma_ipi_in_order_step(
    a: ParsedPdb,
    b: ParsedPdb,
    tpi: RawTypeStream,
    stream: RawTypeStream,
    idx: u32,
)
    requires
        a.wf(),
        a.extended_by(&b),
        holds_converted(a, tpi),
        forall|j: u32|
            j < idx && #[trigger] ipi_converts_in_order(a, tpi, stream, j) ==> a.ipi_types@.contains_key(j),
        ipi_converts_in_order(a, tpi, stream, idx) ==> b.ipi_types@.contains_key(idx),
    ensures
        forall|j: u32|
            j <= idx && #[trigger] ipi_converts_in_order(b, tpi, stream, j) ==> b.ipi_types@.contains_key(j),
{
    assert forall|j: u32| j <= idx && #[trigger] ipi_converts_in_order(b, tpi, stream, j) implies b.ipi_types@.contains_key(
        j,
    ) by {
        lemma_ipi_converts_in_order_back(a, b, tpi, stream, j);
    }
}

/// Whether the TPI map of `p` holds an entry for `k` that kept exactly what
/// its record tried (see [`tries_exact`]).
pub open spec fn entry_exact(p: ParsedPdb, stream: RawTypeStream, k: u32) -> bool {
    &&& p.types@.contains_key(k)
    &&& match stream.spec_record(k) {
        Some(RawRecord::Parsed(raw)) => tries_exact(raw, node_of(p, p.types@[k]), stream, p),
        _ => true,
    }
}

/// Whether every record of `stream` that converts in order has an entry in
/// the TPI map of `p` that kept exactly what it tried: all the fields, the
/// pointer target, the return type and the `this` type whose records do not
/// fail at once.
pub open spec fn holds_exactly(p: ParsedPdb, stream: RawTypeStream) -> bool {
    forall|k: u32| #[trigger] converts_in_order(p, stream, k) ==> entry_exact(p, stream, k)
}

proof fn lemma_entry_exact_mono(a: ParsedPdb, b: ParsedPdb, stream: RawTypeStream, k: u32)
    requires
        a.wf(),
        a.extended_by(&b),
        entry_exact(a, stream, k),
    ensures
        entry_exact(b, stream, k),
{
    assert(node_of(b, b.types@[k]) == node_of(a, a.types@[k]));
    if let Some(RawRecord::Parsed(raw)) = stream.spec_record(k) {
        lemma_tries_exact_mono(raw, node_of(a, a.types@[k]), stream, a, b);
    }
}

/// Once the record at `idx` is converted in order (exactly, when it converts
/// in order), every record up to `idx` that converts in order has an exact entry.
pub proof fn lemma_exact_step(a: ParsedPdb, b: ParsedPdb, stream: RawTypeStream, idx: u32)
    requires
        a.wf(),
        a.extended_by(&b),
        forall|j: u32|
            j < idx && #[trigger] converts_in_order(a, stream, j) ==> entry_exact(a, stream, j),
        converts_in_order(a, stream, idx) ==> entry_exact(b, stream, idx),
    ensures
        forall|j: u32| j <= idx && #[trigger] converts_in_order(b, stream, j) ==> entry_exact(b, stream, j),
{
    assert forall|j: u32| j <= idx && #[trigger] converts_in_order(b, stream, j) implies entry_exact(b, stream, j) by {
        lemma_converts_in_order_back(a, b, stream, idx as int, j);
        if j < idx {
            lemma_entry_exact_mono(a, b, stream, j);
        }
    }
}

/// Exact entries of every record converting in order stay so as the parsed PDB grows.
pub proof fn lemma_holds_exactly_kept(a: ParsedPdb, b: ParsedPdb, stream: RawTypeStream)
    requires
        a.wf(),
        a.extended_by(&b),
        holds_converted(a, stream),
        holds_exactly(a, stream),
    ensures
        holds_exactly(b, stream),
{
    assert forall|k: u32| #[trigger] converts_in_order(b, stream, k) implies entry_exact(b, stream, k) by {
        lemma_converts_in_order_back(a, b, stream, u32::MAX as int + 1, k);
        lemma_entry_exact_mono(a, b, stream, k);
    }
}

/// Entries that come from `stream` stay so as conversions out of `stream` add more.
pub proof fn lemma_entries_of_kept(a: ParsedPdb, b: ParsedPdb, stream: RawTypeStream)
    requires
        a.wf(),
        a.extended_by(&b),
        entries_of(a, stream),
        added_from(a, b, stream),
    ensures
        entries_of(b, stream),
{
    assert forall|k: u32| #[trigger] b.types@.contains_key(k) implies tpi_entry_converts(b, stream, k) by {
        if a.types@.contains_key(k) {
            lemma_tpi_entry_mono(a, b, stream, k);
        }
    }
}

// ---------------------------------------------------------------------------
// The arena and the maps
// ---------------------------------------------------------------------------

/// The TPI map's entry for `idx`, if any.
pub fn lookup_tpi_type(idx: u32, pdb: &ParsedPdb) -> (r: Option<TypeRef>)
    ensures
        r == (if pdb.types@.contains_key(idx) {
            Some(pdb.types@[idx])
        } else {
            None
        }),
{
    match pdb.types.get(&idx) {
        Some(r) => Some(*r),
        None => None,
    }
}

/// The IPI map's entry for `idx`, if any.
pub fn lookup_ipi_type(idx: u32, pdb: &ParsedPdb) -> (r: Option<TypeRef>)
    ensures
        r == (if pdb.ipi_types@.contains_key(idx) {
            Some(pdb.ipi_types@[idx])
        } else {
            None
        }),
{
    match pdb.ipi_types.get(&idx) {
        Some(r) => Some(*r),
        None => None,
    }
}

/// The entry of either map for `idx` (see [`lookup_either`]).
fn lookup_either_type(idx: u32, pdb: &ParsedPdb) -> (r: Option<TypeRef>)
    ensures
        r == lookup_either(*pdb, idx),
{
    match lookup_tpi_type(idx, pdb) {
        Some(t) => Some(t),
        None => lookup_ipi_type(idx, pdb),
    }
}

/// Adds a node to the arena.
fn push_node(pdb: &mut ParsedPdb, t: Type) -> (r: TypeRef)
    requires
        old(pdb).wf(),
        t.refs_below(old(pdb).nodes@.len() as int),
    ensures
        final(pdb).wf(),
        old(pdb).extended_by(&*final(pdb)),
        r.0 == old(pdb).nodes@.len(),
        final(pdb).nodes@ == old(pdb).nodes@.push(t),
        final(pdb).types@ == old(pdb).types@,
        final(pdb).ipi_types@ == old(pdb).ipi_types@,
{
    let r = TypeRef(pdb.nodes.len());
    pdb.nodes.push(t);
    r
}

/// Adds an entry to the TPI map.
pub fn insert_tpi_type(idx: u32, typ: TypeRef, pdb: &mut ParsedPdb)
    requires
        old(pdb).wf(),
        typ.0 < old(pdb).nodes@.len(),
        !old(pdb).types@.contains_key(idx),
    ensures
        final(pdb).wf(),
        old(pdb).extended_by(&*final(pdb)),
        final(pdb).types@ == old(pdb).types@.insert(idx, typ),
        final(pdb).nodes@ == old(pdb).nodes@,
        final(pdb).ipi_types@ == old(pdb).ipi_types@,
        final(pdb).type_order@ == old(pdb).type_order@.push(idx),
{
    pdb.types.insert(idx, typ);
    pdb.type_order.push(idx);
    proof {
        assert forall|k: u32| #[trigger] pdb.types@.contains_key(k) implies pdb.type_order@.contains(k) by {
            if k == idx {
                assert(pdb.type_order@[pdb.type_order@.len() - 1] == idx);
            } else {
                let j = choose|j: int| 0 <= j < old(pdb).type_order@.len() && old(pdb).type_order@[j] == k;
                assert(pdb.type_order@[j] == k);
            }
        }
    }
}

/// Adds an entry to the IPI map.
pub fn insert_ipi_type(idx: u32, typ: TypeRef, pdb: &mut ParsedPdb)
    requires
        old(pdb).wf(),
        typ.0 < old(pdb).nodes@.len(),
        !old(pdb).ipi_types@.contains_key(idx),
    ensures
        final(pdb).wf(),
        old(pdb).extended_by(&*final(pdb)),
        final(pdb).ipi_types@ == old(pdb).ipi_types@.insert(idx, typ),
        final(pdb).nodes@ == old(pdb).nodes@,
        final(pdb).types@ == old(pdb).types@,
{
    pdb.ipi_types.insert(idx, typ);
}


proof fn lemma_ipi_record_converts_mono(raw: RawType, t: Type, before: ParsedPdb, a: ParsedPdb, b: ParsedPdb)
    requires
        a.extended_by(&b),
        ipi_record_converts(raw, t, before, a),
    ensures
        ipi_record_converts(raw, t, before, b),
{
}

// ---------------------------------------------------------------------------
// Small helpers
// ---------------------------------------------------------------------------

fn num_to_usize(v: Option<u64>) -> (r: usize)
    ensures
        r == num_usize(v),
{
    match v {
        Some(x) => x as usize,
        None => 0,
    }
}

fn clone_text(s: &Option<String>) -> (r: Option<String>)
    ensures
        opt_text(r) == opt_text(*s),
{
    match s {
        Some(t) => Some(t.clone()),
        None => None,
    }
}

fn copy_refs(v: &Vec<TypeRef>) -> (r: Vec<TypeRef>)
    ensures
        r@ == v@,
{
    let mut r: Vec<TypeRef> = Vec::new();
    let mut i: usize = 0;
    while i < v.len()
        invariant
            0 <= i <= v@.len(),
            r@ == v@.subrange(0, i as int),
        decreases v@.len() - i,
    {
        r.push(v[i]);
        i = i + 1;
        assert(r@ =~= v@.subrange(0, i as int));
    }
    assert(v@.subrange(0, v@.len() as int) =~= v@);
    r
}

fn copy_bytes(v: &Vec<u8>) -> (r: Vec<u8>)
    ensures
        r@ == v@,
{
    let mut r: Vec<u8> = Vec::new();
    let mut i: usize = 0;
    while i < v.len()
        invariant
            0 <= i <= v@.len(),
            r@ == v@.subrange(0, i as int),
        decreases v@.len() - i,
    {
        r.push(v[i]);
        i = i + 1;
        assert(r@ =~= v@.subrange(0, i as int));
    }
    assert(v@.subrange(0, v@.len() as int) =~= v@);
    r
}

/// The kind given to a class record (see [`spec_class_kind`]).
fn class_kind(name: &String, p: &TypeProperties) -> (k: ClassKind)
    ensures
        k == spec_class_kind(name@, *p),
{
    proof {
        reveal_strlit("I");
    }
    let interface = starts_with(name.as_str(), "I");
    proof {
        if name@.len() > 0 && name@[0] == 'I' {
            assert(name@.subrange(0, 1) =~= "I"@);
        }
        if interface {
            assert(name@.subrange(0, 1)[0] == name@[0]);
        }
    }
    if interface && p.contains_nested_types {
        ClassKind::Interface
    } else if p.constructors || p.overlapped_operators || p.overload_assignment {
        ClassKind::Class
    } else {
        ClassKind::Struct
    }
}

/// The error of records that refer to each other in a cycle.
fn cycle_error() -> (e: Error)
    ensures
        e matches Error::UnhandledType(s) && s@ == "type records refer to each other in a cycle"@,
{
    Error::UnhandledType(text("type records refer to each other in a cycle"))
}

// ---------------------------------------------------------------------------
// Conversion
// ---------------------------------------------------------------------------

/// Converts a TPI type index to a node, through the TPI map: an index already
/// in the map gives its entry; a primitive index (below the stream's first
/// record) gives a new primitive node; any other index gives the conversion of
/// its record, which is then entered in the map. Indices that the stream has no
/// decodable record for, records of IPI kinds and unknown records are errors,
/// as are records that (through `fuel` levels of references) refer back to themselves.
/// A record whose references all resolve without another conversion (see
/// [`converts_from`]) converts.
pub fn handle_type(idx: u32, pdb: &mut ParsedPdb, stream: &RawTypeStream, fuel: usize) -> (r: Result<
    TypeRef,
    Error,
>)
    requires
        old(pdb).wf(),
    ensures
        final(pdb).wf(),
        old(pdb).extended_by(&*final(pdb)),
        added_from(*old(pdb), *final(pdb), *stream),
        final(pdb).ipi_types@ == old(pdb).ipi_types@,
        r matches Ok(t) ==> maps_to(final(pdb).types@, idx, t),
        settled(*old(pdb), *stream, idx) ==> r is Ok && adds_no_records(*old(pdb), *final(pdb), *stream),
        refs_backward(*stream) ==> adds_only_below(*old(pdb), *final(pdb), *stream, idx as int + 1),
        !settled(*old(pdb), *stream, idx) && record_fails(*stream, idx) ==> r is Err && *final(pdb)
            == *old(pdb),
        !settled(*old(pdb), *stream, idx) && fuel > 0 && match stream.spec_record(idx) {
            Some(RawRecord::Parsed(raw)) => converts_from(raw, *stream, *old(pdb)),
            _ => false,
        } ==> r is Ok,
        old(pdb).types@.contains_key(idx) ==> r == Ok::<TypeRef, Error>(old(pdb).types@[idx])
            && *final(pdb) == *old(pdb),
        (!old(pdb).types@.contains_key(idx) && idx < stream.begin) ==> (r is Ok && node_of(
            *final(pdb),
            r->Ok_0,
        ) == Type::Primitive(spec_decode_primitive_type(idx))),
        !old(pdb).types@.contains_key(idx) && !(idx < stream.begin) ==> match stream.spec_record(
            idx,
        ) {
            Some(RawRecord::Parsed(raw)) => {
                &&& (raw.is_ipi_kind() || raw is Unknown) ==> r is Err
                &&& r matches Ok(t) ==> record_converts(raw, node_of(*final(pdb), t), *stream, *final(pdb))
                &&& r matches Ok(t) ==> tries_from(raw, node_of(*final(pdb), t), *stream, *old(pdb), *final(pdb))
            },
            _ => r is Err,
        },
    decreases fuel, 6int,
{
    if let Some(t) = lookup_tpi_type(idx, pdb) {
        return Ok(t);
    }
    if idx < stream.begin {
        let primitive = decode_primitive_type(idx);
        let t = push_node(pdb, Type::Primitive(primitive));
        insert_tpi_type(idx, t, pdb);
        assert(tpi_entry_converts(*pdb, *stream, idx));
        return Ok(t);
    }
    let raw = match stream.record(idx) {
        Some(RawRecord::Parsed(raw)) => raw,
        _ => {
            return Err(Error::PdbCrateError("no decodable type record for the index".to_string()));
        },
    };
    if fuel == 0 {
        return Err(cycle_error());
    }
    let t = handle_type_data(raw, pdb, stream, fuel)?;
    if lookup_tpi_type(idx, pdb).is_some() {
        return Err(cycle_error());
    }
    let ghost mid = *pdb;
    insert_tpi_type(idx, t, pdb);
    proof {
        lemma_tries_from_move(*raw, node_of(mid, t), *old(pdb), *old(pdb), mid, *pdb, *stream);
        lemma_record_converts_mono(*raw, node_of(mid, t), *stream, mid, *pdb);
        assert(tpi_entry_converts(*pdb, *stream, idx));
        assert(added_from(mid, *pdb, *stream));
        lemma_added_trans(*old(pdb), mid, *pdb, *stream);
    }
    Ok(t)
}

/// Converts an IPI type index to a node, through the IPI map, as
/// [`handle_type`] does through the TPI map. Records of TPI kinds are converted
/// as [`handle_type_data`] converts them; unknown records are errors. A record
/// of an IPI kind whose references all resolve without another conversion (see
/// [`ipi_converts_from`]) converts.
pub fn handle_ipi_type(idx: u32, pdb: &mut ParsedPdb, stream: &RawTypeStream, fuel: usize) -> (r:
    Result<TypeRef, Error>)
    requires
        old(pdb).wf(),
    ensures
        final(pdb).wf(),
        old(pdb).extended_by(&*final(pdb)),
        added_from(*old(pdb), *final(pdb), *stream),
        r matches Ok(t) ==> maps_to(final(pdb).ipi_types@, idx, t),
        ipi_settled(*old(pdb), *stream, idx) ==> r is Ok && adds_no_ipi_records(
            *old(pdb),
            *final(pdb),
            *stream,
        ),
        !ipi_settled(*old(pdb), *stream, idx) && fuel > 0 && match stream.spec_record(idx) {
            Some(RawRecord::Parsed(raw)) => ipi_converts_from(raw, *stream, *old(pdb)),
            _ => false,
        } ==> r is Ok,
        old(pdb).ipi_types@.contains_key(idx) ==> r == Ok::<TypeRef, Error>(
            old(pdb).ipi_types@[idx],
        ) && *final(pdb) == *old(pdb),
        (!old(pdb).ipi_types@.contains_key(idx) && idx < stream.begin) ==> (r is Ok && node_of(
            *final(pdb),
            r->Ok_0,
        ) == Type::Primitive(spec_decode_primitive_type(idx))),
        !old(pdb).ipi_types@.contains_key(idx) && !(idx < stream.begin) ==> match stream.spec_record(
            idx,
        ) {
            Some(RawRecord::Parsed(raw)) => {
                &&& raw is Unknown ==> r is Err
                &&& r matches Ok(t) ==> if raw.is_ipi_kind() {
                    ipi_record_converts(raw, node_of(*final(pdb), t), *old(pdb), *final(pdb))
                } else {
                    record_converts(raw, node_of(*final(pdb), t), *stream, *final(pdb))
                }
            },
            _ => r is Err,
        },
    decreases fuel, 6int,
{
    if let Some(t) = lookup_ipi_type(idx, pdb) {
        return Ok(t);
    }
    if idx < stream.begin {
        let primitive = decode_primitive_type(idx);
        let t = push_node(pdb, Type::Primitive(primitive));
        insert_ipi_type(idx, t, pdb);
        assert(ipi_entry_converts(*pdb, *stream, idx));
        return Ok(t);
    }
    let raw = match stream.record(idx) {
        Some(RawRecord::Parsed(raw)) => raw,
        _ => {
            return Err(Error::PdbCrateError("no decodable IPI record for the index".to_string()));
        },
    };
    if fuel == 0 {
        return Err(cycle_error());
    }
    let t = handle_ipi_type_data(raw, pdb, stream, fuel)?;
    if lookup_ipi_type(idx, pdb).is_some() {
        return Err(cycle_error());
    }
    let ghost mid = *pdb;
    insert_ipi_type(idx, t, pdb);
    proof {
        if raw.is_ipi_kind() {
            lemma_ipi_record_converts_mono(*raw, node_of(mid, t), *old(pdb), mid, *pdb);
            assert(ipi_record_converts(*raw, node_of(*pdb, t), *old(pdb), *pdb));
        } else {
            lemma_record_converts_mono(*raw, node_of(mid, t), *stream, mid, *pdb);
        }
        assert(ipi_entry_converts(*pdb, *stream, idx));
        assert(added_from(mid, *pdb, *stream));
        lemma_added_trans(*old(pdb), mid, *pdb, *stream);
    }
    Ok(t)
}

/// Converts a record of the TPI stream to a new node. Records of IPI kinds
/// and unknown records are errors.
pub fn handle_type_data(raw: &RawType, pdb: &mut ParsedPdb, stream: &RawTypeStream, fuel: usize) -> (r:
    Result<TypeRef, Error>)
    requires
        old(pdb).wf(),
        fuel > 0,
    ensures
        final(pdb).wf(),
        old(pdb).extended_by(&*final(pdb)),
        added_from(*old(pdb), *final(pdb), *stream),
        final(pdb).ipi_types@ == old(pdb).ipi_types@,
        raw.is_ipi_kind() ==> (r matches Err(Error::UnhandledType(m)) && m@
            == "IPI type found in TPI stream - this should not happen!"@) && *final(pdb) == *old(pdb),
        *raw is Unknown ==> (r matches Err(Error::UnhandledType(m)) && m@ == "Unknown type variant"@)
            && *final(pdb) == *old(pdb),
        converts_from(*raw, *stream, *old(pdb)) ==> r is Ok && adds_no_records(
            *old(pdb),
            *final(pdb),
            *stream,
        ),
        r matches Ok(t) ==> t.0 < final(pdb).nodes@.len() && record_converts(
            *raw,
            node_of(*final(pdb), t),
            *stream,
            *final(pdb),
        ),
        r matches Ok(t) ==> tries_from(*raw, node_of(*final(pdb), t), *stream, *old(pdb), *final(pdb)),
        refs_backward(*stream) ==> forall|bound: int|
            #[trigger] refs_under(*raw, *stream, bound) ==> adds_only_below(*old(pdb), *final(pdb), *stream, bound),
    decreases fuel, 5int,
{
    match raw {
        RawType::UdtSrcLine { .. } | RawType::UdtModSrcLine { .. } | RawType::FuncId { .. }
        | RawType::MFuncId { .. } | RawType::StringId { .. } | RawType::SubStrList { .. }
        | RawType::BuildInfo { .. } => {
            return Err(
                Error::UnhandledType(text("IPI type found in TPI stream - this should not happen!")),
            );
        },
        RawType::Unknown => {
            return Err(Error::UnhandledType(text("Unknown type variant")));
        },
        _ => {},
    }
    let t = convert_tpi_kind(raw, pdb, stream, fuel)?;
    let ghost mid = *pdb;
    let r = push_node(pdb, t);
    proof {
        lemma_tries_from_move(*raw, t, *old(pdb), *old(pdb), mid, *pdb, *stream);
        lemma_record_converts_mono(*raw, t, *stream, mid, *pdb);
        lemma_added_trans(*old(pdb), mid, *pdb, *stream);
    }
    Ok(r)
}

/// Converts a record of the IPI stream to a new node: records of IPI kinds as
/// IPI items, records of TPI kinds as [`handle_type_data`] converts them.
/// Unknown records are errors.
pub fn handle_ipi_type_data(raw: &RawType, pdb: &mut ParsedPdb, stream: &RawTypeStream, fuel: usize) -> (r:
    Result<TypeRef, Error>)
    requires
        old(pdb).wf(),
        fuel > 0,
    ensures
        final(pdb).wf(),
        old(pdb).extended_by(&*final(pdb)),
        added_from(*old(pdb), *final(pdb), *stream),
        *raw is Unknown ==> (r matches Err(Error::UnhandledType(m)) && m@ == "Unknown type variant"@)
            && *final(pdb) == *old(pdb),
        ipi_converts_from(*raw, *stream, *old(pdb)) ==> r is Ok && adds_no_ipi_records(
            *old(pdb),
            *final(pdb),
            *stream,
        ),
        r matches Ok(t) ==> t.0 < final(pdb).nodes@.len() && if raw.is_ipi_kind() {
            ipi_record_converts(*raw, node_of(*final(pdb), t), *old(pdb), *final(pdb))
        } else {
            record_converts(*raw, node_of(*final(pdb), t), *stream, *final(pdb))
        },
    decreases fuel, 5int,
{
    if let RawType::Unknown = raw {
        return Err(Error::UnhandledType(text("Unknown type variant")));
    }
    let ghost start = *pdb;
    let ipi_kind = match raw {
        RawType::UdtSrcLine { .. } | RawType::UdtModSrcLine { .. } | RawType::FuncId { .. }
        | RawType::MFuncId { .. } | RawType::StringId { .. } | RawType::SubStrList { .. }
        | RawType::BuildInfo { .. } => true,
        _ => false,
    };
    let t = if ipi_kind {
        convert_ipi_kind(raw, pdb, stream, fuel)?
    } else {
        convert_tpi_kind(raw, pdb, stream, fuel)?
    };
    let ghost mid = *pdb;
    let r = push_node(pdb, t);
    proof {
        if ipi_kind {
            lemma_ipi_record_converts_mono(*raw, t, start, mid, *pdb);
        } else {
            lemma_record_converts_mono(*raw, t, *stream, mid, *pdb);
        }
        lemma_added_trans(start, mid, *pdb, *stream);
    }
    Ok(r)
}


/// Converts the fields of a field list chain: members, static members, base
/// classes, virtual base classes, nested types and virtual function table
/// pointers whose types resolve (through [`handle_type`]), and enumerators with
/// a representable value, each to a new node, in order; the other fields, and
/// those whose types do not resolve, are left out.
fn convert_fields(fields: &Vec<RawField>, pdb: &mut ParsedPdb, stream: &RawTypeStream, fuel: usize) -> (out:
    Vec<TypeRef>)
    requires
        old(pdb).wf(),
        fuel > 0,
    ensures
        final(pdb).wf(),
        old(pdb).extended_by(&*final(pdb)),
        added_from(*old(pdb), *final(pdb), *stream),
        final(pdb).ipi_types@ == old(pdb).ipi_types@,
        fields_convert(fields@, out@, *final(pdb)),
        fields_convert_from(fields@, out@, *old(pdb), *final(pdb), *stream),
        refs_backward(*stream) ==> forall|bound: int|
            #[trigger] fields_under(fields@, bound) ==> adds_only_below(*old(pdb), *final(pdb), *stream, bound),
        forall|i: int| 0 <= i < out@.len() ==> (#[trigger] out@[i]).0 < final(pdb).nodes@.len(),
        (forall|r: u32|
            #[trigger] fields_refer(fields@, r) ==> settled(*old(pdb), *stream, r) || record_fails(
                *stream,
                r,
            )) ==> adds_no_records(*old(pdb), *final(pdb), *stream),
    decreases fuel, 1int,
{
    let ghost all_settled = forall|r: u32|
        #[trigger] fields_refer(fields@, r) ==> settled(*old(pdb), *stream, r) || record_fails(
            *stream,
            r,
        );
    let mut out: Vec<TypeRef> = Vec::new();
    let ghost mut picks: Seq<int> = Seq::empty();
    let mut i: usize = 0;
    while i < fields.len()
        invariant
            pdb.wf(),
            old(pdb).extended_by(&*pdb),
            added_from(*old(pdb), *pdb, *stream),
            pdb.ipi_types@ == old(pdb).ipi_types@,
            fuel > 0,
            0 <= i <= fields@.len(),
            picks_upto(fields@, out@, picks, *pdb, i as int),
            picks_from(fields@, picks, *old(pdb), *stream, i as int),
            all_settled == (forall|r: u32|
                #[trigger] fields_refer(fields@, r) ==> settled(*old(pdb), *stream, r)
                    || record_fails(*stream, r)),
            all_settled ==> adds_no_records(*old(pdb), *pdb, *stream),
            refs_backward(*stream) ==> forall|bound: int|
                #[trigger] fields_under(fields@, bound) ==> adds_only_below(*old(pdb), *pdb, *stream, bound),
        decreases fields@.len() - i,
    {
        let ghost before = *pdb;
        let ghost before_out = out@;
        let mut added: Option<Type> = None;
        match &fields[i] {
            RawField::Member { ty, name, offset } => {
                proof {
                    if all_settled {
                        lemma_field_ref_resolves_at_once(fields@, i as int, *ty, *old(pdb), *pdb, *stream);
                    }
                    lemma_single_ref_outcome(fields@[i as int], *ty, *old(pdb), *pdb, *stream);
                }
                if let Ok(t) = handle_type(*ty, pdb, stream, fuel - 1) {
                    added = Some(
                        Type::Member(
                            Member {
                                name: name.clone(),
                                underlying_type: t,
                                offset: num_to_usize(*offset),
                            },
                        ),
                    );
                }
                proof {
                    if refs_backward(*stream) {
                        lemma_single_ref_bound(fields@[i as int], *ty, before, *pdb, *stream);
                    }
                }
            },
            RawField::StaticMember { ty, name } => {
                proof {
                    if all_settled {
                        lemma_field_ref_resolves_at_once(fields@, i as int, *ty, *old(pdb), *pdb, *stream);
                    }
                    lemma_single_ref_outcome(fields@[i as int], *ty, *old(pdb), *pdb, *stream);
                }
                if let Ok(t) = handle_type(*ty, pdb, stream, fuel - 1) {
                    added = Some(Type::StaticMember(StaticMember { name: name.clone(), field_type: t }));
                }
                proof {
                    if refs_backward(*stream) {
                        lemma_single_ref_bound(fields@[i as int], *ty, before, *pdb, *stream);
                    }
                }
            },
            RawField::BaseClass { ty, offset } => {
                proof {
                    if all_settled {
                        lemma_field_ref_resolves_at_once(fields@, i as int, *ty, *old(pdb), *pdb, *stream);
                    }
                    lemma_single_ref_outcome(fields@[i as int], *ty, *old(pdb), *pdb, *stream);
                }
                if let Ok(t) = handle_type(*ty, pdb, stream, fuel - 1) {
                    let kind = match &pdb.nodes[t.0] {
                        Type::Class(c) => c.kind,
                        _ => ClassKind::Struct,
                    };
                    added = Some(
                        Type::BaseClass(
                            BaseClass { kind, base_class: t, offset: num_to_usize(*offset) },
                        ),
                    );
                }
                proof {
                    if refs_backward(*stream) {
                        lemma_single_ref_bound(fields@[i as int], *ty, before, *pdb, *stream);
                    }
                }
            },
            RawField::VirtualBaseClass { direct, btype, vbtype, vbpoff, vboff } => {
                proof {
                    if all_settled {
                        lemma_field_ref_resolves_at_once(fields@, i as int, *btype, *old(pdb), *pdb, *stream);
                    }
                }
                proof {
                    if field_fails_at_once(fields@[i as int], *old(pdb), *stream) {
                        let r = choose|r: u32|
                            #[trigger] field_refers(fields@[i as int], r) && !settled(*old(pdb), *stream, r)
                                && record_fails(*stream, r);
                        lemma_failing_never_added(*old(pdb), *pdb, *stream, r);
                    }
                }
                let base = handle_type(*btype, pdb, stream, fuel - 1);
                let ghost mid_base = *pdb;
                proof {
                    lemma_added_trans(*old(pdb), before, mid_base, *stream);
                    if field_fails_at_once(fields@[i as int], *old(pdb), *stream) {
                        let r = choose|r: u32|
                            #[trigger] field_refers(fields@[i as int], r) && !settled(*old(pdb), *stream, r)
                                && record_fails(*stream, r);
                        lemma_failing_never_added(*old(pdb), mid_base, *stream, r);
                    }
                    if field_settled(fields@[i as int], *old(pdb), *stream) {
                        assert(field_refers(fields@[i as int], *btype));
                        assert(field_refers(fields@[i as int], *vbtype));
                    }
                }
                proof {
                    if all_settled {
                        lemma_field_ref_resolves_at_once(fields@, i as int, *vbtype, *old(pdb), *pdb, *stream);
                    }
                }
                let pointer = handle_type(*vbtype, pdb, stream, fuel - 1);
                proof {
                    if refs_backward(*stream) {
                        assert forall|bound: int| #[trigger] field_under(fields@[i as int], bound) implies adds_only_below(
                            before,
                            *pdb,
                            *stream,
                            bound,
                        ) by {
                            assert(field_refers(fields@[i as int], *btype));
                            assert(field_refers(fields@[i as int], *vbtype));
                            lemma_adds_only_below_trans(before, mid_base, *pdb, *stream, bound);
                        }
                    }
                    lemma_added_trans(before, mid_base, *pdb, *stream);
                    if all_settled {
                        lemma_adds_no_records_trans(before, mid_base, *pdb, *stream);
                    }
                }
                if let (Ok(b), Ok(p)) = (base, pointer) {
                    added = Some(
                        Type::VirtualBaseClass(
                            VirtualBaseClass {
                                direct: *direct,
                                base_class: b,
                                base_pointer: p,
                                base_pointer_offset: num_to_usize(*vbpoff),
                                virtual_base_offset: num_to_usize(*vboff),
                            },
                        ),
                    );
                }
            },
            RawField::NestedType { nested_ty, name } => {
                proof {
                    if all_settled {
                        lemma_field_ref_resolves_at_once(fields@, i as int, *nested_ty, *old(pdb), *pdb, *stream);
                    }
                    lemma_single_ref_outcome(fields@[i as int], *nested_ty, *old(pdb), *pdb, *stream);
                }
                if let Ok(t) = handle_type(*nested_ty, pdb, stream, fuel - 1) {
                    added = Some(Type::Nested(Nested { name: name.clone(), nested_type: t }));
                }
                proof {
                    if refs_backward(*stream) {
                        lemma_single_ref_bound(fields@[i as int], *nested_ty, before, *pdb, *stream);
                    }
                }
            },
            RawField::Enumerate { name, as_unsigned, as_signed } => {
                if let Some(value) = VariantValue::from_number(*as_unsigned, *as_signed) {
                    added = Some(Type::EnumVariant(EnumVariant { name: name.clone(), value }));
                }
            },
            RawField::VFuncTable { ty } => {
                proof {
                    if all_settled {
                        lemma_field_ref_resolves_at_once(fields@, i as int, *ty, *old(pdb), *pdb, *stream);
                    }
                    lemma_single_ref_outcome(fields@[i as int], *ty, *old(pdb), *pdb, *stream);
                }
                if let Ok(t) = handle_type(*ty, pdb, stream, fuel - 1) {
                    added = Some(Type::VTable(VTable(t)));
                }
                proof {
                    if refs_backward(*stream) {
                        lemma_single_ref_bound(fields@[i as int], *ty, before, *pdb, *stream);
                    }
                }
            },
            _ => {},
        }
        let ghost mid = *pdb;
        proof {
            lemma_picks_mono(fields@, out@, picks, before, mid, i as int);
        }
        assert(field_typed(fields@[i as int]) && field_settled(fields@[i as int], *old(pdb), *stream)
            ==> added is Some);
        assert(field_fails_at_once(fields@[i as int], *old(pdb), *stream) ==> added is None);
        assert(refs_backward(*stream) ==> forall|bound: int|
            #[trigger] field_under(fields@[i as int], bound) ==> adds_only_below(before, mid, *stream, bound));
        if let Some(node) = added {
            assert(field_converts(fields@[i as int], node, mid));
            let r = push_node(pdb, node);
            out.push(r);
            proof {
                lemma_picks_mono(fields@, before_out, picks, mid, *pdb, i as int);
                lemma_field_converts_mono(fields@[i as int], node, mid, *pdb);
                let old_picks = picks;
                lemma_picks_from_step(fields@, picks, *old(pdb), *stream, i as int, true);
                picks = picks.push(i as int);
                assert(out@ == before_out.push(r));
                assert(picks.contains(i as int)) by {
                    assert(picks[picks.len() - 1] == i as int);
                }
                assert forall|j: int|
                    0 <= j < (i + 1) as int && field_always_converts(
                        #[trigger] fields@[j],
                    ) implies picks.contains(j) by {
                    if j < i as int {
                        assert(old_picks.contains(j));
                        let k = choose|k: int| 0 <= k < old_picks.len() && old_picks[k] == j;
                        assert(picks[k] == j);
                    }
                }
                assert forall|a: int| 0 <= a < out@.len() implies (#[trigger] out@[a]).0
                    < pdb.nodes@.len() && field_converts(
                    fields@[picks[a]],
                    node_of(*pdb, out@[a]),
                    *pdb,
                ) by {
                    if a < out@.len() - 1 {
                        assert(out@[a] == before_out[a]);
                        assert(picks[a] == picks.drop_last()[a]);
                    }
                }
            }
        } else {
            proof {
                lemma_picks_from_step(fields@, picks, *old(pdb), *stream, i as int, false);
                assert(!field_always_converts(fields@[i as int]));
                assert forall|j: int|
                    0 <= j < (i + 1) as int && field_always_converts(
                        #[trigger] fields@[j],
                    ) implies picks.contains(j) by {}
            }
        }
        proof {
            lemma_added_trans(before, mid, *pdb, *stream);
            lemma_added_trans(*old(pdb), before, *pdb, *stream);
            if all_settled {
                assert(adds_no_records(before, mid, *stream));
                lemma_adds_no_records_trans(before, mid, *pdb, *stream);
                lemma_adds_no_records_trans(*old(pdb), before, *pdb, *stream);
            }
            if refs_backward(*stream) {
                assert forall|bound: int| #[trigger] fields_under(fields@, bound) implies adds_only_below(
                    *old(pdb),
                    *pdb,
                    *stream,
                    bound,
                ) by {
                    assert forall|r: u32| #[trigger] field_refers(fields@[i as int], r) implies r < bound by {
                        assert(fields_refer(fields@, r));
                    }
                    assert(field_under(fields@[i as int], bound));
                    lemma_adds_only_below_trans(before, mid, *pdb, *stream, bound);
                    lemma_adds_only_below_trans(*old(pdb), before, *pdb, *stream, bound);
                }
            }
        }
        i = i + 1;
    }
    proof {
        assert(picks_convert(fields@, out@, picks, *pdb));
        assert(picks_from(fields@, picks, *old(pdb), *stream, fields@.len() as int));
    }
    out
}

/// The fields of the field list chain at `idx` in `stream`, converted (see
/// [`convert_fields`]); none where `idx` is 0.
fn convert_field_list(idx: u32, pdb: &mut ParsedPdb, stream: &RawTypeStream, fuel: usize) -> (out: Vec<
    TypeRef,
>)
    requires
        old(pdb).wf(),
        fuel > 0,
    ensures
        final(pdb).wf(),
        old(pdb).extended_by(&*final(pdb)),
        added_from(*old(pdb), *final(pdb), *stream),
        final(pdb).ipi_types@ == old(pdb).ipi_types@,
        fields_convert(stream.spec_field_chain(idx), out@, *final(pdb)),
        fields_convert_from(stream.spec_field_chain(idx), out@, *old(pdb), *final(pdb), *stream),
        refs_backward(*stream) ==> forall|bound: int|
            #[trigger] fields_under(stream.spec_field_chain(idx), bound) ==> adds_only_below(
                *old(pdb),
                *final(pdb),
                *stream,
                bound,
            ),
        forall|i: int| 0 <= i < out@.len() ==> (#[trigger] out@[i]).0 < final(pdb).nodes@.len(),
        (forall|r: u32|
            #[trigger] fields_refer(stream.spec_field_chain(idx), r) ==> settled(*old(pdb), *stream, r)
                || record_fails(*stream, r)) ==> adds_no_records(*old(pdb), *final(pdb), *stream),
    decreases fuel, 2int,
{
    match stream.record(idx) {
        Some(RawRecord::Parsed(RawType::FieldList { fields })) => convert_fields(fields, pdb, stream, fuel),
        _ => {
            let out: Vec<TypeRef> = Vec::new();
            assert(picks_convert(stream.spec_field_chain(idx), out@, Seq::empty(), *pdb));
            assert(picks_from(stream.spec_field_chain(idx), Seq::empty(), *pdb, *stream, 0));
            out
        },
    }
}


/// Converts a record of one of the TPI kinds to a node (not yet added).
fn convert_tpi_kind(raw: &RawType, pdb: &mut ParsedPdb, stream: &RawTypeStream, fuel: usize) -> (r:
    Result<Type, Error>)
    requires
        old(pdb).wf(),
        fuel > 0,
        !raw.is_ipi_kind(),
        !(*raw is Unknown),
    ensures
        final(pdb).wf(),
        old(pdb).extended_by(&*final(pdb)),
        added_from(*old(pdb), *final(pdb), *stream),
        final(pdb).ipi_types@ == old(pdb).ipi_types@,
        r matches Ok(t) ==> t.refs_below(final(pdb).nodes@.len() as int) && record_converts(
            *raw,
            t,
            *stream,
            *final(pdb),
        ),
        r matches Ok(t) ==> tries_from(*raw, t, *stream, *old(pdb), *final(pdb)),
        refs_backward(*stream) ==> forall|bound: int|
            #[trigger] refs_under(*raw, *stream, bound) ==> adds_only_below(*old(pdb), *final(pdb), *stream, bound),
        converts_from(*raw, *stream, *old(pdb)) ==> r is Ok && adds_no_records(
            *old(pdb),
            *final(pdb),
            *stream,
        ),
    decreases fuel, 4int,
{
    let ghost ok = converts_from(*raw, *stream, *old(pdb));
    match raw {
        RawType::Struct { .. } => convert_class(raw, pdb, stream, fuel),
        RawType::Union { .. } => convert_union(raw, pdb, stream, fuel),
        RawType::Enum { .. } => convert_enum(raw, pdb, stream, fuel),
        RawType::Array { .. } => convert_array(raw, pdb, stream, fuel),
        RawType::Proc { .. } => convert_proc(raw, pdb, stream, fuel),
        RawType::MemberFunc { .. } => convert_member_func(raw, pdb, stream, fuel),
        RawType::ArgList { .. } => convert_arg_list(raw, pdb, stream, fuel),
        RawType::Pointer { ty, attr } => {
            proof {
                assert(record_tries(*raw, *stream, *ty));
            }
            let underlying_type = match handle_type(*ty, pdb, stream, fuel - 1) {
                Ok(t) => Some(t),
                Err(_) => None,
            };
            Ok(
                Type::Pointer(
                    Pointer { underlying_type, attributes: PointerAttributes::from_bits(*attr) },
                ),
            )
        },
        RawType::Modifier { underlying_type, attributes } => {
            proof {
                assert(record_needs(*raw, *underlying_type));
            }
            let t = handle_type(*underlying_type, pdb, stream, fuel - 1)?;
            Ok(
                Type::Modifier(
                    Modifier {
                        underlying_type: t,
                        constant: *attributes & 1 != 0,
                        volatile: *attributes & 2 != 0,
                        unaligned: *attributes & 4 != 0,
                    },
                ),
            )
        },
        RawType::Bitfield { underlying_type, length, position } => {
            proof {
                assert(record_needs(*raw, *underlying_type));
            }
            let t = handle_type(*underlying_type, pdb, stream, fuel - 1)?;
            Ok(
                Type::Bitfield(
                    Bitfield { underlying_type: t, len: *length as usize, position: *position as usize },
                ),
            )
        },
        RawType::FieldList { fields } => {
            proof {
                if ok {
                    assert forall|r: u32| #[trigger] fields_refer(fields@, r) implies settled(
                        *old(pdb),
                        *stream,
                        r,
                    ) || record_fails(*stream, r) by {
                        assert(record_tries(*raw, *stream, r));
                    }
                }
            }
            let out = convert_fields(fields, pdb, stream, fuel);
            proof {
                if refs_backward(*stream) {
                    assert forall|bound: int| #[trigger] refs_under(*raw, *stream, bound) implies adds_only_below(
                        *old(pdb),
                        *pdb,
                        *stream,
                        bound,
                    ) by {
                        lemma_chain_under(*raw, *stream, fields@, bound);
                    }
                }
            }
            Ok(Type::FieldList(FieldList(out)))
        },
        RawType::MethodList => Ok(Type::MethodList(MethodList(Vec::new()))),
        RawType::Alias { name, utype } => {
            proof {
                assert(record_needs(*raw, *utype));
            }
            let t = handle_type(*utype, pdb, stream, fuel - 1)?;
            Ok(Type::Alias(Alias { name: name.clone(), underlying_type: t }))
        },
        RawType::VTableShape { count, descriptors } => {
            Ok(Type::VTableShape(VTableShape { count: *count, descriptors: copy_bytes(descriptors) }))
        },
        RawType::VFTable { root, path, off, seg } => {
            proof {
                assert(record_needs(*raw, *root));
                assert(record_needs(*raw, *path));
            }
            let root_t = handle_type(*root, pdb, stream, fuel - 1)?;
            let ghost mid = *pdb;
            let path_t = handle_type(*path, pdb, stream, fuel - 1);
            proof {
                lemma_added_trans(*old(pdb), mid, *pdb, *stream);
                if ok {
                    lemma_adds_no_records_trans(*old(pdb), mid, *pdb, *stream);
                }
                if refs_backward(*stream) {
                    assert forall|bound: int| #[trigger] refs_under(*raw, *stream, bound) implies adds_only_below(
                        *old(pdb),
                        *pdb,
                        *stream,
                        bound,
                    ) by {
                        lemma_adds_only_below_trans(*old(pdb), mid, *pdb, *stream, bound);
                    }
                }
            }
            let path_t = path_t?;
            Ok(
                Type::VFTableType(
                    VFTableType { root: root_t, path: path_t, offset: *off, segment: *seg },
                ),
            )
        },
        _ => Err(Error::UnhandledType("unexpected record kind".to_string())),
    }
}

/// Converts a class, structure or interface record.
fn convert_class(raw: &RawType, pdb: &mut ParsedPdb, stream: &RawTypeStream, fuel: usize) -> (r: Result<
    Type,
    Error,
>)
    requires
        old(pdb).wf(),
        fuel > 0,
        *raw is Struct,
    ensures
        final(pdb).wf(),
        old(pdb).extended_by(&*final(pdb)),
        added_from(*old(pdb), *final(pdb), *stream),
        final(pdb).ipi_types@ == old(pdb).ipi_types@,
        r matches Ok(t) ==> t.refs_below(final(pdb).nodes@.len() as int) && record_converts(
            *raw,
            t,
            *stream,
            *final(pdb),
        ),
        r matches Ok(t) ==> tries_from(*raw, t, *stream, *old(pdb), *final(pdb)),
        refs_backward(*stream) ==> forall|bound: int|
            #[trigger] refs_under(*raw, *stream, bound) ==> adds_only_below(*old(pdb), *final(pdb), *stream, bound),
        converts_from(*raw, *stream, *old(pdb)) ==> r is Ok && adds_no_records(
            *old(pdb),
            *final(pdb),
            *stream,
        ),
    decreases fuel, 3int,
{
    match raw {
        RawType::Struct { name, unique_name, property, field_list, derivation_list, length } => {
            let ghost ok = converts_from(*raw, *stream, *old(pdb));
            proof {
                if *derivation_list != 0 {
                    assert(record_needs(*raw, *derivation_list));
                }
            }
            let derived_from = if *derivation_list != 0 {
                Some(handle_type(*derivation_list, pdb, stream, fuel - 1)?)
            } else {
                None
            };
            let ghost mid = *pdb;
            proof {
                if ok && *field_list != 0 {
                    assert forall|r: u32| #[trigger]
                        fields_refer(stream.spec_field_chain(*field_list), r) implies settled(
                        mid,
                        *stream,
                        r,
                    ) || record_fails(*stream, r) by {
                        assert(record_tries(*raw, *stream, r));
                    }
                }
            }
            let fields = if *field_list != 0 {
                convert_field_list(*field_list, pdb, stream, fuel)
            } else {
                Vec::new()
            };
            proof {
                lemma_added_trans(*old(pdb), mid, *pdb, *stream);
                if ok {
                    lemma_adds_no_records_trans(*old(pdb), mid, *pdb, *stream);
                }
                if *field_list != 0 {
                    lemma_fields_convert_from_move(
                        stream.spec_field_chain(*field_list),
                        fields@,
                        *old(pdb),
                        mid,
                        *pdb,
                        *pdb,
                        *stream,
                    );
                }
                if refs_backward(*stream) {
                    assert forall|bound: int| #[trigger] refs_under(*raw, *stream, bound) implies adds_only_below(
                        *old(pdb),
                        *pdb,
                        *stream,
                        bound,
                    ) by {
                        if *field_list != 0 {
                            lemma_chain_under(*raw, *stream, stream.spec_field_chain(*field_list), bound);
                        }
                        lemma_adds_only_below_trans(*old(pdb), mid, *pdb, *stream, bound);
                    }
                }
            }
            let properties = TypeProperties::from_bits(*property);
            let kind = class_kind(name, &properties);
            Ok(
                Type::Class(
                    Class {
                        name: name.clone(),
                        unique_name: clone_text(unique_name),
                        kind,
                        properties,
                        derived_from,
                        fields,
                        size: num_to_usize(*length),
                    },
                ),
            )
        },
        _ => Err(Error::UnhandledType("unexpected record kind".to_string())),
    }
}

/// Converts a union record.
fn convert_union(raw: &RawType, pdb: &mut ParsedPdb, stream: &RawTypeStream, fuel: usize) -> (r: Result<
    Type,
    Error,
>)
    requires
        old(pdb).wf(),
        fuel > 0,
        *raw is Union,
    ensures
        final(pdb).wf(),
        old(pdb).extended_by(&*final(pdb)),
        added_from(*old(pdb), *final(pdb), *stream),
        final(pdb).ipi_types@ == old(pdb).ipi_types@,
        r matches Ok(t) ==> t.refs_below(final(pdb).nodes@.len() as int) && record_converts(
            *raw,
            t,
            *stream,
            *final(pdb),
        ),
        r matches Ok(t) ==> tries_from(*raw, t, *stream, *old(pdb), *final(pdb)),
        refs_backward(*stream) ==> forall|bound: int|
            #[trigger] refs_under(*raw, *stream, bound) ==> adds_only_below(*old(pdb), *final(pdb), *stream, bound),
        converts_from(*raw, *stream, *old(pdb)) ==> r is Ok && adds_no_records(
            *old(pdb),
            *final(pdb),
            *stream,
        ),
    decreases fuel, 3int,
{
    match raw {
        RawType::Union { name, unique_name, property, fields, count, length } => {
            proof {
                if converts_from(*raw, *stream, *old(pdb)) && *fields != 0 {
                    assert forall|r: u32| #[trigger]
                        fields_refer(stream.spec_field_chain(*fields), r) implies settled(
                        *old(pdb),
                        *stream,
                        r,
                    ) || record_fails(*stream, r) by {
                        assert(record_tries(*raw, *stream, r));
                    }
                }
            }
            let field_refs = if *fields != 0 {
                convert_field_list(*fields, pdb, stream, fuel)
            } else {
                Vec::new()
            };
            proof {
                if refs_backward(*stream) && *fields != 0 {
                    assert forall|bound: int| #[trigger] refs_under(*raw, *stream, bound) implies adds_only_below(
                        *old(pdb),
                        *pdb,
                        *stream,
                        bound,
                    ) by {
                        lemma_chain_under(*raw, *stream, stream.spec_field_chain(*fields), bound);
                    }
                }
            }
            Ok(
                Type::Union(
                    Union {
                        name: name.clone(),
                        unique_name: clone_text(unique_name),
                        properties: TypeProperties::from_bits(*property),
                        size: num_to_usize(*length),
                        count: *count as usize,
                        fields: field_refs,
                    },
                ),
            )
        },
        _ => Err(Error::UnhandledType("unexpected record kind".to_string())),
    }
}

/// Copies the enumerators among the nodes `refs`, in order.
fn collect_variants(pdb: &ParsedPdb, refs: &Vec<TypeRef>) -> (vs: Vec<EnumVariant>)
    requires
        forall|i: int| 0 <= i < refs@.len() ==> (#[trigger] refs@[i]).0 < pdb.nodes@.len(),
    ensures
        variants_of(pdb.nodes@, refs@) == vs@.map_values(|v: EnumVariant| variant_view(v)),
{
    let mut vs: Vec<EnumVariant> = Vec::new();
    let mut k: usize = 0;
    while k < refs.len()
        invariant
            0 <= k <= refs@.len(),
            forall|i: int| 0 <= i < refs@.len() ==> (#[trigger] refs@[i]).0 < pdb.nodes@.len(),
            variants_of(pdb.nodes@, refs@.subrange(0, k as int)) == vs@.map_values(
                |v: EnumVariant| variant_view(v),
            ),
        decreases refs@.len() - k,
    {
        let ghost prev = vs@;
        assert(refs@.subrange(0, (k + 1) as int).drop_last() =~= refs@.subrange(0, k as int));
        assert(refs@.subrange(0, (k + 1) as int).last() == refs@[k as int]);
        match &pdb.nodes[refs[k].0] {
            Type::EnumVariant(v) => {
                vs.push(EnumVariant { name: v.name.clone(), value: v.value });
                assert(vs@.map_values(|v: EnumVariant| variant_view(v)) =~= prev.map_values(
                    |v: EnumVariant| variant_view(v),
                ).push((v.name@, v.value)));
            },
            _ => {},
        }
        k = k + 1;
    }
    assert(refs@.subrange(0, refs@.len() as int) =~= refs@);
    vs
}

/// Converts an enumeration record.
fn convert_enum(raw: &RawType, pdb: &mut ParsedPdb, stream: &RawTypeStream, fuel: usize) -> (r: Result<
    Type,
    Error,
>)
    requires
        old(pdb).wf(),
        fuel > 0,
        *raw is Enum,
    ensures
        final(pdb).wf(),
        old(pdb).extended_by(&*final(pdb)),
        added_from(*old(pdb), *final(pdb), *stream),
        final(pdb).ipi_types@ == old(pdb).ipi_types@,
        r matches Ok(t) ==> t.refs_below(final(pdb).nodes@.len() as int) && record_converts(
            *raw,
            t,
            *stream,
            *final(pdb),
        ),
        r matches Ok(t) ==> tries_from(*raw, t, *stream, *old(pdb), *final(pdb)),
        refs_backward(*stream) ==> forall|bound: int|
            #[trigger] refs_under(*raw, *stream, bound) ==> adds_only_below(*old(pdb), *final(pdb), *stream, bound),
        converts_from(*raw, *stream, *old(pdb)) ==> r is Ok && adds_no_records(
            *old(pdb),
            *final(pdb),
            *stream,
        ),
    decreases fuel, 3int,
{
    match raw {
        RawType::Enum { name, unique_name, property, underlying_type, fields } => {
            let ghost start = *pdb;
            let ghost ok = converts_from(*raw, *stream, *old(pdb));
            proof {
                assert(record_needs(*raw, *underlying_type));
            }
            let underlying = handle_type(*underlying_type, pdb, stream, fuel - 1)?;
            let variants = if *fields != 0 {
                let ghost mid = *pdb;
                proof {
                    if ok {
                        assert forall|r: u32| #[trigger]
                            fields_refer(stream.spec_field_chain(*fields), r) implies settled(
                            mid,
                            *stream,
                            r,
                        ) || record_fails(*stream, r) by {
                            assert(record_tries(*raw, *stream, r));
                        }
                    }
                }
                let out = convert_field_list(*fields, pdb, stream, fuel);
                proof {
                    lemma_added_trans(start, mid, *pdb, *stream);
                    if ok {
                        lemma_adds_no_records_trans(start, mid, *pdb, *stream);
                    }
                    if refs_backward(*stream) {
                        assert forall|bound: int| #[trigger] refs_under(*raw, *stream, bound) implies adds_only_below(
                            *old(pdb),
                            *pdb,
                            *stream,
                            bound,
                        ) by {
                            lemma_chain_under(*raw, *stream, stream.spec_field_chain(*fields), bound);
                            lemma_adds_only_below_trans(*old(pdb), mid, *pdb, *stream, bound);
                        }
                    }
                }
                collect_variants(pdb, &out)
            } else {
                Vec::new()
            };
            Ok(
                Type::Enumeration(
                    Enumeration {
                        name: name.clone(),
                        unique_name: clone_text(unique_name),
                        underlying_type: underlying,
                        variants,
                        properties: TypeProperties::from_bits(*property),
                    },
                ),
            )
        },
        _ => Err(Error::UnhandledType("unexpected record kind".to_string())),
    }
}

/// Whether the stride of array node `t` is the size of its element type
/// (forward references taking their own recorded size), where that is not 0.
pub open spec fn stride_matches(t: Type, p: ParsedPdb) -> bool {
    match t {
        Type::Array(a) => match crate::type_size::spec_type_size(p, false, a.element_type.0 as int) {
            Some(es) => a.stride == (if es > 0 {
                Some(es as u32)
            } else {
                None
            }),
            None => false,
        },
        _ => false,
    }
}

/// Converts an array record. The stride is the element type's size, where it
/// is not 0 (forward references taking their own recorded size); an element
/// type with no size is an error.
fn convert_array(raw: &RawType, pdb: &mut ParsedPdb, stream: &RawTypeStream, fuel: usize) -> (r: Result<
    Type,
    Error,
>)
    requires
        old(pdb).wf(),
        fuel > 0,
        *raw is Array,
    ensures
        final(pdb).wf(),
        old(pdb).extended_by(&*final(pdb)),
        added_from(*old(pdb), *final(pdb), *stream),
        final(pdb).ipi_types@ == old(pdb).ipi_types@,
        r matches Ok(t) ==> t.refs_below(final(pdb).nodes@.len() as int) && record_converts(
            *raw,
            t,
            *stream,
            *final(pdb),
        ) && stride_matches(t, *final(pdb)),
        refs_backward(*stream) ==> forall|bound: int|
            #[trigger] refs_under(*raw, *stream, bound) ==> adds_only_below(*old(pdb), *final(pdb), *stream, bound),
        converts_from(*raw, *stream, *old(pdb)) ==> r is Ok && adds_no_records(
            *old(pdb),
            *final(pdb),
            *stream,
        ),
    decreases fuel, 3int,
{
    match raw {
        RawType::Array { element_type, index_type, len } => {
            let ghost start = *pdb;
            let ghost ok = converts_from(*raw, *stream, *old(pdb));
            proof {
                assert(record_needs(*raw, *element_type));
                assert(record_needs(*raw, *index_type));
            }
            let element = handle_type(*element_type, pdb, stream, fuel - 1)?;
            let ghost mid = *pdb;
            let indexing = handle_type(*index_type, pdb, stream, fuel - 1);
            proof {
                lemma_added_trans(start, mid, *pdb, *stream);
                if ok {
                    lemma_adds_no_records_trans(start, mid, *pdb, *stream);
                    lemma_size_kept_by_append(mid, *pdb, element.0 as int);
                    if start.types@.contains_key(*element_type) {
                        lemma_size_kept_by_append(start, mid, element.0 as int);
                    }
                }
            }
            let indexing = indexing?;
            let size = num_to_usize(*len);
            let element_size = match node_size(pdb, element, false) {
                Some(s) => s,
                None => {
                    return Err(Error::Unsupported("array element type has no size"));
                },
            };
            let stride = if element_size > 0 {
                Some(element_size as u32)
            } else {
                None
            };
            let mut dimensions_bytes: Vec<usize> = Vec::new();
            dimensions_bytes.push(size);
            assert(dimensions_bytes@ =~= seq![size]);
            Ok(
                Type::Array(
                    Array {
                        element_type: element,
                        indexing_type: indexing,
                        stride,
                        size,
                        dimensions_bytes,
                        dimensions_elements: Vec::new(),
                    },
                ),
            )
        },
        _ => Err(Error::UnhandledType("unexpected record kind".to_string())),
    }
}

/// The arguments of the argument list at node `t`: copied from an argument
/// list, none for any other node.
fn arguments_at(pdb: &ParsedPdb, t: TypeRef) -> (args: Vec<TypeRef>)
    requires
        t.0 < pdb.nodes@.len(),
    ensures
        args@ == arguments_of(node_of(*pdb, t)),
{
    match &pdb.nodes[t.0] {
        Type::ArgumentList(a) => copy_refs(&a.0),
        _ => Vec::new(),
    }
}

/// Converts a procedure type record.
fn convert_proc(raw: &RawType, pdb: &mut ParsedPdb, stream: &RawTypeStream, fuel: usize) -> (r: Result<
    Type,
    Error,
>)
    requires
        old(pdb).wf(),
        fuel > 0,
        *raw is Proc,
    ensures
        final(pdb).wf(),
        old(pdb).extended_by(&*final(pdb)),
        added_from(*old(pdb), *final(pdb), *stream),
        final(pdb).ipi_types@ == old(pdb).ipi_types@,
        r matches Ok(t) ==> t.refs_below(final(pdb).nodes@.len() as int) && record_converts(
            *raw,
            t,
            *stream,
            *final(pdb),
        ),
        r matches Ok(t) ==> tries_from(*raw, t, *stream, *old(pdb), *final(pdb)),
        refs_backward(*stream) ==> forall|bound: int|
            #[trigger] refs_under(*raw, *stream, bound) ==> adds_only_below(*old(pdb), *final(pdb), *stream, bound),
        converts_from(*raw, *stream, *old(pdb)) ==> r is Ok && adds_no_records(
            *old(pdb),
            *final(pdb),
            *stream,
        ),
    decreases fuel, 3int,
{
    match raw {
        RawType::Proc { return_value, arg_list, call } => {
            let ghost start = *pdb;
            let ghost ok = converts_from(*raw, *stream, *old(pdb));
            proof {
                assert(record_tries(*raw, *stream, *return_value));
                assert(record_needs(*raw, *arg_list));
            }
            let return_type = match handle_type(*return_value, pdb, stream, fuel - 1) {
                Ok(t) => Some(t),
                Err(_) => None,
            };
            let ghost mid = *pdb;
            let list = handle_type(*arg_list, pdb, stream, fuel - 1);
            proof {
                lemma_added_trans(start, mid, *pdb, *stream);
                if ok {
                    lemma_adds_no_records_trans(start, mid, *pdb, *stream);
                }
            }
            let list = list?;
            let argument_list = arguments_at(pdb, list);
            proof {
                assert(pdb.nodes@[list.0 as int].refs_below(list.0 as int));
            }
            Ok(
                Type::Procedure(
                    Procedure {
                        return_type,
                        argument_list,
                        attributes: FunctionAttributes::from_call(*call),
                    },
                ),
            )
        },
        _ => Err(Error::UnhandledType("unexpected record kind".to_string())),
    }
}

/// Converts a member function type record.
fn convert_member_func(raw: &RawType, pdb: &mut ParsedPdb, stream: &RawTypeStream, fuel: usize) -> (r:
    Result<Type, Error>)
    requires
        old(pdb).wf(),
        fuel > 0,
        *raw is MemberFunc,
    ensures
        final(pdb).wf(),
        old(pdb).extended_by(&*final(pdb)),
        added_from(*old(pdb), *final(pdb), *stream),
        final(pdb).ipi_types@ == old(pdb).ipi_types@,
        r matches Ok(t) ==> t.refs_below(final(pdb).nodes@.len() as int) && record_converts(
            *raw,
            t,
            *stream,
            *final(pdb),
        ),
        r matches Ok(t) ==> tries_from(*raw, t, *stream, *old(pdb), *final(pdb)),
        refs_backward(*stream) ==> forall|bound: int|
            #[trigger] refs_under(*raw, *stream, bound) ==> adds_only_below(*old(pdb), *final(pdb), *stream, bound),
        converts_from(*raw, *stream, *old(pdb)) ==> r is Ok && adds_no_records(
            *old(pdb),
            *final(pdb),
            *stream,
        ),
    decreases fuel, 3int,
{
    match raw {
        RawType::MemberFunc { return_value, class, this, arg_list, call, this_adjust } => {
            let ghost start = *pdb;
            let ghost ok = converts_from(*raw, *stream, *old(pdb));
            proof {
                assert(record_needs(*raw, *return_value));
                assert(record_needs(*raw, *class));
                assert(record_tries(*raw, *stream, *this));
                assert(record_needs(*raw, *arg_list));
            }
            let return_type = handle_type(*return_value, pdb, stream, fuel - 1)?;
            let ghost mid1 = *pdb;
            let class_type = handle_type(*class, pdb, stream, fuel - 1);
            proof {
                lemma_added_trans(start, mid1, *pdb, *stream);
                if ok {
                    lemma_adds_no_records_trans(start, mid1, *pdb, *stream);
                }
            }
            let class_type = class_type?;
            let ghost mid2 = *pdb;
            proof {
                if !settled(*old(pdb), *stream, *this) && record_fails(*stream, *this) {
                    lemma_failing_never_added(*old(pdb), mid2, *stream, *this);
                }
            }
            let this_pointer_type = match handle_type(*this, pdb, stream, fuel - 1) {
                Ok(t) => Some(t),
                Err(_) => None,
            };
            proof {
                lemma_added_trans(start, mid2, *pdb, *stream);
                if ok {
                    lemma_adds_no_records_trans(start, mid2, *pdb, *stream);
                }
            }
            let ghost mid3 = *pdb;
            let list = handle_type(*arg_list, pdb, stream, fuel - 1);
            proof {
                lemma_added_trans(start, mid3, *pdb, *stream);
                if ok {
                    lemma_adds_no_records_trans(start, mid3, *pdb, *stream);
                }
            }
            let list = list?;
            let argument_list = arguments_at(pdb, list);
            proof {
                assert(pdb.nodes@[list.0 as int].refs_below(list.0 as int));
            }
            Ok(
                Type::MemberFunction(
                    MemberFunction {
                        return_type,
                        class_type,
                        this_pointer_type,
                        argument_list,
                        attributes: FunctionAttributes::from_call(*call),
                        this_adjustment: *this_adjust,
                    },
                ),
            )
        },
        _ => Err(Error::UnhandledType("unexpected record kind".to_string())),
    }
}

/// Converts an argument list record: every argument type must resolve.
fn convert_arg_list(raw: &RawType, pdb: &mut ParsedPdb, stream: &RawTypeStream, fuel: usize) -> (r:
    Result<Type, Error>)
    requires
        old(pdb).wf(),
        fuel > 0,
        *raw is ArgList,
    ensures
        final(pdb).wf(),
        old(pdb).extended_by(&*final(pdb)),
        added_from(*old(pdb), *final(pdb), *stream),
        final(pdb).ipi_types@ == old(pdb).ipi_types@,
        r matches Ok(t) ==> t.refs_below(final(pdb).nodes@.len() as int) && record_converts(
            *raw,
            t,
            *stream,
            *final(pdb),
        ),
        r matches Ok(t) ==> tries_from(*raw, t, *stream, *old(pdb), *final(pdb)),
        refs_backward(*stream) ==> forall|bound: int|
            #[trigger] refs_under(*raw, *stream, bound) ==> adds_only_below(*old(pdb), *final(pdb), *stream, bound),
        converts_from(*raw, *stream, *old(pdb)) ==> r is Ok && adds_no_records(
            *old(pdb),
            *final(pdb),
            *stream,
        ),
    decreases fuel, 3int,
{
    match raw {
        RawType::ArgList { args } => {
            let mut out: Vec<TypeRef> = Vec::new();
            let mut k: usize = 0;
            while k < args.len()
                invariant
                    pdb.wf(),
                    old(pdb).extended_by(&*pdb),
                    added_from(*old(pdb), *pdb, *stream),
                    pdb.ipi_types@ == old(pdb).ipi_types@,
                    fuel > 0,
                    0 <= k <= args@.len(),
                    out@.len() == k,
                    forall|j: int| 0 <= j < k ==> maps_to(pdb.types@, args@[j], #[trigger] out@[j]),
                    converts_from(*raw, *stream, *old(pdb)) ==> adds_no_records(
                        *old(pdb),
                        *pdb,
                        *stream,
                    ),
                    forall|r: u32| args@.contains(r) ==> #[trigger] record_needs(*raw, r),
                    refs_backward(*stream) ==> forall|bound: int|
                        #[trigger] refs_under(*raw, *stream, bound) ==> adds_only_below(
                            *old(pdb),
                            *pdb,
                            *stream,
                            bound,
                        ),
                decreases args@.len() - k,
            {
                let ghost before = *pdb;
                proof {
                    assert(args@.contains(args@[k as int]));
                    assert(record_needs(*raw, args@[k as int]));
                }
                let t = handle_type(args[k], pdb, stream, fuel - 1);
                proof {
                    lemma_added_trans(*old(pdb), before, *pdb, *stream);
                    if converts_from(*raw, *stream, *old(pdb)) {
                        lemma_adds_no_records_trans(*old(pdb), before, *pdb, *stream);
                    }
                    if refs_backward(*stream) {
                        assert forall|bound: int| #[trigger] refs_under(*raw, *stream, bound) implies adds_only_below(
                            *old(pdb),
                            *pdb,
                            *stream,
                            bound,
                        ) by {
                            lemma_adds_only_below_trans(*old(pdb), before, *pdb, *stream, bound);
                        }
                    }
                }
                let t = t?;
                out.push(t);
                k = k + 1;
            }
            Ok(Type::ArgumentList(ArgumentList(out)))
        },
        _ => Err(Error::UnhandledType("unexpected record kind".to_string())),
    }
}


/// Whether type index `ty` resolves through the TPI map of `p` (see
/// [`handle_type`]): it is settled, or its record converts from `p` without
/// the conversion of another record and there is `fuel` for one level.
pub open spec fn resolves_from(p: ParsedPdb, stream: RawTypeStream, ty: u32, fuel: usize) -> bool {
    settled(p, stream, ty) || (fuel > 0 && match stream.spec_record(ty) {
        Some(RawRecord::Parsed(raw)) => converts_from(raw, stream, p),
        _ => false,
    })
}

/// Whether type index `ty` fails to resolve through the TPI map of `p` (see
/// [`handle_type`]): it is not settled and has no decodable record, or one of
/// an IPI kind, or an unknown one.
pub open spec fn fails_from(p: ParsedPdb, stream: RawTypeStream, ty: u32) -> bool {
    !settled(p, stream, ty) && match stream.spec_record(ty) {
        Some(RawRecord::Parsed(raw)) => raw.is_ipi_kind() || raw is Unknown,
        _ => true,
    }
}

/// Converts a method field (`LF_ONEMETHOD`: its type index, name and virtual
/// base offset) to a method: its type resolved through [`handle_type`], the
/// offset kept where it is not 0. The conversion of field lists leaves
/// methods out; this one is for callers that want them.
pub fn convert_method(
    ty: u32,
    name: &str,
    vbaseoff: u32,
    pdb: &mut ParsedPdb,
    stream: &RawTypeStream,
    fuel: usize,
) -> (r: Result<Method, Error>)
    requires
        old(pdb).wf(),
    ensures
        final(pdb).wf(),
        old(pdb).extended_by(&*final(pdb)),
        added_from(*old(pdb), *final(pdb), *stream),
        final(pdb).ipi_types@ == old(pdb).ipi_types@,
        r matches Ok(m) ==> m.name@ == name@ && maps_to(final(pdb).types@, ty, m.method_type)
            && m.vtable_offset == (if vbaseoff != 0 {
            Some(vbaseoff as usize)
        } else {
            None
        }),
        resolves_from(*old(pdb), *stream, ty, fuel) ==> r is Ok,
        fails_from(*old(pdb), *stream, ty) ==> r is Err,
{
    let method_type = handle_type(ty, pdb, stream, fuel)?;
    let vtable_offset = if vbaseoff != 0 {
        Some(vbaseoff as usize)
    } else {
        None
    };
    Ok(Method { name: text(name), method_type, vtable_offset })
}

/// Converts an entry of a method list (its type index and virtual table
/// offset) to a method list entry: its type resolved through [`handle_type`].
pub fn convert_method_list_entry(
    ty: u32,
    vtab_offset: Option<u32>,
    pdb: &mut ParsedPdb,
    stream: &RawTypeStream,
    fuel: usize,
) -> (r: Result<MethodListEntry, Error>)
    requires
        old(pdb).wf(),
    ensures
        final(pdb).wf(),
        old(pdb).extended_by(&*final(pdb)),
        added_from(*old(pdb), *final(pdb), *stream),
        final(pdb).ipi_types@ == old(pdb).ipi_types@,
        r matches Ok(e) ==> maps_to(final(pdb).types@, ty, e.method_type) && e.vtable_offset == match vtab_offset {
            Some(o) => Some(o as usize),
            None => None,
        },
        resolves_from(*old(pdb), *stream, ty, fuel) ==> r is Ok,
        fails_from(*old(pdb), *stream, ty) ==> r is Err,
{
    let method_type = handle_type(ty, pdb, stream, fuel)?;
    let vtable_offset = match vtab_offset {
        Some(o) => Some(o as usize),
        None => None,
    };
    Ok(MethodListEntry { method_type, vtable_offset })
}

/// Converts an overloaded method field (`LF_METHOD`: its name and the type
/// index of its method list) to an overloaded method: the method list
/// resolved through [`handle_type`].
pub fn convert_overloaded_method(
    name: &str,
    methods: u32,
    pdb: &mut ParsedPdb,
    stream: &RawTypeStream,
    fuel: usize,
) -> (r: Result<OverloadedMethod, Error>)
    requires
        old(pdb).wf(),
    ensures
        final(pdb).wf(),
        old(pdb).extended_by(&*final(pdb)),
        added_from(*old(pdb), *final(pdb), *stream),
        final(pdb).ipi_types@ == old(pdb).ipi_types@,
        r matches Ok(m) ==> m.name@ == name@ && maps_to(final(pdb).types@, methods, m.method_list),
        resolves_from(*old(pdb), *stream, methods, fuel) ==> r is Ok,
        fails_from(*old(pdb), *stream, methods) ==> r is Err,
{
    let method_list = handle_type(methods, pdb, stream, fuel)?;
    Ok(OverloadedMethod { name: text(name), method_list })
}

/// Resolves an IPI item id: its IPI map entry, or else its conversion.
fn resolve_ipi_item(id: u32, pdb: &mut ParsedPdb, stream: &RawTypeStream, fuel: usize) -> (r: Result<
    TypeRef,
    Error,
>)
    requires
        old(pdb).wf(),
        fuel > 0,
    ensures
        final(pdb).wf(),
        old(pdb).extended_by(&*final(pdb)),
        added_from(*old(pdb), *final(pdb), *stream),
        r matches Ok(t) ==> maps_to(final(pdb).ipi_types@, id, t),
        ipi_settled(*old(pdb), *stream, id) ==> r is Ok && adds_no_ipi_records(
            *old(pdb),
            *final(pdb),
            *stream,
        ),
    decreases fuel, 2int,
{
    match lookup_ipi_type(id, pdb) {
        Some(t) => Ok(t),
        None => handle_ipi_type(id, pdb, stream, fuel - 1),
    }
}

/// Resolves the non-zero item ids of a list (see [`resolve_ipi_item`]); the
/// first that does not resolve makes it an error.
fn resolve_ipi_items(ids: &Vec<u32>, pdb: &mut ParsedPdb, stream: &RawTypeStream, fuel: usize) -> (r:
    Result<Vec<TypeRef>, Error>)
    requires
        old(pdb).wf(),
        fuel > 0,
    ensures
        final(pdb).wf(),
        old(pdb).extended_by(&*final(pdb)),
        added_from(*old(pdb), *final(pdb), *stream),
        r matches Ok(v) ==> all_map_to(final(pdb).ipi_types@, nonzero_ids(ids@), v@)
            && forall|i: int| 0 <= i < v@.len() ==> (#[trigger] v@[i]).0 < final(pdb).nodes@.len(),
        (forall|x: u32| x != 0 && #[trigger] ids@.contains(x) ==> ipi_settled(*old(pdb), *stream, x))
            ==> r is Ok && adds_no_ipi_records(*old(pdb), *final(pdb), *stream),
    decreases fuel, 3int,
{
    let ghost all_settled = forall|x: u32|
        x != 0 && #[trigger] ids@.contains(x) ==> ipi_settled(*old(pdb), *stream, x);
    let mut out: Vec<TypeRef> = Vec::new();
    let mut k: usize = 0;
    while k < ids.len()
        invariant
            pdb.wf(),
            old(pdb).extended_by(&*pdb),
            added_from(*old(pdb), *pdb, *stream),
            fuel > 0,
            0 <= k <= ids@.len(),
            all_map_to(pdb.ipi_types@, nonzero_ids(ids@.subrange(0, k as int)), out@),
            all_settled == (forall|x: u32|
                x != 0 && #[trigger] ids@.contains(x) ==> ipi_settled(*old(pdb), *stream, x)),
            all_settled ==> adds_no_ipi_records(*old(pdb), *pdb, *stream),
        decreases ids@.len() - k,
    {
        let ghost prev = out@;
        assert(ids@.subrange(0, (k + 1) as int).drop_last() =~= ids@.subrange(0, k as int));
        assert(ids@.subrange(0, (k + 1) as int).last() == ids@[k as int]);
        let id = ids[k];
        if id != 0 {
            let ghost before = *pdb;
            proof {
                if all_settled {
                    assert(ids@.contains(id));
                }
            }
            let t = resolve_ipi_item(id, pdb, stream, fuel);
            proof {
                lemma_added_trans(*old(pdb), before, *pdb, *stream);
                if all_settled {
                    lemma_adds_no_ipi_records_trans(*old(pdb), before, *pdb, *stream);
                }
            }
            let t = t?;
            out.push(t);
            assert(out@ == prev.push(t));
        }
        k = k + 1;
    }
    assert(ids@.subrange(0, ids@.len() as int) =~= ids@);
    Ok(out)
}

/// Converts a record of one of the IPI kinds to a node (not yet added).
fn convert_ipi_kind(raw: &RawType, pdb: &mut ParsedPdb, stream: &RawTypeStream, fuel: usize) -> (r:
    Result<Type, Error>)
    requires
        old(pdb).wf(),
        fuel > 0,
        raw.is_ipi_kind(),
    ensures
        final(pdb).wf(),
        old(pdb).extended_by(&*final(pdb)),
        added_from(*old(pdb), *final(pdb), *stream),
        r matches Ok(t) ==> t.refs_below(final(pdb).nodes@.len() as int) && ipi_record_converts(
            *raw,
            t,
            *old(pdb),
            *final(pdb),
        ),
        ipi_converts_from(*raw, *stream, *old(pdb)) ==> r is Ok && adds_no_ipi_records(
            *old(pdb),
            *final(pdb),
            *stream,
        ),
    decreases fuel, 4int,
{
    let ghost ok = ipi_converts_from(*raw, *stream, *old(pdb));
    match raw {
        RawType::FuncId { name, scope, func_type } => {
            proof {
                if ok && *scope != 0 {
                    assert(ipi_refers(*raw, *scope));
                }
            }
            let function_type = if *func_type != 0 {
                lookup_either_type(*func_type, pdb)
            } else {
                None
            };
            let parent_scope = if *scope != 0 {
                Some(resolve_ipi_item(*scope, pdb, stream, fuel)?)
            } else {
                None
            };
            Ok(Type::FuncId(FuncIdType { name: name.clone(), function_type, parent_scope }))
        },
        RawType::MFuncId { name, parent_type, func_type } => {
            let function_type = if *func_type != 0 {
                lookup_either_type(*func_type, pdb)
            } else {
                None
            };
            let parent = if *parent_type != 0 {
                lookup_either_type(*parent_type, pdb)
            } else {
                None
            };
            Ok(Type::MFuncId(MFuncIdType { name: name.clone(), function_type, parent_type: parent }))
        },
        RawType::StringId { name, id } => {
            proof {
                if ok && *id != 0 {
                    assert(ipi_refers(*raw, *id));
                }
            }
            let substring = if *id != 0 {
                Some(resolve_ipi_item(*id, pdb, stream, fuel)?)
            } else {
                None
            };
            Ok(Type::StringId(StringIdType { id: name.clone(), substring }))
        },
        RawType::SubStrList { ids } => {
            proof {
                if ok {
                    assert forall|x: u32| x != 0 && #[trigger] ids@.contains(x) implies ipi_settled(
                        *old(pdb),
                        *stream,
                        x,
                    ) by {
                        assert(ipi_refers(*raw, x));
                    }
                }
            }
            let strings = resolve_ipi_items(ids, pdb, stream, fuel)?;
            Ok(Type::SubStrList(SubStrListType { strings }))
        },
        RawType::BuildInfo { args } => {
            proof {
                if ok {
                    assert forall|x: u32| x != 0 && #[trigger] args@.contains(x) implies ipi_settled(
                        *old(pdb),
                        *stream,
                        x,
                    ) by {
                        assert(ipi_refers(*raw, x));
                    }
                }
            }
            let items = resolve_ipi_items(args, pdb, stream, fuel)?;
            Ok(Type::BuildInfoType(BuildInfoTypeData { items }))
        },
        RawType::UdtSrcLine { ty, line } | RawType::UdtModSrcLine { ty, line } => {
            match lookup_either_type(*ty, pdb) {
                Some(udt) => Ok(
                    Type::UdtSrcLineType(
                        UdtSrcLineType { source_file: None, line_number: *line, udt },
                    ),
                ),
                None => Err(
                    Error::UnhandledType(
                        "UdtSrcLine references an unparsed user-defined type".to_string(),
                    ),
                ),
            }
        },
        _ => Err(Error::UnhandledType("unexpected record kind".to_string())),
    }
}

} // verus!
