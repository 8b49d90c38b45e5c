//! The type model: every kind of type record that a PDB's TPI and IPI streams
//! hold, as plain values. A [`TypeRef`] names a node of the type arena held by
//! [`ParsedPdb`](crate::symbol_types::ParsedPdb).
use vstd::prelude::*;

use crate::symbol_types::TypeRef;

verus! {

#[derive(Debug, Clone)]
pub enum Type {
    Class(Class),
    VirtualBaseClass(VirtualBaseClass),
    Union(Union),
    Bitfield(Bitfield),
    Enumeration(Enumeration),
    EnumVariant(EnumVariant),
    Pointer(Pointer),
    Primitive(Primitive),
    Array(Array),
    FieldList(FieldList),
    ArgumentList(ArgumentList),
    Modifier(Modifier),
    Member(Member),
    Procedure(Procedure),
    MemberFunction(MemberFunction),
    MethodList(MethodList),
    MethodListEntry(MethodListEntry),
    Nested(Nested),
    OverloadedMethod(OverloadedMethod),
    Method(Method),
    StaticMember(StaticMember),
    BaseClass(BaseClass),
    VTable(VTable),
    Alias(Alias),
    VTableShape(VTableShape),
    VFTableType(VFTableType),
    // IPI stream types
    FuncId(FuncIdType),
    MFuncId(MFuncIdType),
    StringId(StringIdType),
    SubStrList(SubStrListType),
    BuildInfoType(BuildInfoTypeData),
    UdtSrcLineType(UdtSrcLineType),
}

/// The properties word of a user-defined type record (CodeView `CV_prop_t`).
#[derive(Debug, Clone, Copy, PartialEq, Eq, Structural)]
pub struct TypeProperties {
    pub packed: bool,
    pub constructors: bool,
    pub overlapped_operators: bool,
    pub is_nested_type: bool,
    pub contains_nested_types: bool,
    pub overload_assignment: bool,
    pub overload_coasting: bool,
    pub forward_reference: bool,
    pub scoped_definition: bool,
    pub has_unique_name: bool,
    pub sealed: bool,
    pub hfa: u8,
    pub intristic_type: bool,
    pub mocom: u8,
}

impl TypeProperties {
    /// The properties that a raw properties word denotes: one bit per flag
    /// (bits 0 to 10 and 13), `hfa` in bits 11-12 and `mocom` in bits 14-15.
    pub open spec fn spec_from_bits(bits: u16) -> TypeProperties {
        TypeProperties {
            packed: bits & 0x1 != 0,
            constructors: bits & 0x2 != 0,
            overlapped_operators: bits & 0x4 != 0,
            is_nested_type: bits & 0x8 != 0,
            contains_nested_types: bits & 0x10 != 0,
            overload_assignment: bits & 0x20 != 0,
            overload_coasting: bits & 0x40 != 0,
            forward_reference: bits & 0x80 != 0,
            scoped_definition: bits & 0x100 != 0,
            has_unique_name: bits & 0x200 != 0,
            sealed: bits & 0x400 != 0,
            hfa: ((bits >> 11u16) & 0x3) as u8,
            intristic_type: bits & 0x2000 != 0,
            mocom: ((bits >> 14u16) & 0x3) as u8,
        }
    }

    /// Decodes a raw properties word.
    pub fn from_bits(bits: u16) -> (p: TypeProperties)
        ensures
            p == Self::spec_from_bits(bits),
    {
        TypeProperties {
            packed: bits & 0x1 != 0,
            constructors: bits & 0x2 != 0,
            overlapped_operators: bits & 0x4 != 0,
            is_nested_type: bits & 0x8 != 0,
            contains_nested_types: bits & 0x10 != 0,
            overload_assignment: bits & 0x20 != 0,
            overload_coasting: bits & 0x40 != 0,
            forward_reference: bits & 0x80 != 0,
            scoped_definition: bits & 0x100 != 0,
            has_unique_name: bits & 0x200 != 0,
            sealed: bits & 0x400 != 0,
            hfa: ((bits >> 11u16) & 0x3) as u8,
            intristic_type: bits & 0x2000 != 0,
            mocom: ((bits >> 14u16) & 0x3) as u8,
        }
    }
}

#[derive(Debug, Clone)]
pub struct Class {
    pub name: String,
    pub unique_name: Option<String>,
    pub kind: ClassKind,
    pub properties: TypeProperties,
    pub derived_from: Option<TypeRef>,
    pub fields: Vec<TypeRef>,
    pub size: usize,
}

#[derive(Debug, Clone)]
pub struct BaseClass {
    pub kind: ClassKind,
    pub base_class: TypeRef,
    pub offset: usize,
}

#[derive(Debug, Clone)]
pub struct VirtualBaseClass {
    pub direct: bool,
    pub base_class: TypeRef,
    pub base_pointer: TypeRef,
    pub base_pointer_offset: usize,
    pub virtual_base_offset: usize,
}

#[derive(Debug, Copy, Clone, PartialEq, Eq, Structural)]
pub enum ClassKind {
    Class,
    Struct,
    Interface,
}

impl ClassKind {
    /// The name of the kind, as it is displayed.
    pub open spec fn spec_name(self) -> Seq<char> {
        match self {
            ClassKind::Class => "Class"@,
            ClassKind::Struct => "Struct"@,
            ClassKind::Interface => "Interface"@,
        }
    }

    /// The name of the kind: "Class", "Struct" or "Interface".
    pub fn name(&self) -> (s: String)
        ensures
            s@ == self.spec_name(),
    {
        match self {
            ClassKind::Class => crate::text::text("Class"),
            ClassKind::Struct => crate::text::text("Struct"),
            ClassKind::Interface => crate::text::text("Interface"),
        }
    }

    /// The kind that a leaf kind of a class record denotes: `LF_CLASS` (0x1504)
    /// is a class, `LF_INTERFACE` (0x1519) an interface, anything else a struct.
    pub open spec fn spec_from_leaf(leaf: u16) -> ClassKind {
        if leaf == 0x1504 {
            ClassKind::Class
        } else if leaf == 0x1519 {
            ClassKind::Interface
        } else {
            ClassKind::Struct
        }
    }

    /// Maps the leaf kind of a class record to a [`ClassKind`].
    pub fn from_leaf(leaf: u16) -> (k: ClassKind)
        ensures
            k == Self::spec_from_leaf(leaf),
    {
        if leaf == 0x1504 {
            ClassKind::Class
        } else if leaf == 0x1519 {
            ClassKind::Interface
        } else {
            ClassKind::Struct
        }
    }
}

#[derive(Debug, Clone)]
pub struct Union {
    pub name: String,
    pub unique_name: Option<String>,
    pub properties: TypeProperties,
    pub size: usize,
    pub count: usize,
    pub fields: Vec<TypeRef>,
}

#[derive(Debug, Clone)]
pub struct Bitfield {
    pub underlying_type: TypeRef,
    pub len: usize,
    pub position: usize,
}

#[derive(Debug, Clone)]
pub struct Enumeration {
    pub name: String,
    pub unique_name: Option<String>,
    pub underlying_type: TypeRef,
    pub variants: Vec<EnumVariant>,
    pub properties: TypeProperties,
}

#[derive(Debug, Clone)]
pub struct EnumVariant {
    pub name: String,
    pub value: VariantValue,
}

/// The value of an enumerator, in the smallest integer type that holds it.
#[derive(Debug, Clone, Copy, PartialEq, Eq, Structural)]
pub enum VariantValue {
    U8(u8),
    U16(u16),
    U32(u32),
    U64(u64),
    I8(i8),
    I16(i16),
    I32(i32),
    I64(i64),
}

impl VariantValue {
    /// The value as a mathematical integer.
    pub open spec fn spec_value(self) -> int {
        match self {
            VariantValue::U8(v) => v as int,
            VariantValue::U16(v) => v as int,
            VariantValue::U32(v) => v as int,
            VariantValue::U64(v) => v as int,
            VariantValue::I8(v) => v as int,
            VariantValue::I16(v) => v as int,
            VariantValue::I32(v) => v as int,
            VariantValue::I64(v) => v as int,
        }
    }

    /// The value that an enumerator's number takes, given the number read as
    /// unsigned (`as_unsigned`, where it is one) and as signed (`as_signed`):
    /// an unsigned number goes to the smallest unsigned type that holds it, else
    /// a signed one to the smallest signed type; a number that is neither is refused.
    pub open spec fn spec_from_number(as_unsigned: Option<u64>, as_signed: Option<i64>) -> Option<
        VariantValue,
    > {
        match as_unsigned {
            Some(v) => if v <= 0xff {
                Some(VariantValue::U8(v as u8))
            } else if v <= 0xffff {
                Some(VariantValue::U16(v as u16))
            } else if v <= 0xffff_ffff {
                Some(VariantValue::U32(v as u32))
            } else {
                Some(VariantValue::U64(v))
            },
            None => match as_signed {
                Some(v) => if -128 <= v <= 127 {
                    Some(VariantValue::I8(v as i8))
                } else if -32768 <= v <= 32767 {
                    Some(VariantValue::I16(v as i16))
                } else if -0x8000_0000 <= v <= 0x7fff_ffff {
                    Some(VariantValue::I32(v as i32))
                } else {
                    Some(VariantValue::I64(v))
                },
                None => None,
            },
        }
    }

    /// Classifies an enumerator's number (see [`Self::spec_from_number`]).
    pub fn from_number(as_unsigned: Option<u64>, as_signed: Option<i64>) -> (r: Option<VariantValue>)
        ensures
            r == Self::spec_from_number(as_unsigned, as_signed),
            r matches Some(v) ==> v.spec_value() == (match as_unsigned {
                Some(u) => u as int,
                None => as_signed.unwrap() as int,
            }),
    {
        match as_unsigned {
            Some(v) => {
                if v <= 0xff {
                    Some(VariantValue::U8(v as u8))
                } else if v <= 0xffff {
                    Some(VariantValue::U16(v as u16))
                } else if v <= 0xffff_ffff {
                    Some(VariantValue::U32(v as u32))
                } else {
                    Some(VariantValue::U64(v))
                }
            },
            None => match as_signed {
                Some(v) => {
                    if -128 <= v && v <= 127 {
                        Some(VariantValue::I8(v as i8))
                    } else if -32768 <= v && v <= 32767 {
                        Some(VariantValue::I16(v as i16))
                    } else if -0x8000_0000 <= v && v <= 0x7fff_ffff {
                        Some(VariantValue::I32(v as i32))
                    } else {
                        Some(VariantValue::I64(v))
                    }
                },
                None => None,
            },
        }
    }

    /// The value as an `i64`, unsigned values taken modulo 2^64 (as `as i64` does).
    pub open spec fn spec_as_i64(self) -> i64 {
        match self {
            VariantValue::U8(v) => v as i64,
            VariantValue::U16(v) => v as i64,
            VariantValue::U32(v) => v as i64,
            VariantValue::U64(v) => v as i64,
            VariantValue::I8(v) => v as i64,
            VariantValue::I16(v) => v as i64,
            VariantValue::I32(v) => v as i64,
            VariantValue::I64(v) => v,
        }
    }

    /// The value as an `i64` (see [`Self::spec_as_i64`]).
    pub fn as_i64(&self) -> (r: i64)
        ensures
            r == self.spec_as_i64(),
    {
        match *self {
            VariantValue::U8(v) => v as i64,
            VariantValue::U16(v) => v as i64,
            VariantValue::U32(v) => v as i64,
            VariantValue::U64(v) => v as i64,
            VariantValue::I8(v) => v as i64,
            VariantValue::I16(v) => v as i64,
            VariantValue::I32(v) => v as i64,
            VariantValue::I64(v) => v,
        }
    }
}

#[derive(Debug, Clone)]
pub struct Pointer {
    pub underlying_type: Option<TypeRef>,
    pub attributes: PointerAttributes,
}

#[derive(Debug, Copy, Clone, PartialEq, Eq, Structural)]
pub enum PointerKind {
    Near16,
    Far16,
    Huge16,
    BaseSeg,
    BaseVal,
    BaseSegVal,
    BaseAddr,
    BaseSegAddr,
    BaseType,
    BaseSelf,
    Near32,
    Far32,
    Ptr64,
}

impl PointerKind {
    /// The pointer kind that the kind field (bits 0-4 of a pointer record's
    /// attributes) denotes; unknown values are taken as 64-bit pointers.
    pub open spec fn spec_from_value(v: u32) -> PointerKind {
        if v == 0 {
            PointerKind::Near16
        } else if v == 1 {
            PointerKind::Far16
        } else if v == 2 {
            PointerKind::Huge16
        } else if v == 3 {
            PointerKind::BaseSeg
        } else if v == 4 {
            PointerKind::BaseVal
        } else if v == 5 {
            PointerKind::BaseSegVal
        } else if v == 6 {
            PointerKind::BaseAddr
        } else if v == 7 {
            PointerKind::BaseSegAddr
        } else if v == 8 {
            PointerKind::BaseType
        } else if v == 9 {
            PointerKind::BaseSelf
        } else if v == 10 {
            PointerKind::Near32
        } else if v == 11 {
            PointerKind::Far32
        } else {
            PointerKind::Ptr64
        }
    }

    /// Decodes the kind field of a pointer record.
    pub fn from_value(v: u32) -> (k: PointerKind)
        ensures
            k == Self::spec_from_value(v),
    {
        match v {
            0 => PointerKind::Near16,
            1 => PointerKind::Far16,
            2 => PointerKind::Huge16,
            3 => PointerKind::BaseSeg,
            4 => PointerKind::BaseVal,
            5 => PointerKind::BaseSegVal,
            6 => PointerKind::BaseAddr,
            7 => PointerKind::BaseSegAddr,
            8 => PointerKind::BaseType,
            9 => PointerKind::BaseSelf,
            10 => PointerKind::Near32,
            11 => PointerKind::Far32,
            _ => PointerKind::Ptr64,
        }
    }

    /// The size in bytes that a pointer of this kind is taken to have when the
    /// size of a pointer type is asked for.
    pub open spec fn spec_type_size(self) -> usize {
        match self {
            PointerKind::Near16 | PointerKind::Far16 | PointerKind::Huge16 => 2,
            PointerKind::Near32 | PointerKind::Far32 => 4,
            PointerKind::Ptr64 => 8,
            _ => 4,
        }
    }

    /// See [`Self::spec_type_size`].
    pub fn type_size(&self) -> (s: usize)
        ensures
            s == self.spec_type_size(),
    {
        match self {
            PointerKind::Near16 | PointerKind::Far16 | PointerKind::Huge16 => 2,
            PointerKind::Near32 | PointerKind::Far32 => 4,
            PointerKind::Ptr64 => 8,
            _ => 4,
        }
    }
}

/// The byte size recorded for a pointer of a given kind field value: 2 for a
/// 16-bit near pointer, 6 for a 32-bit far pointer, 8 for a 64-bit pointer and
/// for unknown kinds, 4 for the others.
pub open spec fn spec_pointer_record_size(v: u32) -> usize {
    if v == 0 {
        2
    } else if v <= 10 {
        4
    } else if v == 11 {
        6
    } else {
        8
    }
}

#[derive(Debug, Clone, Copy, PartialEq, Eq, Structural)]
pub struct PointerAttributes {
    pub kind: PointerKind,
    pub is_volatile: bool,
    pub is_const: bool,
    pub is_unaligned: bool,
    pub is_restrict: bool,
    pub is_reference: bool,
    pub size: usize,
    pub is_mocom: bool,
}

impl PointerAttributes {
    /// The attributes that a pointer record's attribute word denotes: the kind
    /// in bits 0-4, volatile, const, unaligned and restrict in bits 9-12, mocom
    /// in bit 19, and an lvalue or rvalue reference in bit 20 or 21.
    pub open spec fn spec_from_bits(bits: u32) -> PointerAttributes {
        PointerAttributes {
            kind: PointerKind::spec_from_value(bits & 0x1f),
            is_volatile: bits & 0x200 != 0,
            is_const: bits & 0x400 != 0,
            is_unaligned: bits & 0x800 != 0,
            is_restrict: bits & 0x1000 != 0,
            is_reference: bits & 0x10_0000 != 0 || bits & 0x20_0000 != 0,
            size: spec_pointer_record_size(bits & 0x1f),
            is_mocom: bits & 0x8_0000 != 0,
        }
    }

    /// Decodes a pointer record's attribute word.
    pub fn from_bits(bits: u32) -> (a: PointerAttributes)
        ensures
            a == Self::spec_from_bits(bits),
    {
        let kind_value = bits & 0x1f;
        let size: usize = if kind_value == 0 {
            2
        } else if kind_value <= 10 {
            4
        } else if kind_value == 11 {
            6
        } else {
            8
        };
        PointerAttributes {
            kind: PointerKind::from_value(kind_value),
            is_volatile: bits & 0x200 != 0,
            is_const: bits & 0x400 != 0,
            is_unaligned: bits & 0x800 != 0,
            is_restrict: bits & 0x1000 != 0,
            is_reference: bits & 0x10_0000 != 0 || bits & 0x20_0000 != 0,
            size,
            is_mocom: bits & 0x8_0000 != 0,
        }
    }
}

/// The attribute word of a pointer record gives each flag by one bit, whatever
/// the other bits say: volatile is bit 9 (0x200), const bit 10 (0x400),
/// unaligned bit 11 (0x800) and restrict bit 12 (0x1000); so setting the const
/// bit makes a pointer const and leaves it as volatile as it was, and setting
/// the volatile bit leaves it as const as it was.
pub proof fn lemma_pointer_attribute_bits(w: u32)
    ensures
        PointerAttributes::spec_from_bits(w).is_volatile == (w & 0x200 != 0),
        PointerAttributes::spec_from_bits(w).is_const == (w & 0x400 != 0),
        PointerAttributes::spec_from_bits(w).is_unaligned == (w & 0x800 != 0),
        PointerAttributes::spec_from_bits(w).is_restrict == (w & 0x1000 != 0),
        PointerAttributes::spec_from_bits(w | 0x400).is_const,
        !PointerAttributes::spec_from_bits(w & 0xffff_fbff).is_const,
        PointerAttributes::spec_from_bits(w | 0x400).is_volatile == PointerAttributes::spec_from_bits(w).is_volatile,
        PointerAttributes::spec_from_bits(w | 0x200).is_const == PointerAttributes::spec_from_bits(w).is_const,
        PointerAttributes::spec_from_bits(w | 0x200).is_volatile,
        !PointerAttributes::spec_from_bits(w & 0xffff_fdff).is_volatile,
        PointerAttributes::spec_from_bits(w).is_mocom == (w & 0x8_0000 != 0),
        PointerAttributes::spec_from_bits(w).is_reference == (w & 0x30_0000 != 0),
        PointerAttributes::spec_from_bits(w).kind == PointerAttributes::spec_from_bits(w & 0x1f).kind,
        PointerAttributes::spec_from_bits(w).size == PointerAttributes::spec_from_bits(w & 0x1f).size,
        w & 0x1f == 0 ==> PointerAttributes::spec_from_bits(w).kind == PointerKind::Near16
            && PointerAttributes::spec_from_bits(w).size == 2,
        w & 0x1f == 10 ==> PointerAttributes::spec_from_bits(w).kind == PointerKind::Near32
            && PointerAttributes::spec_from_bits(w).size == 4,
        w & 0x1f == 11 ==> PointerAttributes::spec_from_bits(w).kind == PointerKind::Far32
            && PointerAttributes::spec_from_bits(w).size == 6,
        w & 0x1f == 12 ==> PointerAttributes::spec_from_bits(w).kind == PointerKind::Ptr64
            && PointerAttributes::spec_from_bits(w).size == 8,
        1 <= w & 0x1f <= 10 ==> PointerAttributes::spec_from_bits(w).size == 4,
{
    assert((w & 0x1fu32) & 0x1f == w & 0x1f) by (bit_vector);
    assert(((w & 0x10_0000u32) != 0 || (w & 0x20_0000u32) != 0) == (w & 0x30_0000u32 != 0)) by (bit_vector);
    assert((w | 0x400u32) & 0x400 != 0) by (bit_vector);
    assert((w & 0xffff_fbffu32) & 0x400 == 0) by (bit_vector);
    assert(((w | 0x400u32) & 0x200 != 0) == (w & 0x200 != 0)) by (bit_vector);
    assert(((w | 0x200u32) & 0x400 != 0) == (w & 0x400 != 0)) by (bit_vector);
    assert((w | 0x200u32) & 0x200 != 0) by (bit_vector);
    assert((w & 0xffff_fdffu32) & 0x200 == 0) by (bit_vector);
}

/// A primitive type: a type encoded in the type index itself rather than in a
/// type record. Bits 0-7 of the index give the kind, bits 8-11 the indirection.
#[derive(Debug, Clone, Copy, PartialEq, Eq, Structural)]
pub struct Primitive {
    pub kind: PrimitiveKind,
    pub indirection: Option<Indirection>,
}

impl Primitive {
    /// The size of a value of this primitive type: the pointer size where there
    /// is an indirection, else the size of the kind.
    pub open spec fn spec_size(self) -> usize {
        match self.indirection {
            Some(i) => i.spec_size(),
            None => self.kind.spec_size(),
        }
    }

    /// See [`Self::spec_size`].
    pub fn size(&self) -> (s: usize)
        ensures
            s == self.spec_size(),
    {
        if let Some(indirection) = &self.indirection {
            return indirection.size();
        }
        self.kind.size()
    }
}

/// Pointer modes of primitive types (bits 8-11 of a primitive type index).
#[derive(Debug, Clone, Copy, PartialEq, Eq, Structural)]
pub enum Indirection {
    /// 16-bit near pointer
    Near16,
    /// 16-bit far pointer
    Far16,
    /// 16-bit huge pointer
    Huge16,
    /// 32-bit near pointer
    Near32,
    /// 32-bit far pointer
    Far32,
    /// 64-bit pointer
    Near64,
    /// 128-bit pointer
    Near128,
}

impl Indirection {
    /// The size of a pointer of this mode.
    pub open spec fn spec_size(self) -> usize {
        match self {
            Indirection::Near16 | Indirection::Far16 | Indirection::Huge16 => 2,
            Indirection::Near32 | Indirection::Far32 => 4,
            Indirection::Near64 => 8,
            Indirection::Near128 => 16,
        }
    }

    /// See [`Self::spec_size`].
    pub fn size(&self) -> (s: usize)
        ensures
            s == self.spec_size(),
    {
        match self {
            Indirection::Near16 | Indirection::Far16 | Indirection::Huge16 => 2,
            Indirection::Near32 | Indirection::Far32 => 4,
            Indirection::Near64 => 8,
            Indirection::Near128 => 16,
        }
    }
}

/// Primitive type kinds (CodeView `CV_typ_e`).
#[derive(Debug, Copy, Clone, PartialEq, Eq, Structural)]
pub enum PrimitiveKind {
    NoType,
    Void,
    Char,
    UChar,
    RChar,
    WChar,
    RChar16,
    RChar32,
    I8,
    U8,
    Short,
    UShort,
    I16,
    U16,
    Long,
    ULong,
    I32,
    U32,
    Quad,
    UQuad,
    I64,
    U64,
    Octa,
    UOcta,
    I128,
    U128,
    F16,
    F32,
    F32PP,
    F48,
    F64,
    F80,
    F128,
    Complex32,
    Complex64,
    Complex80,
    Complex128,
    Bool8,
    Bool16,
    Bool32,
    Bool64,
    HRESULT,
}

impl PrimitiveKind {
    /// The size in bytes of a value of this kind.
    pub open spec fn spec_size(self) -> usize {
        match self {
            PrimitiveKind::NoType | PrimitiveKind::Void => 0,
            PrimitiveKind::Char | PrimitiveKind::UChar | PrimitiveKind::RChar | PrimitiveKind::I8
            | PrimitiveKind::U8 | PrimitiveKind::Bool8 => 1,
            PrimitiveKind::RChar16 | PrimitiveKind::WChar | PrimitiveKind::Short
            | PrimitiveKind::UShort | PrimitiveKind::I16 | PrimitiveKind::U16 | PrimitiveKind::F16
            | PrimitiveKind::Bool16 => 2,
            PrimitiveKind::RChar32 | PrimitiveKind::Long | PrimitiveKind::ULong
            | PrimitiveKind::I32 | PrimitiveKind::U32 | PrimitiveKind::F32 | PrimitiveKind::F32PP
            | PrimitiveKind::Bool32 | PrimitiveKind::HRESULT | PrimitiveKind::Complex32 => 4,
            PrimitiveKind::F48 => 6,
            PrimitiveKind::Quad | PrimitiveKind::UQuad | PrimitiveKind::I64 | PrimitiveKind::U64
            | PrimitiveKind::F64 | PrimitiveKind::Bool64 | PrimitiveKind::Complex64 => 8,
            PrimitiveKind::Octa | PrimitiveKind::UOcta | PrimitiveKind::I128
            | PrimitiveKind::U128 => 16,
            PrimitiveKind::F80 | PrimitiveKind::Complex80 => 10,
            PrimitiveKind::F128 | PrimitiveKind::Complex128 => 16,
        }
    }

    /// A kind's size is its width in bytes: the 8-, 16-, 32-, 64- and 128-bit
    /// integer kinds, signed or unsigned and under either of their names, take
    /// 1, 2, 4, 8 and 16 bytes, so that the signed and unsigned kinds of one
    /// width agree; the 32- and 64-bit floating point and boolean kinds take 4
    /// and 8; and a primitive without indirection has the size of its kind.
    pub proof fn lemma_sizes_are_widths(k: PrimitiveKind)
        ensures
            (k is I8 || k is U8 || k is Char || k is UChar || k is Bool8) ==> k.spec_size() == 1,
            (k is I16 || k is U16 || k is Short || k is UShort || k is Bool16) ==> k.spec_size() == 2,
            (k is I32 || k is U32 || k is Long || k is ULong || k is Bool32 || k is F32) ==> k.spec_size() == 4,
            (k is I64 || k is U64 || k is Quad || k is UQuad || k is Bool64 || k is F64) ==> k.spec_size() == 8,
            (k is I128 || k is U128 || k is Octa || k is UOcta) ==> k.spec_size() == 16,
            (k is NoType || k is Void) ==> k.spec_size() == 0,
            (k is RChar || k is WChar || k is RChar16 || k is RChar32) ==> k.spec_size() == if k is RChar {
                1usize
            } else if k is RChar32 {
                4usize
            } else {
                2usize
            },
            (k is F16 || k is F32PP || k is F48 || k is F80 || k is F128) ==> k.spec_size() == if k is F16 {
                2usize
            } else if k is F32PP {
                4usize
            } else if k is F48 {
                6usize
            } else if k is F80 {
                10usize
            } else {
                16usize
            },
            (k is Complex32 || k is HRESULT) ==> k.spec_size() == 4,
            k is Complex64 ==> k.spec_size() == 8,
            k is Complex80 ==> k.spec_size() == 10,
            k is Complex128 ==> k.spec_size() == 16,
            PrimitiveKind::I64.spec_size() == PrimitiveKind::Quad.spec_size(),
            PrimitiveKind::U64.spec_size() == PrimitiveKind::UQuad.spec_size(),
            PrimitiveKind::I32.spec_size() == PrimitiveKind::Long.spec_size(),
            PrimitiveKind::I64.spec_size() == 2 * PrimitiveKind::I32.spec_size(),
            PrimitiveKind::U64.spec_size() == 2 * PrimitiveKind::U32.spec_size(),
            (Primitive { kind: k, indirection: None }).spec_size() == k.spec_size(),
    {
    }

    /// A primitive with an indirection has the size of the pointer, whatever
    /// its kind: 2 bytes for the 16-bit modes, 4 for the 32-bit ones, 8 for
    /// the 64-bit one and 16 for the 128-bit one.
    pub proof fn lemma_indirection_sizes(k: PrimitiveKind, i: Indirection)
        ensures
            (Primitive { kind: k, indirection: Some(i) }).spec_size() == (Primitive {
                kind: PrimitiveKind::Void,
                indirection: Some(i),
            }).spec_size(),
            (i is Near16 || i is Far16 || i is Huge16) ==> (Primitive { kind: k, indirection: Some(i) }).spec_size() == 2,
            (i is Near32 || i is Far32) ==> (Primitive { kind: k, indirection: Some(i) }).spec_size() == 4,
            i is Near64 ==> (Primitive { kind: k, indirection: Some(i) }).spec_size() == 8,
            i is Near128 ==> (Primitive { kind: k, indirection: Some(i) }).spec_size() == 16,
    {
    }

    /// See [`Self::spec_size`].
    pub fn size(&self) -> (s: usize)
        ensures
            s == self.spec_size(),
    {
        match self {
            PrimitiveKind::NoType | PrimitiveKind::Void => 0,
            PrimitiveKind::Char | PrimitiveKind::UChar | PrimitiveKind::RChar | PrimitiveKind::I8
            | PrimitiveKind::U8 | PrimitiveKind::Bool8 => 1,
            PrimitiveKind::RChar16 | PrimitiveKind::WChar | PrimitiveKind::Short
            | PrimitiveKind::UShort | PrimitiveKind::I16 | PrimitiveKind::U16 | PrimitiveKind::F16
            | PrimitiveKind::Bool16 => 2,
            PrimitiveKind::RChar32 | PrimitiveKind::Long | PrimitiveKind::ULong
            | PrimitiveKind::I32 | PrimitiveKind::U32 | PrimitiveKind::F32 | PrimitiveKind::F32PP
            | PrimitiveKind::Bool32 | PrimitiveKind::HRESULT | PrimitiveKind::Complex32 => 4,
            PrimitiveKind::F48 => 6,
            PrimitiveKind::Quad | PrimitiveKind::UQuad | PrimitiveKind::I64 | PrimitiveKind::U64
            | PrimitiveKind::F64 | PrimitiveKind::Bool64 | PrimitiveKind::Complex64 => 8,
            PrimitiveKind::Octa | PrimitiveKind::UOcta | PrimitiveKind::I128
            | PrimitiveKind::U128 => 16,
            PrimitiveKind::F80 | PrimitiveKind::Complex80 => 10,
            PrimitiveKind::F128 | PrimitiveKind::Complex128 => 16,
        }
    }
}

impl PrimitiveKind {
    /// The name of the kind, as it is displayed (and as `{:?}` renders it).
    pub open spec fn spec_name(self) -> Seq<char> {
        match self {
            PrimitiveKind::NoType => "NoType"@,
            PrimitiveKind::Void => "Void"@,
            PrimitiveKind::Char => "Char"@,
            PrimitiveKind::UChar => "UChar"@,
            PrimitiveKind::RChar => "RChar"@,
            PrimitiveKind::WChar => "WChar"@,
            PrimitiveKind::RChar16 => "RChar16"@,
            PrimitiveKind::RChar32 => "RChar32"@,
            PrimitiveKind::I8 => "I8"@,
            PrimitiveKind::U8 => "U8"@,
            PrimitiveKind::Short => "Short"@,
            PrimitiveKind::UShort => "UShort"@,
            PrimitiveKind::I16 => "I16"@,
            PrimitiveKind::U16 => "U16"@,
            PrimitiveKind::Long => "Long"@,
            PrimitiveKind::ULong => "ULong"@,
            PrimitiveKind::I32 => "I32"@,
            PrimitiveKind::U32 => "U32"@,
            PrimitiveKind::Quad => "Quad"@,
            PrimitiveKind::UQuad => "UQuad"@,
            PrimitiveKind::I64 => "I64"@,
            PrimitiveKind::U64 => "U64"@,
            PrimitiveKind::Octa => "Octa"@,
            PrimitiveKind::UOcta => "UOcta"@,
            PrimitiveKind::I128 => "I128"@,
            PrimitiveKind::U128 => "U128"@,
            PrimitiveKind::F16 => "F16"@,
            PrimitiveKind::F32 => "F32"@,
            PrimitiveKind::F32PP => "F32PP"@,
            PrimitiveKind::F48 => "F48"@,
            PrimitiveKind::F64 => "F64"@,
            PrimitiveKind::F80 => "F80"@,
            PrimitiveKind::F128 => "F128"@,
            PrimitiveKind::Complex32 => "Complex32"@,
            PrimitiveKind::Complex64 => "Complex64"@,
            PrimitiveKind::Complex80 => "Complex80"@,
            PrimitiveKind::Complex128 => "Complex128"@,
            PrimitiveKind::Bool8 => "Bool8"@,
            PrimitiveKind::Bool16 => "Bool16"@,
            PrimitiveKind::Bool32 => "Bool32"@,
            PrimitiveKind::Bool64 => "Bool64"@,
            PrimitiveKind::HRESULT => "HRESULT"@,
        }
    }

    /// The name of the kind (see [`Self::spec_name`]).
    pub fn name(&self) -> (s: &'static str)
        ensures
            s@ == self.spec_name(),
    {
        match self {
            PrimitiveKind::NoType => "NoType",
            PrimitiveKind::Void => "Void",
            PrimitiveKind::Char => "Char",
            PrimitiveKind::UChar => "UChar",
            PrimitiveKind::RChar => "RChar",
            PrimitiveKind::WChar => "WChar",
            PrimitiveKind::RChar16 => "RChar16",
            PrimitiveKind::RChar32 => "RChar32",
            PrimitiveKind::I8 => "I8",
            PrimitiveKind::U8 => "U8",
            PrimitiveKind::Short => "Short",
            PrimitiveKind::UShort => "UShort",
            PrimitiveKind::I16 => "I16",
            PrimitiveKind::U16 => "U16",
            PrimitiveKind::Long => "Long",
            PrimitiveKind::ULong => "ULong",
            PrimitiveKind::I32 => "I32",
            PrimitiveKind::U32 => "U32",
            PrimitiveKind::Quad => "Quad",
            PrimitiveKind::UQuad => "UQuad",
            PrimitiveKind::I64 => "I64",
            PrimitiveKind::U64 => "U64",
            PrimitiveKind::Octa => "Octa",
            PrimitiveKind::UOcta => "UOcta",
            PrimitiveKind::I128 => "I128",
            PrimitiveKind::U128 => "U128",
            PrimitiveKind::F16 => "F16",
            PrimitiveKind::F32 => "F32",
            PrimitiveKind::F32PP => "F32PP",
            PrimitiveKind::F48 => "F48",
            PrimitiveKind::F64 => "F64",
            PrimitiveKind::F80 => "F80",
            PrimitiveKind::F128 => "F128",
            PrimitiveKind::Complex32 => "Complex32",
            PrimitiveKind::Complex64 => "Complex64",
            PrimitiveKind::Complex80 => "Complex80",
            PrimitiveKind::Complex128 => "Complex128",
            PrimitiveKind::Bool8 => "Bool8",
            PrimitiveKind::Bool16 => "Bool16",
            PrimitiveKind::Bool32 => "Bool32",
            PrimitiveKind::Bool64 => "Bool64",
            PrimitiveKind::HRESULT => "HRESULT",
        }
    }
}

#[derive(Debug, Clone)]
pub struct Array {
    pub element_type: TypeRef,
    pub indexing_type: TypeRef,
    pub stride: Option<u32>,
    pub size: usize,
    pub dimensions_bytes: Vec<usize>,
    pub dimensions_elements: Vec<usize>,
}

#[derive(Debug, Clone)]
pub struct FieldList(pub Vec<TypeRef>);

#[derive(Debug, Clone)]
pub struct ArgumentList(pub Vec<TypeRef>);

#[derive(Debug, Clone)]
pub struct Modifier {
    pub underlying_type: TypeRef,
    pub constant: bool,
    pub volatile: bool,
    pub unaligned: bool,
}

#[derive(Debug, Clone)]
pub struct Member {
    pub name: String,
    pub underlying_type: TypeRef,
    pub offset: usize,
}

#[derive(Debug, Clone)]
pub struct Procedure {
    pub return_type: Option<TypeRef>,
    pub argument_list: Vec<TypeRef>,
    pub attributes: FunctionAttributes,
}

#[derive(Debug, Clone, Copy, PartialEq, Eq, Structural)]
pub struct FunctionAttributes {
    pub calling_convention: u8,
    pub cxx_return_udt: bool,
    pub is_constructor: bool,
    pub is_constructor_with_virtual_bases: bool,
}

impl FunctionAttributes {
    /// The attributes of a procedure with a given calling convention byte: bit 5
    /// of it marks a C++ return of a user-defined type; the constructor flags are
    /// not recorded in procedure records and are false.
    pub open spec fn spec_from_call(call: u8) -> FunctionAttributes {
        FunctionAttributes {
            calling_convention: call,
            cxx_return_udt: call & 0x20 != 0,
            is_constructor: false,
            is_constructor_with_virtual_bases: false,
        }
    }

    /// See [`Self::spec_from_call`].
    pub fn from_call(call: u8) -> (a: FunctionAttributes)
        ensures
            a == Self::spec_from_call(call),
    {
        FunctionAttributes {
            calling_convention: call,
            cxx_return_udt: call & 0x20 != 0,
            is_constructor: false,
            is_constructor_with_virtual_bases: false,
        }
    }
}

#[derive(Debug, Clone)]
pub struct MemberFunction {
    pub return_type: TypeRef,
    pub class_type: TypeRef,
    pub this_pointer_type: Option<TypeRef>,
    pub argument_list: Vec<TypeRef>,
    pub attributes: FunctionAttributes,
    pub this_adjustment: u32,
}

#[derive(Debug, Clone)]
pub struct MethodList(pub Vec<MethodListEntry>);

#[derive(Debug, Clone)]
pub struct MethodListEntry {
    pub method_type: TypeRef,
    pub vtable_offset: Option<usize>,
}

#[derive(Debug, Clone)]
pub struct Nested {
    pub name: String,
    pub nested_type: TypeRef,
}

#[derive(Debug, Clone)]
pub struct OverloadedMethod {
    pub name: String,
    pub method_list: TypeRef,
}

#[derive(Debug, Clone)]
pub struct Method {
    pub name: String,
    pub method_type: TypeRef,
    pub vtable_offset: Option<usize>,
}

#[derive(Debug, Clone)]
pub struct StaticMember {
    pub name: String,
    pub field_type: TypeRef,
}

#[derive(Debug, Clone)]
pub struct VTable(pub TypeRef);

/// A function identifier from the IPI stream.
#[derive(Debug, Clone)]
pub struct FuncIdType {
    /// The name of the function
    pub name: String,
    /// The function's type signature (if available)
    pub function_type: Option<TypeRef>,
    /// The parent scope containing this function (namespace, class, etc.)
    pub parent_scope: Option<TypeRef>,
}

/// A member function identifier from the IPI stream.
#[derive(Debug, Clone)]
pub struct MFuncIdType {
    /// The name of the member function
    pub name: String,
    /// The member function's type signature (if available)
    pub function_type: Option<TypeRef>,
    /// The parent class/struct that owns this member function
    pub parent_type: Option<TypeRef>,
}

/// A string identifier from the IPI stream.
#[derive(Debug, Clone)]
pub struct StringIdType {
    /// The string value
    pub id: String,
    /// Optional reference to another string that this string extends
    pub substring: Option<TypeRef>,
}

/// A list of string identifiers from the IPI stream.
#[derive(Debug, Clone)]
pub struct SubStrListType {
    /// List of string identifiers
    pub strings: Vec<TypeRef>,
}

/// Build information from the IPI stream (current directory, compiler, source,
/// PDB and command line, each a string identifier).
#[derive(Debug, Clone)]
pub struct BuildInfoTypeData {
    pub items: Vec<TypeRef>,
}

/// The source line of a user-defined type's definition, from the IPI stream.
#[derive(Debug, Clone)]
pub struct UdtSrcLineType {
    /// Reference to the source file StringId (if available)
    pub source_file: Option<TypeRef>,
    /// Line number in the source file where the UDT is defined
    pub line_number: u32,
    /// Reference to the user-defined type
    pub udt: TypeRef,
}

/// A type alias (typedef).
#[derive(Debug, Clone)]
pub struct Alias {
    /// The name of the alias
    pub name: String,
    /// The underlying type that this alias refers to
    pub underlying_type: TypeRef,
}

/// The shape of a virtual function table: the number of entries and their
/// packed 4-bit descriptors.
#[derive(Debug, Clone)]
pub struct VTableShape {
    /// Number of virtual function entries in the vtable
    pub count: u16,
    /// Packed 4-bit descriptors, `(count + 1) / 2` bytes and possible padding.
    pub descriptors: Vec<u8>,
}

impl VTableShape {
    /// The size of the described table: eight bytes per entry.
    pub fn type_size(&self) -> (s: usize)
        ensures
            s == self.count * 8,
    {
        self.count as usize * 8
    }
}

/// A virtual function table, with its location and inheritance path.
#[derive(Debug, Clone)]
pub struct VFTableType {
    /// The root class that owns this virtual function table
    pub root: TypeRef,
    /// Type describing the inheritance path to this vtable
    pub path: TypeRef,
    /// Offset in bytes from the class base address
    pub offset: u32,
    /// Section/segment index containing the vtable
    pub segment: u16,
}


impl PrimitiveKind {
    /// The kind that a kind code (bits 0-7 of a primitive type index) denotes;
    /// unknown codes are taken as `Void`.
    pub open spec fn spec_from_code(code: u32) -> PrimitiveKind {
        if code == 0x00 {
            PrimitiveKind::NoType
        } else if code == 0x03 {
            PrimitiveKind::Void
        } else if code == 0x08 {
            PrimitiveKind::HRESULT
        } else if code == 0x10 {
            PrimitiveKind::Char
        } else if code == 0x20 {
            PrimitiveKind::Short
        } else if code == 0x21 {
            PrimitiveKind::UShort
        } else if code == 0x22 {
            PrimitiveKind::I16
        } else if code == 0x23 {
            PrimitiveKind::U16
        } else if code == 0x30 {
            PrimitiveKind::Bool8
        } else if code == 0x31 {
            PrimitiveKind::Bool16
        } else if code == 0x33 {
            PrimitiveKind::Bool32
        } else if code == 0x34 {
            PrimitiveKind::Bool64
        } else if code == 0x40 {
            PrimitiveKind::F32
        } else if code == 0x41 {
            PrimitiveKind::F32PP
        } else if code == 0x42 {
            PrimitiveKind::F64
        } else if code == 0x43 {
            PrimitiveKind::F128
        } else if code == 0x44 {
            PrimitiveKind::F48
        } else if code == 0x45 {
            PrimitiveKind::F80
        } else if code == 0x46 {
            PrimitiveKind::F16
        } else if code == 0x50 {
            PrimitiveKind::Complex32
        } else if code == 0x51 {
            PrimitiveKind::Complex64
        } else if code == 0x52 {
            PrimitiveKind::Complex128
        } else if code == 0x53 {
            PrimitiveKind::Complex80
        } else if code == 0x68 {
            PrimitiveKind::I8
        } else if code == 0x69 {
            PrimitiveKind::U8
        } else if code == 0x70 {
            PrimitiveKind::RChar
        } else if code == 0x71 {
            PrimitiveKind::WChar
        } else if code == 0x72 {
            PrimitiveKind::I32
        } else if code == 0x73 {
            PrimitiveKind::U32
        } else if code == 0x74 {
            PrimitiveKind::I32
        } else if code == 0x75 {
            PrimitiveKind::U32
        } else if code == 0x76 {
            PrimitiveKind::Quad
        } else if code == 0x77 {
            PrimitiveKind::UQuad
        } else if code == 0x7a {
            PrimitiveKind::RChar16
        } else if code == 0x7b {
            PrimitiveKind::RChar32
        } else if code == 0x13 {
            PrimitiveKind::I64
        } else if code == 0x14 {
            PrimitiveKind::Octa
        } else if code == 0x15 {
            PrimitiveKind::UOcta
        } else if code == 0x17 {
            PrimitiveKind::I128
        } else if code == 0x18 {
            PrimitiveKind::U128
        } else {
            PrimitiveKind::Void
        }
    }

    /// Decodes a primitive kind code (see [`Self::spec_from_code`]).
    pub fn from_code(code: u32) -> (k: PrimitiveKind)
        ensures
            k == Self::spec_from_code(code),
    {
        match code {
            0x00 => PrimitiveKind::NoType,
            0x03 => PrimitiveKind::Void,
            0x08 => PrimitiveKind::HRESULT,
            0x10 => PrimitiveKind::Char,
            0x20 => PrimitiveKind::Short,
            0x21 => PrimitiveKind::UShort,
            0x22 => PrimitiveKind::I16,
            0x23 => PrimitiveKind::U16,
            0x30 => PrimitiveKind::Bool8,
            0x31 => PrimitiveKind::Bool16,
            0x33 => PrimitiveKind::Bool32,
            0x34 => PrimitiveKind::Bool64,
            0x40 => PrimitiveKind::F32,
            0x41 => PrimitiveKind::F32PP,
            0x42 => PrimitiveKind::F64,
            0x43 => PrimitiveKind::F128,
            0x44 => PrimitiveKind::F48,
            0x45 => PrimitiveKind::F80,
            0x46 => PrimitiveKind::F16,
            0x50 => PrimitiveKind::Complex32,
            0x51 => PrimitiveKind::Complex64,
            0x52 => PrimitiveKind::Complex128,
            0x53 => PrimitiveKind::Complex80,
            0x68 => PrimitiveKind::I8,
            0x69 => PrimitiveKind::U8,
            0x70 => PrimitiveKind::RChar,
            0x71 => PrimitiveKind::WChar,
            0x72 => PrimitiveKind::I32,
            0x73 => PrimitiveKind::U32,
            0x74 => PrimitiveKind::I32,
            0x75 => PrimitiveKind::U32,
            0x76 => PrimitiveKind::Quad,
            0x77 => PrimitiveKind::UQuad,
            0x7a => PrimitiveKind::RChar16,
            0x7b => PrimitiveKind::RChar32,
            0x13 => PrimitiveKind::I64,
            0x14 => PrimitiveKind::Octa,
            0x15 => PrimitiveKind::UOcta,
            0x17 => PrimitiveKind::I128,
            0x18 => PrimitiveKind::U128,
            _ => PrimitiveKind::Void,
        }
    }
}

impl Indirection {
    /// The pointer mode that a mode code (bits 8-11 of a primitive type index)
    /// denotes; 0 (direct) and unknown codes give none.
    pub open spec fn spec_from_code(code: u32) -> Option<Indirection> {
        if code == 1 {
            Some(Indirection::Near16)
        } else if code == 2 {
            Some(Indirection::Far16)
        } else if code == 3 {
            Some(Indirection::Huge16)
        } else if code == 4 {
            Some(Indirection::Near32)
        } else if code == 5 {
            Some(Indirection::Far32)
        } else if code == 6 {
            Some(Indirection::Near64)
        } else if code == 7 {
            Some(Indirection::Near128)
        } else {
            None
        }
    }

    /// Decodes a pointer mode code (see [`Self::spec_from_code`]).
    pub fn from_code(code: u32) -> (i: Option<Indirection>)
        ensures
            i == Self::spec_from_code(code),
    {
        match code {
            1 => Some(Indirection::Near16),
            2 => Some(Indirection::Far16),
            3 => Some(Indirection::Huge16),
            4 => Some(Indirection::Near32),
            5 => Some(Indirection::Far32),
            6 => Some(Indirection::Near64),
            7 => Some(Indirection::Near128),
            _ => None,
        }
    }
}

/// The primitive type that a primitive type index denotes: the kind from bits
/// 0-7, the pointer mode from bits 8-11.
pub open spec fn spec_decode_primitive_type(idx: u32) -> Primitive {
    Primitive {
        kind: PrimitiveKind::spec_from_code(idx & 0xff),
        indirection: Indirection::spec_from_code((idx >> 8u32) & 0xf),
    }
}

/// Decodes a primitive type index into a [`Primitive`].
pub fn decode_primitive_type(idx: u32) -> (p: Primitive)
    ensures
        p == spec_decode_primitive_type(idx),
{
    let kind = PrimitiveKind::from_code(idx & 0xff);
    let indirection = Indirection::from_code((idx >> 8u32) & 0xf);
    Primitive { kind, indirection }
}


/// Whether every reference in `refs` is below `n`.
pub open spec fn all_below(refs: Seq<TypeRef>, n: int) -> bool {
    forall|i: int| 0 <= i < refs.len() ==> (#[trigger] refs[i]).0 < n
}

/// Whether an optional reference is below `n`.
pub open spec fn opt_below(r: Option<TypeRef>, n: int) -> bool {
    match r {
        Some(t) => t.0 < n,
        None => true,
    }
}

impl Type {
    /// Whether every node that this type refers to lies below position `n` of the arena.
    pub open spec fn refs_below(self, n: int) -> bool {
        match self {
            Type::Class(c) => opt_below(c.derived_from, n) && all_below(c.fields@, n),
            Type::VirtualBaseClass(v) => v.base_class.0 < n && v.base_pointer.0 < n,
            Type::Union(u) => all_below(u.fields@, n),
            Type::Bitfield(b) => b.underlying_type.0 < n,
            Type::Enumeration(e) => e.underlying_type.0 < n,
            Type::EnumVariant(_) => true,
            Type::Pointer(p) => opt_below(p.underlying_type, n),
            Type::Primitive(_) => true,
            Type::Array(a) => a.element_type.0 < n && a.indexing_type.0 < n,
            Type::FieldList(f) => all_below(f.0@, n),
            Type::ArgumentList(a) => all_below(a.0@, n),
            Type::Modifier(m) => m.underlying_type.0 < n,
            Type::Member(m) => m.underlying_type.0 < n,
            Type::Procedure(p) => opt_below(p.return_type, n) && all_below(p.argument_list@, n),
            Type::MemberFunction(m) => m.return_type.0 < n && m.class_type.0 < n && opt_below(
                m.this_pointer_type,
                n,
            ) && all_below(m.argument_list@, n),
            Type::MethodList(l) => forall|i: int|
                0 <= i < l.0@.len() ==> (#[trigger] l.0@[i]).method_type.0 < n,
            Type::MethodListEntry(e) => e.method_type.0 < n,
            Type::Nested(x) => x.nested_type.0 < n,
            Type::OverloadedMethod(m) => m.method_list.0 < n,
            Type::Method(m) => m.method_type.0 < n,
            Type::StaticMember(m) => m.field_type.0 < n,
            Type::BaseClass(b) => b.base_class.0 < n,
            Type::VTable(v) => v.0.0 < n,
            Type::Alias(a) => a.underlying_type.0 < n,
            Type::VTableShape(_) => true,
            Type::VFTableType(v) => v.root.0 < n && v.path.0 < n,
            Type::FuncId(f) => opt_below(f.function_type, n) && opt_below(f.parent_scope, n),
            Type::MFuncId(f) => opt_below(f.function_type, n) && opt_below(f.parent_type, n),
            Type::StringId(s) => opt_below(s.substring, n),
            Type::SubStrList(s) => all_below(s.strings@, n),
            Type::BuildInfoType(b) => all_below(b.items@, n),
            Type::UdtSrcLineType(u) => opt_below(u.source_file, n) && u.udt.0 < n,
        }
    }
}

} // verus!
