//! The records of a PDB's streams, as plain values: what the parser reads of
//! each type record, field and symbol record. Type indices are kept as numbers.
use vstd::prelude::*;

verus! {

/// One field of a field list (an `LF_FIELDLIST` chain).
#[derive(Debug)]
pub enum RawField {
    /// `LF_MEMBER`: a data member; `offset` is absent where the numeric leaf
    /// does not fit in a `u64`.
    Member { ty: u32, name: String, offset: Option<u64> },
    /// `LF_STMEMBER`: a static data member.
    StaticMember { ty: u32, name: String },
    /// `LF_BCLASS`: a non-virtual base class.
    BaseClass { ty: u32, offset: Option<u64> },
    /// `LF_VBCLASS` (`direct`) or `LF_IVBCLASS`: a virtual base class.
    VirtualBaseClass { direct: bool, btype: u32, vbtype: u32, vbpoff: Option<u64>, vboff: Option<u64> },
    /// `LF_NESTTYPE`: a nested type.
    NestedType { nested_ty: u32, name: String },
    /// `LF_ONEMETHOD`: a method.
    OneMethod,
    /// `LF_METHOD`: an overloaded method.
    Method,
    /// `LF_ENUMERATE`: an enumerator, its number read as unsigned and as signed
    /// (each absent where the number does not fit that type).
    Enumerate { name: String, as_unsigned: Option<u64>, as_signed: Option<i64> },
    /// `LF_VFUNCTAB`: a virtual function table pointer.
    VFuncTable { ty: u32 },
    /// `LF_INDEX`: the link to the field list that continues this one.
    Index { ty: u32 },
    /// Any other field.
    Other,
}

/// One type record of a TPI or IPI stream. Numeric leaves are given as
/// `Option<u64>`: absent where the number does not fit in a `u64`.
#[derive(Debug)]
pub enum RawType {
    /// `LF_ARRAY`
    Array { element_type: u32, index_type: u32, len: Option<u64> },
    /// `LF_CLASS`, `LF_STRUCTURE` or `LF_INTERFACE`
    Struct {
        name: String,
        unique_name: Option<String>,
        property: u16,
        field_list: u32,
        derivation_list: u32,
        length: Option<u64>,
    },
    /// `LF_UNION`
    Union { name: String, unique_name: Option<String>, property: u16, fields: u32, count: u16, length: Option<u64> },
    /// `LF_ENUM`
    Enum { name: String, unique_name: Option<String>, property: u16, underlying_type: u32, fields: u32 },
    /// `LF_PROCEDURE`
    Proc { return_value: u32, arg_list: u32, call: u8 },
    /// `LF_MFUNCTION`
    MemberFunc { return_value: u32, class: u32, this: u32, arg_list: u32, call: u8, this_adjust: u32 },
    /// `LF_VTSHAPE`
    VTableShape { count: u16, descriptors: Vec<u8> },
    /// `LF_POINTER`, with its attribute word
    Pointer { ty: u32, attr: u32 },
    /// `LF_MODIFIER`, with its attribute word
    Modifier { underlying_type: u32, attributes: u16 },
    /// `LF_BITFIELD`
    Bitfield { underlying_type: u32, length: u8, position: u8 },
    /// `LF_FIELDLIST`: its fields. As decoded from a stream, a record holds
    /// its own fields, with its `LF_INDEX` links; in a stream that is parsed,
    /// it holds those of its whole chain (see `decode::chained`).
    FieldList { fields: Vec<RawField> },
    /// `LF_METHODLIST`
    MethodList,
    /// `LF_ARGLIST`
    ArgList { args: Vec<u32> },
    /// `LF_ALIAS`
    Alias { name: String, utype: u32 },
    /// `LF_UDT_SRC_LINE`
    UdtSrcLine { ty: u32, line: u32 },
    /// `LF_UDT_MOD_SRC_LINE`
    UdtModSrcLine { ty: u32, line: u32 },
    /// `LF_FUNC_ID`
    FuncId { name: String, scope: u32, func_type: u32 },
    /// `LF_MFUNC_ID`
    MFuncId { name: String, parent_type: u32, func_type: u32 },
    /// `LF_STRING_ID`
    StringId { name: String, id: u32 },
    /// `LF_SUBSTR_LIST`
    SubStrList { ids: Vec<u32> },
    /// `LF_BUILDINFO`
    BuildInfo { args: Vec<u32> },
    /// `LF_VFTABLE`
    VFTable { root: u32, path: u32, off: u32, seg: u16 },
    /// A record of a kind that is not recognised.
    Unknown,
}

impl RawType {
    /// Whether the record is of a kind that belongs to the IPI stream.
    pub open spec fn is_ipi_kind(self) -> bool {
        ||| self is UdtSrcLine
        ||| self is UdtModSrcLine
        ||| self is FuncId
        ||| self is MFuncId
        ||| self is StringId
        ||| self is SubStrList
        ||| self is BuildInfo
    }
}

/// A type record as read from its stream: decoded, or not decodable.
#[derive(Debug)]
pub enum RawRecord {
    Parsed(RawType),
    Undecodable,
}

/// A TPI or IPI stream: the records of type indices `begin`, `begin + 1`, ...
/// Indices below `begin` are primitive types. `end` is the header's
/// `type_index_end`: the IPI stream's items are read for the indices from
/// `begin` up to it, while a record is found by its position whatever `end`
/// says.
#[derive(Debug)]
pub struct RawTypeStream {
    pub begin: u32,
    pub end: u32,
    pub records: Vec<RawRecord>,
}

impl RawTypeStream {
    /// Whether `idx` denotes a primitive type in this stream.
    pub open spec fn spec_is_primitive(&self, idx: u32) -> bool {
        idx < self.begin
    }

    /// The record of a non-primitive type index, if the stream has one.
    pub open spec fn spec_record(&self, idx: u32) -> Option<RawRecord> {
        if idx < self.begin || idx - self.begin >= self.records@.len() {
            None
        } else {
            Some(self.records@[idx - self.begin])
        }
    }

    /// The record of a non-primitive type index (see [`Self::spec_record`]).
    pub fn record(&self, idx: u32) -> (r: Option<&RawRecord>)
        ensures
            r == match self.spec_record(idx) {
                Some(rec) => Some(&rec),
                None => None,
            },
    {
        if idx < self.begin {
            return None;
        }
        let rel = (idx - self.begin) as usize;
        if rel >= self.records.len() {
            return None;
        }
        Some(&self.records[rel])
    }

    /// The fields of the field list chain starting at `idx`: those of its
    /// `LF_FIELDLIST` record (which holds the whole chain in a parsed stream),
    /// or none where `idx` has no such record.
    pub open spec fn spec_field_chain(&self, idx: u32) -> Seq<RawField> {
        match self.spec_record(idx) {
            Some(RawRecord::Parsed(RawType::FieldList { fields })) => fields@,
            _ => Seq::empty(),
        }
    }
}

/// A symbol record of a symbol stream.
#[derive(Debug)]
pub enum RawSymbol {
    /// `S_PUB32`: name, flags and section:offset.
    Pub { name: String, flags: u32, segment: u16, offset: u32 },
    /// A procedure (`S_GPROC32`, `S_LPROC32`, ...): the record kind, name, type
    /// index, location, length and prologue/epilogue offsets, and a rendering of
    /// the procedure's type record where the TPI stream has one.
    Proc {
        kind: u16,
        name: String,
        proc_type: u32,
        segment: u16,
        offset: u32,
        proc_len: u32,
        debug_start: u32,
        debug_end: u32,
        signature: Option<String>,
    },
    /// `S_BUILDINFO`: the IPI item it points at, and a rendering of that item's
    /// record where it decodes.
    BuildInfo { item: u32, item_rendering: Option<String> },
    /// A data symbol (`S_GDATA32`, `S_LDATA32`, `S_GMANDATA`, `S_LMANDATA`).
    Data { kind: u16, name: String, type_index: u32, segment: u16, offset: u32 },
    /// Any other symbol kind.
    Other,
    /// A record that could not be decoded.
    Undecodable,
}

} // verus!
