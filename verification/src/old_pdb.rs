//! What the `pdb`-crate based parser (`ezpdb_old`) reports of a PDB, in the shape
//! that the comparison reads, and the `{:?}` text of its records.
use vstd::prelude::*;

use crate::text::{
    debug_opt_num, debug_opt_text, opt_nat, push_debug_opt_text, push_debug_opt_u64,
    push_quoted, push_str, push_u64, quoted_text, decimal_text,
};
use crate::type_size::opt_text;

verus! {

#[derive(Debug, Clone)]
pub struct OldPdbData {
    pub header: HeaderInfo,
    pub types: Vec<TypeInfo>,
    pub symbols: SymbolData,
    pub modules: Vec<ModuleInfo>,
}

#[derive(Debug, Clone)]
pub struct HeaderInfo {
    pub age: u32,
    pub guid: String,
}

#[derive(Debug, Clone)]
pub struct TypeInfo {
    pub index: u32,
    pub kind: String,
    pub name: Option<String>,
    pub size: Option<u64>,
}

#[derive(Debug, Clone)]
pub struct SymbolData {
    pub public_symbols: Vec<PublicSymbol>,
    pub procedures: Vec<ProcedureSymbol>,
    pub data_symbols: Vec<DataSymbol>,
}

#[derive(Debug, Clone)]
pub struct PublicSymbol {
    pub name: String,
    pub offset: Option<u32>,
    pub is_function: bool,
}

#[derive(Debug, Clone)]
pub struct ProcedureSymbol {
    pub name: String,
    pub offset: Option<u32>,
    pub len: u32,
}

#[derive(Debug, Clone)]
pub struct DataSymbol {
    pub name: String,
    pub offset: Option<u32>,
}

#[derive(Debug, Clone)]
pub struct ModuleInfo {
    pub name: String,
    pub object_file: String,
}

/// An optional `u32` as an optional natural number.
pub open spec fn opt_u32_nat(o: Option<u32>) -> Option<nat> {
    match o {
        None => None,
        Some(v) => Some(v as nat),
    }
}

/// Widens an optional `u32`.
pub fn widen(o: Option<u32>) -> (r: Option<u64>)
    ensures
        opt_nat(r) == opt_u32_nat(o),
{
    match o {
        None => None,
        Some(v) => Some(v as u64),
    }
}

impl TypeInfo {
    /// The `{:?}` text of the record.
    pub open spec fn spec_debug_text(self) -> Seq<char> {
        "TypeInfo { index: "@ + decimal_text(self.index as nat) + ", kind: "@ + quoted_text(
            self.kind@,
        ) + ", name: "@ + debug_opt_text(opt_text(self.name)) + ", size: "@ + debug_opt_num(
            opt_nat(self.size),
        ) + " }"@
    }

    /// Renders the record as `{:?}` does (see [`Self::spec_debug_text`]).
    pub fn debug_text(&self) -> (s: String)
        ensures
            s@ == self.spec_debug_text(),
    {
        let mut s = String::new();
        push_str(&mut s, "TypeInfo { index: ");
        push_u64(&mut s, self.index as u64);
        push_str(&mut s, ", kind: ");
        push_quoted(&mut s, self.kind.as_str());
        push_str(&mut s, ", name: ");
        push_debug_opt_text(&mut s, &self.name);
        push_str(&mut s, ", size: ");
        push_debug_opt_u64(&mut s, self.size);
        push_str(&mut s, " }");
        assert(s@ =~= self.spec_debug_text());
        s
    }
}

impl PublicSymbol {
    /// The `{:?}` text of the record.
    pub open spec fn spec_debug_text(self) -> Seq<char> {
        "PublicSymbol { name: "@ + quoted_text(self.name@) + ", offset: "@ + debug_opt_num(
            opt_u32_nat(self.offset),
        ) + ", is_function: "@ + crate::text::bool_text(self.is_function) + " }"@
    }

    /// Renders the record as `{:?}` does (see [`Self::spec_debug_text`]).
    pub fn debug_text(&self) -> (s: String)
        ensures
            s@ == self.spec_debug_text(),
    {
        let mut s = String::new();
        push_str(&mut s, "PublicSymbol { name: ");
        push_quoted(&mut s, self.name.as_str());
        push_str(&mut s, ", offset: ");
        push_debug_opt_u64(&mut s, widen(self.offset));
        push_str(&mut s, ", is_function: ");
        crate::text::push_bool(&mut s, self.is_function);
        push_str(&mut s, " }");
        assert(s@ =~= self.spec_debug_text());
        s
    }
}

impl ProcedureSymbol {
    /// The `{:?}` text of the record.
    pub open spec fn spec_debug_text(self) -> Seq<char> {
        "ProcedureSymbol { name: "@ + quoted_text(self.name@) + ", offset: "@ + debug_opt_num(
            opt_u32_nat(self.offset),
        ) + ", len: "@ + decimal_text(self.len as nat) + " }"@
    }

    /// Renders the record as `{:?}` does (see [`Self::spec_debug_text`]).
    pub fn debug_text(&self) -> (s: String)
        ensures
            s@ == self.spec_debug_text(),
    {
        let mut s = String::new();
        push_str(&mut s, "ProcedureSymbol { name: ");
        push_quoted(&mut s, self.name.as_str());
        push_str(&mut s, ", offset: ");
        push_debug_opt_u64(&mut s, widen(self.offset));
        push_str(&mut s, ", len: ");
        push_u64(&mut s, self.len as u64);
        push_str(&mut s, " }");
        assert(s@ =~= self.spec_debug_text());
        s
    }
}

impl DataSymbol {
    /// The `{:?}` text of the record.
    pub open spec fn spec_debug_text(self) -> Seq<char> {
        "DataSymbol { name: "@ + quoted_text(self.name@) + ", offset: "@ + debug_opt_num(
            opt_u32_nat(self.offset),
        ) + " }"@
    }

    /// Renders the record as `{:?}` does (see [`Self::spec_debug_text`]).
    pub fn debug_text(&self) -> (s: String)
        ensures
            s@ == self.spec_debug_text(),
    {
        let mut s = String::new();
        push_str(&mut s, "DataSymbol { name: ");
        push_quoted(&mut s, self.name.as_str());
        push_str(&mut s, ", offset: ");
        push_debug_opt_u64(&mut s, widen(self.offset));
        push_str(&mut s, " }");
        assert(s@ =~= self.spec_debug_text());
        s
    }
}

impl ModuleInfo {
    /// The `{:?}` text of the record.
    pub open spec fn spec_debug_text(self) -> Seq<char> {
        "ModuleInfo { name: "@ + quoted_text(self.name@) + ", object_file: "@ + quoted_text(
            self.object_file@,
        ) + " }"@
    }

    /// Renders the record as `{:?}` does (see [`Self::spec_debug_text`]).
    pub fn debug_text(&self) -> (s: String)
        ensures
            s@ == self.spec_debug_text(),
    {
        let mut s = String::new();
        push_str(&mut s, "ModuleInfo { name: ");
        push_quoted(&mut s, self.name.as_str());
        push_str(&mut s, ", object_file: ");
        push_quoted(&mut s, self.object_file.as_str());
        push_str(&mut s, " }");
        assert(s@ =~= self.spec_debug_text());
        s
    }
}

} // verus!
