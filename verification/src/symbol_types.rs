//! The parsed PDB and its symbol records.
use std::collections::HashMap;
use vstd::prelude::*;

use crate::sections::{section_offset_to_rva, spec_section_offset_to_rva, ImageSectionHeader};
use crate::text::{hex_text, hex_value, is_hex_digit, lemma_hex_text_reads_back, pow16, push_char, push_hex};
use crate::error::Error;
use crate::records::{RawRecord, RawType, RawTypeStream};
use crate::type_info::Type;

verus! {

/// A reference to a node of a [`ParsedPdb`]'s type arena (`ParsedPdb::nodes`).
/// Two references to one node share it, as the nodes of a type graph do.
#[derive(Debug, Clone, Copy, PartialEq, Eq, Structural)]
pub struct TypeRef(pub usize);

pub type TypeIndexNumber = u32;

/// A PDB that has been fully parsed.
pub struct ParsedPdb {
    pub path: String,
    pub assembly_info: AssemblyInfo,
    pub public_symbols: Vec<PublicSymbol>,
    /// TPI stream types (structs, unions, enums, etc.), by type index
    pub types: HashMap<TypeIndexNumber, TypeRef>,
    /// IPI stream types (FuncId, StringId, BuildInfo, etc.), by type index
    pub ipi_types: HashMap<TypeIndexNumber, TypeRef>,
    /// The type arena: every type node; a [`TypeRef`] is a position in it.
    pub nodes: Vec<Type>,
    /// The keys of `types` in the order in which they were added.
    pub type_order: Vec<TypeIndexNumber>,
    pub procedures: Vec<Procedure>,
    pub global_data: Vec<Data>,
    pub debug_modules: Vec<DebugModule>,
    pub version: Version,
    /// The GUID of the PDB, as its 16 bytes.
    pub guid: [u8; 16],
    pub age: u32,
    pub timestamp: u32,
    pub machine_type: Option<MachineType>,
}

impl ParsedPdb {
    /// Whether the type arena is consistent: every entry of the two type maps
    /// names a node of the arena, every node refers only to nodes before it, and
    /// `type_order` lists exactly the keys of `types`, each once.
    pub open spec fn wf(&self) -> bool {
        &&& forall|k: u32| #[trigger] self.types@.contains_key(k) ==> self.types@[k].0 < self.nodes@.len()
        &&& forall|k: u32| #[trigger] self.ipi_types@.contains_key(k) ==> self.ipi_types@[k].0 < self.nodes@.len()
        &&& forall|i: int| 0 <= i < self.nodes@.len() ==> (#[trigger] self.nodes@[i]).refs_below(i)
        &&& forall|j: int| 0 <= j < self.type_order@.len() ==> self.types@.contains_key(#[trigger] self.type_order@[j])
        &&& forall|k: u32| #[trigger] self.types@.contains_key(k) ==> self.type_order@.contains(k)
        &&& self.type_order@.no_duplicates()
    }

    /// Whether `new` is `self` with nodes, map entries and keys added: every
    /// node, every entry of both maps and the key order of `self` are kept, and
    /// nothing else changes.
    pub open spec fn extended_by(&self, new: &ParsedPdb) -> bool {
        &&& self.nodes@.len() <= new.nodes@.len()
        &&& forall|i: int| 0 <= i < self.nodes@.len() ==> new.nodes@[i] == #[trigger] self.nodes@[i]
        &&& forall|k: u32| #[trigger] self.types@.contains_key(k) ==> new.types@.contains_key(k) && new.types@[k] == self.types@[k]
        &&& forall|k: u32| #[trigger] self.ipi_types@.contains_key(k) ==> new.ipi_types@.contains_key(k) && new.ipi_types@[k] == self.ipi_types@[k]
        &&& self.type_order@.len() <= new.type_order@.len()
        &&& forall|j: int| 0 <= j < self.type_order@.len() ==> new.type_order@[j] == #[trigger] self.type_order@[j]
        &&& new.path == self.path
        &&& new.public_symbols == self.public_symbols
        &&& new.procedures == self.procedures
        &&& new.global_data == self.global_data
        &&& new.debug_modules == self.debug_modules
        &&& new.version == self.version
        &&& new.guid == self.guid
        &&& new.age == self.age
        &&& new.timestamp == self.timestamp
        &&& new.machine_type == self.machine_type
        &&& new.assembly_info == self.assembly_info
    }

    /// Constructs a new, empty [`ParsedPdb`] with the corresponding path.
    pub fn new(path: String) -> (pdb: ParsedPdb)
        ensures
            pdb.path@ == path@,
            pdb.public_symbols@.len() == 0,
            pdb.types@ == Map::<u32, TypeRef>::empty(),
            pdb.ipi_types@ == Map::<u32, TypeRef>::empty(),
            pdb.nodes@.len() == 0,
            pdb.type_order@.len() == 0,
            pdb.procedures@.len() == 0,
            pdb.global_data@.len() == 0,
            pdb.debug_modules@.len() == 0,
            pdb.version == Version::Other(0),
            pdb.guid@ == Seq::new(16, |i: int| 0u8),
            pdb.age == 0,
            pdb.timestamp == 0,
            pdb.machine_type is None,
            pdb.assembly_info.build_info is None,
            pdb.assembly_info.compiler_info is None,
    {
        let pdb = ParsedPdb {
            path,
            assembly_info: AssemblyInfo { build_info: None, compiler_info: None },
            public_symbols: Vec::new(),
            types: HashMap::new(),
            ipi_types: HashMap::new(),
            nodes: Vec::new(),
            type_order: Vec::new(),
            procedures: Vec::new(),
            global_data: Vec::new(),
            debug_modules: Vec::new(),
            version: Version::Other(0),
            guid: [0u8; 16],
            age: 0,
            timestamp: 0,
            machine_type: None,
        };
        assert(pdb.guid@ =~= Seq::new(16, |i: int| 0u8));
        pdb
    }
}

/// The machine a PDB's image was built for (the DBI header's machine field).
#[derive(Debug, Clone, Copy, PartialEq, Eq, Structural)]
pub enum MachineType {
    /// The contents of this field are assumed to be applicable to any machine type.
    Unknown,
    /// Matsushita AM33
    Am33,
    /// x64
    Amd64,
    /// ARM little endian
    Arm,
    /// ARM64 little endian
    Arm64,
    /// ARM Thumb-2 little endian
    ArmNT,
    /// EFI byte code
    Ebc,
    /// Intel 386 or later processors and compatible processors
    X86,
    /// Intel Itanium processor family
    Ia64,
    /// Mitsubishi M32R little endian
    M32R,
    /// MIPS16
    Mips16,
    /// MIPS with FPU
    MipsFpu,
    /// MIPS16 with FPU
    MipsFpu16,
    /// Power PC little endian
    PowerPC,
    /// Power PC with floating point support
    PowerPCFP,
    /// MIPS little endian
    R4000,
    /// RISC-V 32-bit address space
    RiscV32,
    /// RISC-V 64-bit address space
    RiscV64,
    /// RISC-V 128-bit address space
    RiscV128,
    /// Hitachi SH3
    SH3,
    /// Hitachi SH3 DSP
    SH3DSP,
    /// Hitachi SH4
    SH4,
    /// Hitachi SH5
    SH5,
    /// Thumb
    Thumb,
    /// MIPS little-endian WCE v2
    WceMipsV2,
    /// Invalid value
    Invalid,
}

impl MachineType {
    /// The machine type that the DBI header's machine field denotes: 0 is
    /// unknown, 0x14c x86, 0x8664 x64, 0xAA64 ARM64, 0x1c0 ARM, 0x1c4 ARM NT;
    /// other values are not recognised.
    pub open spec fn spec_from_machine(machine: u16) -> Option<MachineType> {
        if machine == 0 {
            Some(MachineType::Unknown)
        } else if machine == 0x14c {
            Some(MachineType::X86)
        } else if machine == 0x8664 {
            Some(MachineType::Amd64)
        } else if machine == 0xAA64 {
            Some(MachineType::Arm64)
        } else if machine == 0x1c0 {
            Some(MachineType::Arm)
        } else if machine == 0x1c4 {
            Some(MachineType::ArmNT)
        } else {
            None
        }
    }

    /// Each recognised machine field denotes its own machine type: x86 images
    /// (0x14c) and only they are X86, x64 images (0x8664) and only they
    /// Amd64, 0xAA64 and only it Arm64, 0x1c0 Arm, 0x1c4 ArmNT, 0 Unknown;
    /// so two fields that denote a machine type denote the same one only where
    /// they are equal.
    pub proof fn lemma_machine_fields_distinct(a: u16, b: u16)
        ensures
            Self::spec_from_machine(a) == Some(MachineType::X86) <==> a == 0x14c,
            Self::spec_from_machine(a) == Some(MachineType::Amd64) <==> a == 0x8664,
            Self::spec_from_machine(a) == Some(MachineType::Arm64) <==> a == 0xAA64,
            Self::spec_from_machine(a) == Some(MachineType::Arm) <==> a == 0x1c0,
            Self::spec_from_machine(a) == Some(MachineType::ArmNT) <==> a == 0x1c4,
            Self::spec_from_machine(a) == Some(MachineType::Unknown) <==> a == 0,
            Self::spec_from_machine(a) is Some && Self::spec_from_machine(a) == Self::spec_from_machine(b) ==> a == b,
    {
    }

    /// Decodes the DBI header's machine field (see [`Self::spec_from_machine`]).
    pub fn from_machine(machine: u16) -> (m: Option<MachineType>)
        ensures
            m == Self::spec_from_machine(machine),
    {
        match machine {
            0 => Some(MachineType::Unknown),
            0x14c => Some(MachineType::X86),
            0x8664 => Some(MachineType::Amd64),
            0xAA64 => Some(MachineType::Arm64),
            0x1c0 => Some(MachineType::Arm),
            0x1c4 => Some(MachineType::ArmNT),
            _ => None,
        }
    }
}

impl MachineType {
    /// The name of the machine type, as `{:?}` renders it.
    pub open spec fn spec_name(self) -> Seq<char> {
        match self {
            MachineType::Unknown => "Unknown"@,
            MachineType::Am33 => "Am33"@,
            MachineType::Amd64 => "Amd64"@,
            MachineType::Arm => "Arm"@,
            MachineType::Arm64 => "Arm64"@,
            MachineType::ArmNT => "ArmNT"@,
            MachineType::Ebc => "Ebc"@,
            MachineType::X86 => "X86"@,
            MachineType::Ia64 => "Ia64"@,
            MachineType::M32R => "M32R"@,
            MachineType::Mips16 => "Mips16"@,
            MachineType::MipsFpu => "MipsFpu"@,
            MachineType::MipsFpu16 => "MipsFpu16"@,
            MachineType::PowerPC => "PowerPC"@,
            MachineType::PowerPCFP => "PowerPCFP"@,
            MachineType::R4000 => "R4000"@,
            MachineType::RiscV32 => "RiscV32"@,
            MachineType::RiscV64 => "RiscV64"@,
            MachineType::RiscV128 => "RiscV128"@,
            MachineType::SH3 => "SH3"@,
            MachineType::SH3DSP => "SH3DSP"@,
            MachineType::SH4 => "SH4"@,
            MachineType::SH5 => "SH5"@,
            MachineType::Thumb => "Thumb"@,
            MachineType::WceMipsV2 => "WceMipsV2"@,
            MachineType::Invalid => "Invalid"@,
        }
    }

    /// The name of the machine type (see [`Self::spec_name`]).
    pub fn name(&self) -> (s: &'static str)
        ensures
            s@ == self.spec_name(),
    {
        match self {
            MachineType::Unknown => "Unknown",
            MachineType::Am33 => "Am33",
            MachineType::Amd64 => "Amd64",
            MachineType::Arm => "Arm",
            MachineType::Arm64 => "Arm64",
            MachineType::ArmNT => "ArmNT",
            MachineType::Ebc => "Ebc",
            MachineType::X86 => "X86",
            MachineType::Ia64 => "Ia64",
            MachineType::M32R => "M32R",
            MachineType::Mips16 => "Mips16",
            MachineType::MipsFpu => "MipsFpu",
            MachineType::MipsFpu16 => "MipsFpu16",
            MachineType::PowerPC => "PowerPC",
            MachineType::PowerPCFP => "PowerPCFP",
            MachineType::R4000 => "R4000",
            MachineType::RiscV32 => "RiscV32",
            MachineType::RiscV64 => "RiscV64",
            MachineType::RiscV128 => "RiscV128",
            MachineType::SH3 => "SH3",
            MachineType::SH3DSP => "SH3DSP",
            MachineType::SH4 => "SH4",
            MachineType::SH5 => "SH5",
            MachineType::Thumb => "Thumb",
            MachineType::WceMipsV2 => "WceMipsV2",
            MachineType::Invalid => "Invalid",
        }
    }
}

/// The PDB format version recorded in the PDB information stream.
#[derive(Debug, Clone, Copy, PartialEq, Eq, Structural)]
pub enum Version {
    V41,
    V50,
    V60,
    V70,
    V110,
    Other(u32),
}

/// The version that a raw version number of the PDB information stream denotes.
pub open spec fn spec_version(version: u32) -> Version {
    if version == 20000404 {
        Version::V41
    } else if version == 20040203 {
        Version::V50
    } else {
        Version::Other(version)
    }
}

/// Maps the raw version number of the PDB information stream to a [`Version`].
pub fn convert_version(version: u32) -> (v: Version)
    ensures
        v == spec_version(version),
{
    match version {
        20000404 => Version::V41,
        20040203 => Version::V50,
        _ => Version::Other(version),
    }
}

#[derive(Debug)]
pub struct AssemblyInfo {
    pub build_info: Option<BuildInfo>,
    pub compiler_info: Option<CompilerInfo>,
}

#[derive(Debug)]
pub struct BuildInfo {
    pub arguments: Vec<String>,
}

#[derive(Debug)]
pub struct CompilerInfo {
    pub language: String,
    pub flags: CompileFlags,
    pub cpu_type: String,
    pub frontend_version: CompilerVersion,
    pub backend_version: CompilerVersion,
    pub version_string: String,
}

#[derive(Debug)]
pub struct CompileFlags {
    /// Compiled for edit and continue.
    pub edit_and_continue: bool,
    /// Compiled without debugging info.
    pub no_debug_info: bool,
    /// Compiled with `LTCG`.
    pub link_time_codegen: bool,
    /// Compiled with `/bzalign`.
    pub no_data_align: bool,
    /// Managed code or data is present.
    pub managed: bool,
    /// Compiled with `/GS`.
    pub security_checks: bool,
    /// Compiled with `/hotpatch`.
    pub hot_patch: bool,
    /// Compiled with `CvtCIL`.
    pub cvtcil: bool,
    /// This is a MSIL .NET Module.
    pub msil_module: bool,
    /// Compiled with `/sdl`.
    pub sdl: bool,
    /// Compiled with `/ltcg:pgo` or `pgo:`.
    pub pgo: bool,
    /// This is a .exp module.
    pub exp_module: bool,
}

#[derive(Debug)]
pub struct CompilerVersion {
    pub major: u16,
    pub minor: u16,
    pub build: u16,
    pub qfe: Option<u16>,
}

#[derive(Debug)]
pub struct DebugModule {
    pub name: String,
    pub object_file_name: String,
    pub source_files: Option<Vec<FileInfo>>,
}

#[derive(Debug)]
pub enum Checksum {
    NoChecksum,
    Md5(Vec<u8>),
    Sha1(Vec<u8>),
    Sha256(Vec<u8>),
}

impl Checksum {
    /// The checksum of a source file, from its checksum kind (0 none, 1 MD5,
    /// 2 SHA-1, 3 SHA-256; other kinds are taken as none) and its bytes.
    pub fn from_kind(kind: u8, data: Vec<u8>) -> (c: Checksum)
        ensures
            kind == 1 ==> (c matches Checksum::Md5(d) && d@ == data@),
            kind == 2 ==> (c matches Checksum::Sha1(d) && d@ == data@),
            kind == 3 ==> (c matches Checksum::Sha256(d) && d@ == data@),
            (kind == 0 || kind > 3) ==> c is NoChecksum,
    {
        match kind {
            1 => Checksum::Md5(data),
            2 => Checksum::Sha1(data),
            3 => Checksum::Sha256(data),
            _ => Checksum::NoChecksum,
        }
    }
}

#[derive(Debug)]
pub struct FileInfo {
    pub name: String,
    pub checksum: Checksum,
}

/// The section that a raw 1-based section number names: none for 0 (invalid).
pub open spec fn spec_section(section_num: u16) -> Option<u16> {
    if section_num == 0 {
        None
    } else {
        Some(section_num)
    }
}

/// The absolute address of a symbol: its RVA plus the base address, where both
/// are known. The sum is taken modulo the width of `usize`, as a release build
/// of `rva + base` computes it.
pub open spec fn spec_address(rva: Option<usize>, base_address: Option<usize>) -> Option<usize> {
    match (rva, base_address) {
        (Some(r), Some(b)) => Some(r.wrapping_add(b)),
        _ => None,
    }
}

/// Where the sum fits, the address is exactly the RVA plus the base address.
pub proof fn lemma_address_is_sum(r: usize, b: usize)
    requires
        r + b <= usize::MAX,
    ensures
        spec_address(Some(r), Some(b)) == Some((r + b) as usize),
{
}

fn address_of(rva: Option<usize>, base_address: Option<usize>) -> (a: Option<usize>)
    ensures
        a == spec_address(rva, base_address),
{
    match (rva, base_address) {
        (Some(r), Some(b)) => Some(r.wrapping_add(b)),
        _ => None,
    }
}

/// The headers of an optional table, as a sequence.
pub open spec fn headers_view(headers: Option<Vec<ImageSectionHeader>>) -> Option<Seq<ImageSectionHeader>> {
    match headers {
        Some(v) => Some(v@),
        None => None,
    }
}

/// The "section:offset" text of a location: the section (0 where there is none)
/// as 4 lowercase hexadecimal digits, a colon, the offset as 8.
pub open spec fn spec_format_location(section: Option<u16>, section_offset: u32) -> Seq<char> {
    hex_text(
        match section {
            Some(s) => s as nat,
            None => 0,
        },
        4,
    ).push(':') + hex_text(section_offset as nat, 8)
}

/// A location's text reads back as the location: 13 characters, of which the
/// 4 hexadecimal digits before the colon read as the section (0 where there is
/// none) and the 8 after it as the whole section offset.
pub proof fn lemma_location_reads_back(section: Option<u16>, section_offset: u32)
    ensures
        ({
            let t = spec_format_location(section, section_offset);
            &&& t.len() == 13
            &&& t[4] == ':'
            &&& hex_value(t.subrange(0, 4)) == (match section {
                Some(s) => s as nat,
                None => 0,
            })
            &&& hex_value(t.subrange(5, 13)) == section_offset as nat
            &&& forall|i: int| 0 <= i < 13 && i != 4 ==> is_hex_digit(#[trigger] t[i])
        }),
{
    let sec: nat = match section {
        Some(s) => s as nat,
        None => 0,
    };
    assert(pow16(4) == 0x10000) by {
        reveal_with_fuel(pow16, 5);
    }
    assert(pow16(8) == 0x1_0000_0000) by {
        reveal_with_fuel(pow16, 9);
    }
    lemma_hex_text_reads_back(sec, 4);
    lemma_hex_text_reads_back(section_offset as nat, 8);
    let a = hex_text(sec, 4);
    let b = hex_text(section_offset as nat, 8);
    let t = spec_format_location(section, section_offset);
    assert(t == a.push(':') + b);
    assert(t.subrange(0, 4) =~= a);
    assert(t.subrange(5, 13) =~= b);
    assert forall|i: int| 0 <= i < 13 && i != 4 implies is_hex_digit(#[trigger] t[i]) by {
        if i < 4 {
            assert(t[i] == a[i]);
        } else {
            assert(t[i] == b[i - 5]);
        }
    }
}

fn format_location_text(section: Option<u16>, section_offset: u32) -> (s: String)
    ensures
        s@ == spec_format_location(section, section_offset),
{
    let mut s = String::new();
    let sec: u16 = match section {
        Some(v) => v,
        None => 0,
    };
    push_hex(&mut s, sec as u32, 4);
    push_char(&mut s, ':');
    push_hex(&mut s, section_offset, 8);
    assert(s@ =~= spec_format_location(section, section_offset));
    s
}

/// A public symbol exported from a module.
#[derive(Debug)]
pub struct PublicSymbol {
    /// The name of the symbol.
    pub name: String,
    /// True if this symbol represents executable code.
    pub is_code: bool,
    /// True if this symbol represents a function.
    pub is_function: bool,
    /// True if this symbol is managed code.
    pub is_managed: bool,
    /// True if this symbol is MSIL (Microsoft Intermediate Language).
    pub is_msil: bool,
    /// The section number this symbol is located in (1-based).
    /// None if the section is invalid (0).
    pub section: Option<u16>,
    /// The offset within the PE section, in bytes from the start of that section.
    pub section_offset: u32,
    /// The Relative Virtual Address (RVA) of this symbol: the section's
    /// virtual address plus `section_offset`. None if the section is invalid or
    /// the section headers could not be loaded.
    pub rva: Option<usize>,
    /// The RVA plus the base address given when parsing; None if either is absent.
    pub address: Option<usize>,
}

/// Whether `s` is the public symbol that an `S_PUB32` record with these fields gives.
pub open spec fn public_symbol_from(
    s: PublicSymbol,
    name: Seq<char>,
    flags: u32,
    section_num: u16,
    section_offset: u32,
    headers: Option<Seq<ImageSectionHeader>>,
    base_address: Option<usize>,
) -> bool {
    &&& s.name@ == name
    &&& s.is_code == (flags & 1 != 0)
    &&& s.is_function == (flags & 2 != 0)
    &&& s.is_managed == (flags & 4 != 0)
    &&& s.is_msil == (flags & 8 != 0)
    &&& s.section == spec_section(section_num)
    &&& s.section_offset == section_offset
    &&& s.rva == spec_section_offset_to_rva(headers, section_num, section_offset)
    &&& s.address == spec_address(s.rva, base_address)
}

impl PublicSymbol {
    /// Builds a public symbol from the fields of an `S_PUB32` record: its name,
    /// flags word (bit 0 code, bit 1 function, bit 2 managed, bit 3 MSIL) and
    /// section:offset, with the image's section headers and optional base address.
    pub fn from_record(
        name: String,
        flags: u32,
        section_num: u16,
        section_offset: u32,
        headers: &Option<Vec<ImageSectionHeader>>,
        base_address: Option<usize>,
    ) -> (s: PublicSymbol)
        ensures
            s.name@ == name@,
            s.is_code == (flags & 1 != 0),
            s.is_function == (flags & 2 != 0),
            s.is_managed == (flags & 4 != 0),
            s.is_msil == (flags & 8 != 0),
            s.section == spec_section(section_num),
            s.section_offset == section_offset,
            s.rva == spec_section_offset_to_rva(headers_view(*headers), section_num, section_offset),
            s.address == spec_address(s.rva, base_address),
    {
        let rva = section_offset_to_rva(headers, section_num, section_offset);
        let section = if section_num == 0 {
            None
        } else {
            Some(section_num)
        };
        PublicSymbol {
            name,
            is_code: flags & 1 != 0,
            is_function: flags & 2 != 0,
            is_managed: flags & 4 != 0,
            is_msil: flags & 8 != 0,
            section,
            section_offset,
            rva,
            address: address_of(rva, base_address),
        }
    }

    /// Returns true if this symbol has a valid location (valid section and RVA).
    pub fn has_valid_location(&self) -> (b: bool)
        ensures
            b == (self.section is Some && self.rva is Some),
    {
        self.section.is_some() && self.rva.is_some()
    }

    /// Returns the section and offset as a tuple, if the section is valid.
    pub fn section_and_offset(&self) -> (r: Option<(u16, u32)>)
        ensures
            r == match self.section {
                Some(sec) => Some((sec, self.section_offset)),
                None => None,
            },
    {
        match self.section {
            Some(sec) => Some((sec, self.section_offset)),
            None => None,
        }
    }

    /// Formats the symbol location as "section:offset", e.g. "0001:00001000".
    pub fn format_location(&self) -> (s: String)
        ensures
            s@ == spec_format_location(self.section, self.section_offset),
    {
        format_location_text(self.section, self.section_offset)
    }
}

/// A data symbol (global or local variable).
#[derive(Debug, Clone)]
pub struct Data {
    /// The name of the data symbol.
    pub name: String,
    /// True if this is a global data symbol (S_GDATA32/S_GMANDATA).
    pub is_global: bool,
    /// True if this is managed data (S_GMANDATA/S_LMANDATA).
    pub is_managed: bool,
    /// The type of this data symbol.
    pub ty: TypeRef,
    /// The section number this symbol is located in (1-based); None if invalid (0).
    pub section: Option<u16>,
    /// The offset within the PE section, in bytes from the start of that section.
    pub section_offset: u32,
    /// The RVA: the section's virtual address plus `section_offset`.
    pub rva: Option<usize>,
    /// The RVA plus the base address given when parsing.
    pub address: Option<usize>,
}

impl Data {
    /// Returns true if this symbol has a valid location (valid section and RVA).
    pub fn has_valid_location(&self) -> (b: bool)
        ensures
            b == (self.section is Some && self.rva is Some),
    {
        self.section.is_some() && self.rva.is_some()
    }

    /// Returns the section and offset as a tuple, if the section is valid.
    pub fn section_and_offset(&self) -> (r: Option<(u16, u32)>)
        ensures
            r == match self.section {
                Some(sec) => Some((sec, self.section_offset)),
                None => None,
            },
    {
        match self.section {
            Some(sec) => Some((sec, self.section_offset)),
            None => None,
        }
    }

    /// Formats the symbol location as "section:offset".
    pub fn format_location(&self) -> (s: String)
        ensures
            s@ == spec_format_location(self.section, self.section_offset),
    {
        format_location_text(self.section, self.section_offset)
    }
}

/// A procedure (function) symbol.
#[derive(Debug, Clone)]
pub struct Procedure {
    /// The name of the procedure/function.
    pub name: String,
    /// A rendering of the procedure's type record (for debugging).
    pub signature: Option<String>,
    /// The type index for the procedure's type information.
    pub type_index: TypeIndexNumber,
    /// The section number this procedure is located in (1-based); None if invalid (0).
    pub section: Option<u16>,
    /// The offset of the procedure's start within its PE section.
    pub section_offset: u32,
    /// The RVA of the entry point: the section's virtual address plus `section_offset`.
    pub rva: Option<usize>,
    /// The RVA plus the base address given when parsing.
    pub address: Option<usize>,
    /// The length of this procedure in bytes.
    pub len: usize,
    /// True if this is a global procedure (S_GPROC32/S_GPROC32_ID).
    pub is_global: bool,
    /// True if this is a DPC (Deferred Procedure Call) procedure.
    pub is_dpc: bool,
    /// Offset in bytes from the procedure start to the end of the prologue.
    pub prologue_end: usize,
    /// Offset in bytes from the procedure start to the start of the epilogue.
    pub epilogue_start: usize,
}

/// The end of a range that starts at `start` and is `len` long, saturated at
/// the largest `usize`.
pub open spec fn saturating_end(start: usize, len: usize) -> usize {
    if start + len > usize::MAX {
        usize::MAX
    } else {
        (start + len) as usize
    }
}

impl Procedure {
    /// Returns true if this procedure has a valid location (valid section and RVA).
    pub fn has_valid_location(&self) -> (b: bool)
        ensures
            b == (self.section is Some && self.rva is Some),
    {
        self.section.is_some() && self.rva.is_some()
    }

    /// Returns the section and offset as a tuple, if the section is valid.
    pub fn section_and_offset(&self) -> (r: Option<(u16, u32)>)
        ensures
            r == match self.section {
                Some(sec) => Some((sec, self.section_offset)),
                None => None,
            },
    {
        match self.section {
            Some(sec) => Some((sec, self.section_offset)),
            None => None,
        }
    }

    /// Formats the procedure location as "section:offset".
    pub fn format_location(&self) -> (s: String)
        ensures
            s@ == spec_format_location(self.section, self.section_offset),
    {
        format_location_text(self.section, self.section_offset)
    }

    /// Returns the end RVA of this procedure (start RVA + length, saturating).
    pub fn end_rva(&self) -> (r: Option<usize>)
        ensures
            r == match self.rva {
                Some(s) => Some(saturating_end(s, self.len)),
                None => None,
            },
    {
        match self.rva {
            Some(rva) => Some(rva.saturating_add(self.len)),
            None => None,
        }
    }

    /// Returns the end address of this procedure (start address + length, saturating).
    pub fn end_address(&self) -> (r: Option<usize>)
        ensures
            r == match self.address {
                Some(s) => Some(saturating_end(s, self.len)),
                None => None,
            },
    {
        match self.address {
            Some(addr) => Some(addr.saturating_add(self.len)),
            None => None,
        }
    }

    /// Returns true if the given RVA falls within this procedure's range.
    pub fn contains_rva(&self, rva: usize) -> (b: bool)
        ensures
            b == match self.rva {
                Some(s) => s <= rva < saturating_end(s, self.len),
                None => false,
            },
    {
        if let Some(start_rva) = self.rva {
            let end_rva = start_rva.saturating_add(self.len);
            rva >= start_rva && rva < end_rva
        } else {
            false
        }
    }

    /// Returns true if the given address falls within this procedure's range.
    pub fn contains_address(&self, address: usize) -> (b: bool)
        ensures
            b == match self.address {
                Some(s) => s <= address < saturating_end(s, self.len),
                None => false,
            },
    {
        if let Some(start_addr) = self.address {
            let end_addr = start_addr.saturating_add(self.len);
            address >= start_addr && address < end_addr
        } else {
            false
        }
    }
}


/// CodeView symbol kinds that the parser distinguishes.
pub const S_GPROC32: u16 = 0x1110;
pub const S_GPROC32_ID: u16 = 0x1147;
pub const S_LPROC32_DPC: u16 = 0x1155;
pub const S_GDATA32: u16 = 0x110d;
pub const S_GMANDATA: u16 = 0x111d;
pub const S_LMANDATA: u16 = 0x111c;

/// Whether `p` is the procedure that a procedure record with these fields
/// gives: a global one for `S_GPROC32` and `S_GPROC32_ID`, a DPC one for
/// `S_LPROC32_DPC`.
pub open spec fn procedure_from(
    p: Procedure,
    kind: u16,
    name: Seq<char>,
    proc_type: u32,
    section_num: u16,
    section_offset: u32,
    proc_len: u32,
    debug_start: u32,
    debug_end: u32,
    signature: Option<Seq<char>>,
    headers: Option<Seq<ImageSectionHeader>>,
    base_address: Option<usize>,
) -> bool {
    &&& p.name@ == name
    &&& crate::type_size::opt_text(p.signature) == signature
    &&& p.type_index == proc_type
    &&& p.section == spec_section(section_num)
    &&& p.section_offset == section_offset
    &&& p.rva == spec_section_offset_to_rva(headers, section_num, section_offset)
    &&& p.address == spec_address(p.rva, base_address)
    &&& p.len == proc_len as usize
    &&& p.is_global == (kind == S_GPROC32 || kind == S_GPROC32_ID)
    &&& p.is_dpc == (kind == S_LPROC32_DPC)
    &&& p.prologue_end == debug_start as usize
    &&& p.epilogue_start == debug_end as usize
}

impl Procedure {
    /// Builds a procedure from the fields of a procedure record (`S_GPROC32`,
    /// `S_LPROC32`, ...) with the image's section headers and optional base address.
    pub fn from_record(
        kind: u16,
        name: String,
        proc_type: u32,
        section_num: u16,
        section_offset: u32,
        proc_len: u32,
        debug_start: u32,
        debug_end: u32,
        signature: Option<String>,
        headers: &Option<Vec<ImageSectionHeader>>,
        base_address: Option<usize>,
    ) -> (p: Procedure)
        ensures
            procedure_from(
                p,
                kind,
                name@,
                proc_type,
                section_num,
                section_offset,
                proc_len,
                debug_start,
                debug_end,
                crate::type_size::opt_text(signature),
                headers_view(*headers),
                base_address,
            ),
    {
        let rva = section_offset_to_rva(headers, section_num, section_offset);
        let section = if section_num == 0 {
            None
        } else {
            Some(section_num)
        };
        Procedure {
            name,
            signature,
            type_index: proc_type,
            section,
            section_offset,
            rva,
            address: address_of(rva, base_address),
            len: proc_len as usize,
            is_global: kind == S_GPROC32 || kind == S_GPROC32_ID,
            is_dpc: kind == S_LPROC32_DPC,
            prologue_end: debug_start as usize,
            epilogue_start: debug_end as usize,
        }
    }
}

/// Whether `d` is the data symbol that a data record with these fields gives,
/// its type `ty`: global for `S_GDATA32` and `S_GMANDATA`, managed for
/// `S_GMANDATA` and `S_LMANDATA`.
pub open spec fn data_from(
    d: Data,
    kind: u16,
    name: Seq<char>,
    ty: TypeRef,
    section_num: u16,
    section_offset: u32,
    headers: Option<Seq<ImageSectionHeader>>,
    base_address: Option<usize>,
) -> bool {
    &&& d.name@ == name
    &&& d.ty == ty
    &&& d.is_global == (kind == S_GDATA32 || kind == S_GMANDATA)
    &&& d.is_managed == (kind == S_GMANDATA || kind == S_LMANDATA)
    &&& d.section == spec_section(section_num)
    &&& d.section_offset == section_offset
    &&& d.rva == spec_section_offset_to_rva(headers, section_num, section_offset)
    &&& d.address == spec_address(d.rva, base_address)
}

impl Data {
    /// Builds a data symbol from the fields of a data record. Its type must be
    /// one of the parsed TPI types (`types`); else it is an unresolved type.
    pub fn from_record(
        kind: u16,
        name: String,
        type_index: u32,
        section_num: u16,
        section_offset: u32,
        headers: &Option<Vec<ImageSectionHeader>>,
        base_address: Option<usize>,
        types: &HashMap<TypeIndexNumber, TypeRef>,
    ) -> (r: Result<Data, Error>)
        ensures
            r is Ok <==> types@.contains_key(type_index),
            r matches Ok(d) ==> data_from(
                d,
                kind,
                name@,
                types@[type_index],
                section_num,
                section_offset,
                headers_view(*headers),
                base_address,
            ),
            r matches Err(e) ==> e == Error::UnresolvedType(type_index),
    {
        broadcast use vstd::std_specs::hash::group_hash_axioms;

        let ty = match types.get(&type_index) {
            Some(t) => *t,
            None => return Err(Error::UnresolvedType(type_index)),
        };
        let rva = section_offset_to_rva(headers, section_num, section_offset);
        let section = if section_num == 0 {
            None
        } else {
            Some(section_num)
        };
        Ok(
            Data {
                name,
                is_global: kind == S_GDATA32 || kind == S_GMANDATA,
                is_managed: kind == S_GMANDATA || kind == S_LMANDATA,
                ty,
                section,
                section_offset,
                rva,
                address: address_of(rva, base_address),
            },
        )
    }
}

/// The names of the string items among `args` (zero ids skipped), in order.
pub open spec fn string_args(ipi: RawTypeStream, args: Seq<u32>) -> Seq<Seq<char>>
    decreases args.len(),
{
    if args.len() == 0 {
        Seq::empty()
    } else {
        let rest = string_args(ipi, args.drop_last());
        let a = args.last();
        if a == 0 {
            rest
        } else {
            match ipi.spec_record(a) {
                Some(RawRecord::Parsed(RawType::StringId { name, .. })) => rest.push(name@),
                _ => rest,
            }
        }
    }
}

/// The arguments of the build information that an `S_BUILDINFO` symbol points
/// at (`item` in the IPI stream): the names of the string items of an
/// `LF_BUILDINFO` record; the rendering of any other record (where there is
/// one); none where the item has no decodable record.
pub open spec fn build_info_arguments(ipi: RawTypeStream, item: u32, rendering: Option<Seq<char>>) -> Seq<
    Seq<char>,
> {
    match ipi.spec_record(item) {
        Some(RawRecord::Parsed(RawType::BuildInfo { args })) => string_args(ipi, args@),
        Some(RawRecord::Parsed(_)) => match rendering {
            Some(t) => seq![t],
            None => Seq::empty(),
        },
        _ => Seq::empty(),
    }
}

impl BuildInfo {
    /// The build information that an `S_BUILDINFO` symbol points at (see
    /// [`build_info_arguments`]).
    pub fn from_item(ipi: &RawTypeStream, item: u32, rendering: &Option<String>) -> (b: BuildInfo)
        ensures
            b.arguments@.map_values(|s: String| s@) == build_info_arguments(
                *ipi,
                item,
                crate::type_size::opt_text(*rendering),
            ),
    {
        let mut arguments: Vec<String> = Vec::new();
        match ipi.record(item) {
            Some(RawRecord::Parsed(RawType::BuildInfo { args })) => {
                let mut k: usize = 0;
                while k < args.len()
                    invariant
                        0 <= k <= args@.len(),
                        arguments@.map_values(|s: String| s@) == string_args(
                            *ipi,
                            args@.subrange(0, k as int),
                        ),
                    decreases args@.len() - k,
                {
                    let ghost prev = arguments@;
                    assert(args@.subrange(0, (k + 1) as int).drop_last() =~= args@.subrange(
                        0,
                        k as int,
                    ));
                    assert(args@.subrange(0, (k + 1) as int).last() == args@[k as int]);
                    let a = args[k];
                    if a != 0 {
                        match ipi.record(a) {
                            Some(RawRecord::Parsed(RawType::StringId { name, .. })) => {
                                arguments.push(name.clone());
                                assert(arguments@.map_values(|s: String| s@) =~= prev.map_values(
                                    |s: String| s@,
                                ).push(name@));
                            },
                            _ => {},
                        }
                    }
                    k = k + 1;
                }
                assert(args@.subrange(0, args@.len() as int) =~= args@);
            },
            Some(RawRecord::Parsed(_)) => {
                if let Some(text) = rendering {
                    arguments.push(text.clone());
                    assert(arguments@.map_values(|s: String| s@) =~= seq![text@]);
                }
            },
            _ => {},
        }
        proof {
            if arguments@.len() == 0 {
                assert(arguments@.map_values(|s: String| s@) =~= Seq::<Seq<char>>::empty());
            }
        }
        BuildInfo { arguments }
    }
}

} // verus!
