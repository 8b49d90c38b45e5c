//! Building a [`ParsedPdb`] from the streams of a PDB: header values, the TPI
//! and IPI type records, the section headers and the symbol streams.
use vstd::prelude::*;

use crate::convert::{handle_ipi_type, handle_type};
use crate::error::Error;
use crate::records::{RawRecord, RawSymbol, RawTypeStream};
use crate::sections::{decode_section_headers, spec_section_offset_to_rva, ImageSectionHeader};
use crate::type_size::{completed_key, same_but_dims, spec_dimensions};
use crate::type_info::Type;
use crate::symbol_types::{
    convert_version, data_from, headers_view, procedure_from, public_symbol_from, spec_version,
    BuildInfo, Data, DebugModule, MachineType, ParsedPdb, Procedure, PublicSymbol,
    TypeRef,
};
use crate::type_size::{complete_types, opt_text};
use crate::convert::{
    added_from, converts_in_order, holds_converted, ipi_converts_in_order, ipi_entry_converts,
    ipi_holds_converted, lemma_added_trans, lemma_holds_converted_kept, refs_backward, holds_exactly,
    entries_of, entry_exact, lemma_entries_of_kept, lemma_exact_step, lemma_holds_exactly_kept,
    lemma_tries_exact, node_of,
    lemma_in_order_converts_from, lemma_in_order_step, lemma_ipi_in_order_converts_from,
    lemma_ipi_in_order_step, lemma_tpi_entry_mono, tpi_entry_converts,
};

verus! {

broadcast use vstd::std_specs::hash::group_hash_axioms;

/// A debug module of the DBI stream: its name, object file name and, where
/// its stream could be read, its symbols.
#[derive(Debug)]
pub struct RawModule {
    pub name: String,
    pub object_file_name: String,
    pub symbols: Option<Vec<RawSymbol>>,
}

/// What the parser reads of a PDB file.
#[derive(Debug)]
pub struct PdbInput {
    /// The path the PDB was read from.
    pub path: String,
    /// The DBI header's machine field.
    pub machine: u16,
    /// The DBI header's age.
    pub age: u32,
    /// The GUID of the PDB information stream's binding key.
    pub guid: [u8; 16],
    /// The PDB information stream's signature (a timestamp).
    pub signature: u32,
    /// The PDB information stream's version number.
    pub version: u32,
    /// The TPI stream.
    pub tpi: RawTypeStream,
    /// The IPI stream, where it could be read.
    pub ipi: Option<RawTypeStream>,
    /// The section header stream named by the DBI stream's optional debug
    /// header, where there is one and it could be read.
    pub section_headers: Option<Vec<u8>>,
    /// The global symbol stream.
    pub global_symbols: Vec<RawSymbol>,
    /// The debug modules, in order.
    pub modules: Vec<RawModule>,
}

// ---------------------------------------------------------------------------
// Symbols
// ---------------------------------------------------------------------------

/// The `S_PUB32` records among `s`, in order.
pub open spec fn pub_records(s: Seq<RawSymbol>) -> Seq<RawSymbol>
    decreases s.len(),
{
    if s.len() == 0 {
        Seq::empty()
    } else {
        let r = pub_records(s.drop_last());
        if s.last() is Pub {
            r.push(s.last())
        } else {
            r
        }
    }
}

/// The procedure records among `s`, in order.
pub open spec fn proc_records(s: Seq<RawSymbol>) -> Seq<RawSymbol>
    decreases s.len(),
{
    if s.len() == 0 {
        Seq::empty()
    } else {
        let r = proc_records(s.drop_last());
        if s.last() is Proc {
            r.push(s.last())
        } else {
            r
        }
    }
}

/// The data records among `s` whose type is one of `types`, in order.
pub open spec fn data_records(s: Seq<RawSymbol>, types: Map<u32, TypeRef>) -> Seq<RawSymbol>
    decreases s.len(),
{
    if s.len() == 0 {
        Seq::empty()
    } else {
        let r = data_records(s.drop_last(), types);
        match s.last() {
            RawSymbol::Data { type_index, .. } => if types.contains_key(type_index) {
                r.push(s.last())
            } else {
                r
            },
            _ => r,
        }
    }
}

/// The build information arguments after the symbols `s`, starting from
/// `prev`: each `S_BUILDINFO` replaces them, where the IPI stream is present.
pub open spec fn last_build_info(
    s: Seq<RawSymbol>,
    ipi: Option<RawTypeStream>,
    prev: Option<Seq<Seq<char>>>,
) -> Option<Seq<Seq<char>>>
    decreases s.len(),
{
    if s.len() == 0 {
        prev
    } else {
        let r = last_build_info(s.drop_last(), ipi, prev);
        match (s.last(), ipi) {
            (RawSymbol::BuildInfo { item, item_rendering }, Some(stream)) => Some(
                crate::symbol_types::build_info_arguments(stream, item, opt_text(item_rendering)),
            ),
            _ => r,
        }
    }
}

/// The build information arguments of an assembly, as text.
pub open spec fn build_view(b: Option<BuildInfo>) -> Option<Seq<Seq<char>>> {
    match b {
        Some(info) => Some(info.arguments@.map_values(|s: String| s@)),
        None => None,
    }
}

/// Whether public symbol `s` is the conversion of record `rec`.
pub open spec fn pub_converts(
    s: PublicSymbol,
    rec: RawSymbol,
    headers: Option<Seq<ImageSectionHeader>>,
    base: Option<usize>,
) -> bool {
    match rec {
        RawSymbol::Pub { name, flags, segment, offset } => public_symbol_from(
            s,
            name@,
            flags,
            segment,
            offset,
            headers,
            base,
        ),
        _ => false,
    }
}

/// Whether procedure `p` is the conversion of record `rec`.
pub open spec fn proc_converts(
    p: Procedure,
    rec: RawSymbol,
    headers: Option<Seq<ImageSectionHeader>>,
    base: Option<usize>,
) -> bool {
    match rec {
        RawSymbol::Proc {
            kind,
            name,
            proc_type,
            segment,
            offset,
            proc_len,
            debug_start,
            debug_end,
            signature,
        } => procedure_from(
            p,
            kind,
            name@,
            proc_type,
            segment,
            offset,
            proc_len,
            debug_start,
            debug_end,
            opt_text(signature),
            headers,
            base,
        ),
        _ => false,
    }
}

/// Whether data symbol `d` is the conversion of record `rec`, its type
/// resolved through `types`.
pub open spec fn data_converts(
    d: Data,
    rec: RawSymbol,
    types: Map<u32, TypeRef>,
    headers: Option<Seq<ImageSectionHeader>>,
    base: Option<usize>,
) -> bool {
    match rec {
        RawSymbol::Data { kind, name, type_index, segment, offset } => data_from(
            d,
            kind,
            name@,
            types[type_index],
            segment,
            offset,
            headers,
            base,
        ),
        _ => false,
    }
}

/// Whether list `after` is list `before` followed by the conversions of `recs`.
pub open spec fn pubs_appended(
    before: Seq<PublicSymbol>,
    after: Seq<PublicSymbol>,
    recs: Seq<RawSymbol>,
    headers: Option<Seq<ImageSectionHeader>>,
    base: Option<usize>,
) -> bool {
    &&& after.len() == before.len() + recs.len()
    &&& forall|i: int| 0 <= i < before.len() ==> after[i] == before[i]
    &&& forall|i: int|
        0 <= i < recs.len() ==> pub_converts(#[trigger] after[before.len() + i], recs[i], headers, base)
}

/// Whether list `after` is list `before` followed by the conversions of `recs`.
pub open spec fn procs_appended(
    before: Seq<Procedure>,
    after: Seq<Procedure>,
    recs: Seq<RawSymbol>,
    headers: Option<Seq<ImageSectionHeader>>,
    base: Option<usize>,
) -> bool {
    &&& after.len() == before.len() + recs.len()
    &&& forall|i: int| 0 <= i < before.len() ==> after[i] == before[i]
    &&& forall|i: int|
        0 <= i < recs.len() ==> proc_converts(#[trigger] after[before.len() + i], recs[i], headers, base)
}

/// Whether list `after` is list `before` followed by the conversions of `recs`.
pub open spec fn data_appended(
    before: Seq<Data>,
    after: Seq<Data>,
    recs: Seq<RawSymbol>,
    types: Map<u32, TypeRef>,
    headers: Option<Seq<ImageSectionHeader>>,
    base: Option<usize>,
) -> bool {
    &&& after.len() == before.len() + recs.len()
    &&& forall|i: int| 0 <= i < before.len() ==> after[i] == before[i]
    &&& forall|i: int|
        0 <= i < recs.len() ==> data_converts(
            #[trigger] after[before.len() + i],
            recs[i],
            types,
            headers,
            base,
        )
}

/// Whether `after` is `before` with the symbols `syms` of one stream handled:
/// public symbols and procedures appended, data symbols of resolvable type
/// appended where the stream is the global one, the build information replaced
/// by the last `S_BUILDINFO`'s (where the IPI stream is present), and nothing
/// else changed.
pub open spec fn symbols_handled(
    before: ParsedPdb,
    after: ParsedPdb,
    syms: Seq<RawSymbol>,
    headers: Option<Seq<ImageSectionHeader>>,
    ipi: Option<RawTypeStream>,
    base: Option<usize>,
    is_global_stream: bool,
) -> bool {
    &&& pubs_appended(before.public_symbols@, after.public_symbols@, pub_records(syms), headers, base)
    &&& procs_appended(before.procedures@, after.procedures@, proc_records(syms), headers, base)
    &&& if is_global_stream {
        data_appended(
            before.global_data@,
            after.global_data@,
            data_records(syms, before.types@),
            before.types@,
            headers,
            base,
        )
    } else {
        after.global_data@ == before.global_data@
    }
    &&& build_view(after.assembly_info.build_info) == last_build_info(
        syms,
        ipi,
        build_view(before.assembly_info.build_info),
    )
    &&& after.assembly_info.compiler_info == before.assembly_info.compiler_info
    &&& after.types == before.types
    &&& after.ipi_types == before.ipi_types
    &&& after.nodes == before.nodes
    &&& after.type_order == before.type_order
    &&& after.debug_modules == before.debug_modules
    &&& after.path == before.path
    &&& after.version == before.version
    &&& after.guid == before.guid
    &&& after.age == before.age
    &&& after.timestamp == before.timestamp
    &&& after.machine_type == before.machine_type
}

/// Handles the symbols of one stream (see [`symbols_handled`]). Records that
/// are not decodable, of other kinds, or data records whose type is not among
/// the parsed TPI types are left out.
pub fn handle_symbols_for_stream(
    syms: &Vec<RawSymbol>,
    pdb: &mut ParsedPdb,
    headers: &Option<Vec<ImageSectionHeader>>,
    ipi: &Option<RawTypeStream>,
    base_address: Option<usize>,
    is_global_stream: bool,
)
    ensures
        symbols_handled(
            *old(pdb),
            *final(pdb),
            syms@,
            headers_view(*headers),
            *ipi,
            base_address,
            is_global_stream,
        ),
{
    let ghost hv = headers_view(*headers);
    let mut k: usize = 0;
    while k < syms.len()
        invariant
            0 <= k <= syms@.len(),
            hv == headers_view(*headers),
            symbols_handled(
                *old(pdb),
                *pdb,
                syms@.subrange(0, k as int),
                hv,
                *ipi,
                base_address,
                is_global_stream,
            ),
        decreases syms@.len() - k,
    {
        let ghost prev = *pdb;
        let ghost pre = syms@.subrange(0, k as int);
        let ghost cur = syms@.subrange(0, (k + 1) as int);
        assert(cur.drop_last() =~= pre);
        assert(cur.last() == syms@[k as int]);
        match &syms[k] {
            RawSymbol::Pub { name, flags, segment, offset } => {
                let s = PublicSymbol::from_record(
                    name.clone(),
                    *flags,
                    *segment,
                    *offset,
                    headers,
                    base_address,
                );
                pdb.public_symbols.push(s);
            },
            RawSymbol::Proc {
                kind,
                name,
                proc_type,
                segment,
                offset,
                proc_len,
                debug_start,
                debug_end,
                signature,
            } => {
                let sig = match signature {
                    Some(t) => Some(t.clone()),
                    None => None,
                };
                let p = Procedure::from_record(
                    *kind,
                    name.clone(),
                    *proc_type,
                    *segment,
                    *offset,
                    *proc_len,
                    *debug_start,
                    *debug_end,
                    sig,
                    headers,
                    base_address,
                );
                pdb.procedures.push(p);
            },
            RawSymbol::BuildInfo { item, item_rendering } => {
                if let Some(stream) = ipi {
                    let info = BuildInfo::from_item(stream, *item, item_rendering);
                    pdb.assembly_info.build_info = Some(info);
                }
            },
            RawSymbol::Data { kind, name, type_index, segment, offset } => {
                if let Ok(d) = Data::from_record(
                    *kind,
                    name.clone(),
                    *type_index,
                    *segment,
                    *offset,
                    headers,
                    base_address,
                    &pdb.types,
                ) {
                    if is_global_stream {
                        pdb.global_data.push(d);
                    }
                }
            },
            _ => {},
        }
        proof {
            let o = *old(pdb);
            assert(pdb.public_symbols@.len() == o.public_symbols@.len() + pub_records(cur).len());
            assert forall|i: int| 0 <= i < pub_records(cur).len() implies pub_converts(
                #[trigger] pdb.public_symbols@[o.public_symbols@.len() + i],
                pub_records(cur)[i],
                hv,
                base_address,
            ) by {
                if i < pub_records(pre).len() {
                    assert(pub_records(cur)[i] == pub_records(pre)[i]);
                }
            }
            assert forall|i: int| 0 <= i < proc_records(cur).len() implies proc_converts(
                #[trigger] pdb.procedures@[o.procedures@.len() + i],
                proc_records(cur)[i],
                hv,
                base_address,
            ) by {
                if i < proc_records(pre).len() {
                    assert(proc_records(cur)[i] == proc_records(pre)[i]);
                }
            }
            if is_global_stream {
                assert forall|i: int| 0 <= i < data_records(cur, o.types@).len() implies data_converts(
                    #[trigger] pdb.global_data@[o.global_data@.len() + i],
                    data_records(cur, o.types@)[i],
                    o.types@,
                    hv,
                    base_address,
                ) by {
                    if i < data_records(pre, o.types@).len() {
                        assert(data_records(cur, o.types@)[i] == data_records(pre, o.types@)[i]);
                    }
                }
            }
        }
        k = k + 1;
    }
    assert(syms@.subrange(0, syms@.len() as int) =~= syms@);
}


// ---------------------------------------------------------------------------
// The whole parse
// ---------------------------------------------------------------------------

/// The symbols of the module streams that could be read, in module order.
pub open spec fn module_symbols(mods: Seq<RawModule>) -> Seq<RawSymbol>
    decreases mods.len(),
{
    if mods.len() == 0 {
        Seq::empty()
    } else {
        module_symbols(mods.drop_last()) + match mods.last().symbols {
            Some(v) => v@,
            None => Seq::empty(),
        }
    }
}

/// Every symbol the parse handles: the global stream's, then the modules'.
pub open spec fn all_symbols(input: PdbInput) -> Seq<RawSymbol> {
    input.global_symbols@ + module_symbols(input.modules@)
}

/// Whether `hs` is the section header table that the optional section header
/// stream holds: none without a stream or where its length is not a multiple
/// of a record's; else one header per 40-byte record, in order.
pub open spec fn headers_decoded(bytes: Option<Vec<u8>>, hs: Option<Seq<ImageSectionHeader>>) -> bool {
    match bytes {
        None => hs is None,
        Some(b) => if b@.len() % 40 != 0 {
            hs is None
        } else {
            &&& hs is Some
            &&& hs->0.len() * 40 == b@.len()
            &&& forall|i: int|
                0 <= i < hs->0.len() ==> ImageSectionHeader::decodes(
                    #[trigger] hs->0[i],
                    b@.subrange(40 * i, 40 * i + 40),
                )
        },
    }
}

/// Whether debug module `m` is what the module record `r` gives.
pub open spec fn module_from(m: DebugModule, r: RawModule) -> bool {
    &&& m.name@ == r.name@
    &&& m.object_file_name@ == r.object_file_name@
    &&& m.source_files is None
}

/// Whether the header values of `pdb` are those the input gives.
pub open spec fn header_from(pdb: ParsedPdb, input: PdbInput) -> bool {
    &&& pdb.path@ == input.path@
    &&& pdb.machine_type == MachineType::spec_from_machine(input.machine)
    &&& pdb.age == input.age
    &&& pdb.guid == input.guid
    &&& pdb.timestamp == input.signature
    &&& pdb.version == spec_version(input.version)
}

/// Whether the symbols of `pdb` are the conversions of the input's symbols,
/// with the section header table `hs`: the public symbols and procedures of
/// every stream, the data symbols (of resolvable type) of the global stream,
/// the build information of the last `S_BUILDINFO` (where the IPI stream is
/// present), and no compiler information.
pub open spec fn symbols_from(
    pdb: ParsedPdb,
    input: PdbInput,
    hs: Option<Seq<ImageSectionHeader>>,
    base: Option<usize>,
) -> bool {
    let syms = all_symbols(input);
    &&& pubs_appended(Seq::empty(), pdb.public_symbols@, pub_records(syms), hs, base)
    &&& procs_appended(Seq::empty(), pdb.procedures@, proc_records(syms), hs, base)
    &&& data_appended(
        Seq::empty(),
        pdb.global_data@,
        data_records(input.global_symbols@, pdb.types@),
        pdb.types@,
        hs,
        base,
    )
    &&& build_view(pdb.assembly_info.build_info) == last_build_info(syms, input.ipi, None)
    &&& pdb.assembly_info.compiler_info is None
}

/// Whether the type maps of `p` hold conversions out of the input's streams:
/// every TPI map entry is a conversion out of the TPI stream or (where the
/// TPI kinds of records appear there) of the IPI stream; every IPI map entry
/// is a conversion out of the IPI stream.
pub open spec fn entries_from(p: ParsedPdb, input: PdbInput) -> bool {
    &&& forall|k: u32|
        #[trigger] p.types@.contains_key(k) ==> tpi_entry_converts(p, input.tpi, k) || (
        input.ipi is Some && tpi_entry_converts(p, input.ipi->0, k))
    &&& forall|k: u32|
        #[trigger] p.ipi_types@.contains_key(k) ==> input.ipi is Some && ipi_entry_converts(
            p,
            input.ipi->0,
            k,
        )
}

/// Whether the nodes of `done` are those of `types` with every array
/// completed (see [`completed_key`]), and nothing else changed.
pub open spec fn arrays_completed(types: ParsedPdb, done: ParsedPdb) -> bool {
    &&& types.nodes@.len() == done.nodes@.len()
    &&& forall|i: int| 0 <= i < types.nodes@.len() ==> same_but_dims(#[trigger] types.nodes@[i], done.nodes@[i])
    &&& forall|k: u32| #[trigger] types.types@.contains_key(k) ==> completed_key(types, done, k)
}

/// Whether some array among the TPI types of `p` has an element type without a size.
pub open spec fn has_unsized_array(p: ParsedPdb) -> bool {
    exists|k: u32|
        #[trigger] p.types@.contains_key(k) && match p.nodes@[p.types@[k].0 as int] {
            Type::Array(a) => spec_dimensions(p, a) is None,
            _ => false,
        }
}

proof fn lemma_pub_records_append(a: Seq<RawSymbol>, b: Seq<RawSymbol>)
    ensures
        pub_records(a + b) == pub_records(a) + pub_records(b),
    decreases b.len(),
{
    if b.len() == 0 {
        assert(a + b =~= a);
        assert(pub_records(b) =~= Seq::<RawSymbol>::empty());
        assert(pub_records(a) + pub_records(b) =~= pub_records(a));
    } else {
        lemma_pub_records_append(a, b.drop_last());
        assert((a + b).drop_last() =~= a + b.drop_last());
        assert((a + b).last() == b.last());
        if b.last() is Pub {
            assert(pub_records(a) + pub_records(b) =~= (pub_records(a) + pub_records(b.drop_last())).push(b.last()));
        } else {
            assert(pub_records(a) + pub_records(b) =~= pub_records(a) + pub_records(b.drop_last()));
        }
    }
}

proof fn lemma_proc_records_append(a: Seq<RawSymbol>, b: Seq<RawSymbol>)
    ensures
        proc_records(a + b) == proc_records(a) + proc_records(b),
    decreases b.len(),
{
    if b.len() == 0 {
        assert(a + b =~= a);
        assert(proc_records(b) =~= Seq::<RawSymbol>::empty());
        assert(proc_records(a) + proc_records(b) =~= proc_records(a));
    } else {
        lemma_proc_records_append(a, b.drop_last());
        assert((a + b).drop_last() =~= a + b.drop_last());
        assert((a + b).last() == b.last());
        if b.last() is Proc {
            assert(proc_records(a) + proc_records(b) =~= (proc_records(a) + proc_records(b.drop_last())).push(b.last()));
        } else {
            assert(proc_records(a) + proc_records(b) =~= proc_records(a) + proc_records(b.drop_last()));
        }
    }
}

proof fn lemma_last_build_info_append(
    a: Seq<RawSymbol>,
    b: Seq<RawSymbol>,
    ipi: Option<RawTypeStream>,
    prev: Option<Seq<Seq<char>>>,
)
    ensures
        last_build_info(a + b, ipi, prev) == last_build_info(b, ipi, last_build_info(a, ipi, prev)),
    decreases b.len(),
{
    if b.len() == 0 {
        assert(a + b =~= a);
    } else {
        lemma_last_build_info_append(a, b.drop_last(), ipi, prev);
        assert((a + b).drop_last() =~= a + b.drop_last());
        assert((a + b).last() == b.last());
    }
}

/// Handling two streams in turn handles their concatenation.
proof fn lemma_symbols_handled_trans(
    a: ParsedPdb,
    b: ParsedPdb,
    c: ParsedPdb,
    s1: Seq<RawSymbol>,
    s2: Seq<RawSymbol>,
    hs: Option<Seq<ImageSectionHeader>>,
    ipi: Option<RawTypeStream>,
    base: Option<usize>,
)
    requires
        symbols_handled(a, b, s1, hs, ipi, base, false),
        symbols_handled(b, c, s2, hs, ipi, base, false),
    ensures
        symbols_handled(a, c, s1 + s2, hs, ipi, base, false),
{
    lemma_pub_records_append(s1, s2);
    lemma_proc_records_append(s1, s2);
    lemma_last_build_info_append(s1, s2, ipi, build_view(a.assembly_info.build_info));
    let p1 = pub_records(s1);
    let p2 = pub_records(s2);
    assert forall|i: int| 0 <= i < (p1 + p2).len() implies pub_converts(
        #[trigger] c.public_symbols@[a.public_symbols@.len() + i],
        (p1 + p2)[i],
        hs,
        base,
    ) by {
        if i < p1.len() {
            assert(c.public_symbols@[a.public_symbols@.len() + i] == b.public_symbols@[a.public_symbols@.len() + i]);
        } else {
            let j = i - p1.len();
            assert(c.public_symbols@[b.public_symbols@.len() + j] == c.public_symbols@[a.public_symbols@.len() + i]);
        }
    }
    let q1 = proc_records(s1);
    let q2 = proc_records(s2);
    assert forall|i: int| 0 <= i < (q1 + q2).len() implies proc_converts(
        #[trigger] c.procedures@[a.procedures@.len() + i],
        (q1 + q2)[i],
        hs,
        base,
    ) by {
        if i < q1.len() {
            assert(c.procedures@[a.procedures@.len() + i] == b.procedures@[a.procedures@.len() + i]);
        } else {
            let j = i - q1.len();
            assert(c.procedures@[b.procedures@.len() + j] == c.procedures@[a.procedures@.len() + i]);
        }
    }
}

/// The recursion budget for converting the records of a stream: a chain of
/// references that does not loop visits each record at most once in each of
/// the two maps.
fn conversion_fuel(n: usize) -> (f: usize)
    ensures
        f >= n,
        f == (if 2 * n <= usize::MAX {
            2 * n
        } else {
            usize::MAX as int
        }),
{
    if n <= usize::MAX / 2 {
        2 * n
    } else {
        usize::MAX
    }
}

/// How many records of a stream have a type index: those whose index
/// (`begin` plus their position) fits in 32 bits.
fn indexed_count(begin: u32, n: usize) -> (c: usize)
    ensures
        c <= n,
        c as int + begin as int <= u32::MAX as int + 1,
        c == n || c as int + begin as int == u32::MAX as int + 1,
{
    let room: u64 = (u32::MAX as u64) - (begin as u64) + 1;
    if (n as u64) <= room {
        n
    } else {
        room as usize
    }
}

/// How many of the first `indexed` records of a stream starting at `begin`
/// lie below index `end`.
fn items_below_end(begin: u32, end: u32, indexed: usize) -> (c: usize)
    ensures
        c <= indexed,
        end <= begin ==> c == 0,
        end > begin && indexed as int > end - begin ==> c as int == end - begin,
        end > begin && indexed as int <= end - begin ==> c == indexed,
{
    if end <= begin {
        0
    } else if (indexed as u64) < ((end - begin) as u64) {
        indexed
    } else {
        (end - begin) as usize
    }
}

/// Converts every record of a type stream, in index order, through the TPI
/// map (`ipi == false`) or the IPI map (after TPI stream `tpi`; there only
/// the items below the stream's `end`). Records whose conversion fails are
/// left out; every record that converts in order is entered.
fn convert_stream(pdb: &mut ParsedPdb, stream: &RawTypeStream, ipi: bool, tpi: Ghost<RawTypeStream>)
    requires
        old(pdb).wf(),
        ipi ==> holds_converted(*old(pdb), tpi@),
        !ipi ==> old(pdb).types@ == Map::<u32, TypeRef>::empty(),
    ensures
        final(pdb).wf(),
        old(pdb).extended_by(&*final(pdb)),
        added_from(*old(pdb), *final(pdb), *stream),
        !ipi ==> final(pdb).ipi_types@ == old(pdb).ipi_types@,
        !ipi ==> holds_converted(*final(pdb), *stream),
        !ipi && refs_backward(*stream) ==> holds_exactly(*final(pdb), *stream),
        ipi ==> ipi_holds_converted(*final(pdb), tpi@, *stream),
{
    let fuel = conversion_fuel(stream.records.len());
    let indexed = indexed_count(stream.begin, stream.records.len());
    let n = if ipi { items_below_end(stream.begin, stream.end, indexed) } else { indexed };
    let mut k: usize = 0;
    while k < n
        invariant
            pdb.wf(),
            old(pdb).extended_by(&*pdb),
            added_from(*old(pdb), *pdb, *stream),
            !ipi ==> pdb.ipi_types@ == old(pdb).ipi_types@,
            k <= n,
            n <= stream.records@.len() <= fuel,
            n as int + stream.begin as int <= u32::MAX as int + 1,
            !ipi ==> n == indexed,
            ipi && stream.end <= stream.begin ==> n == 0,
            ipi && stream.end > stream.begin && indexed as int > stream.end - stream.begin ==> n as int
                == stream.end - stream.begin,
            ipi && stream.end > stream.begin && indexed as int <= stream.end - stream.begin ==> n == indexed,
            indexed == stream.records@.len() || indexed as int + stream.begin as int == u32::MAX as int + 1,
            !ipi ==> forall|j: u32|
                j < stream.begin + k && #[trigger] converts_in_order(*pdb, *stream, j)
                    ==> pdb.types@.contains_key(j),
            !ipi ==> entries_of(*pdb, *stream),
            !ipi && refs_backward(*stream) ==> forall|j: u32|
                #[trigger] pdb.types@.contains_key(j) ==> j < stream.begin || j < stream.begin + k,
            !ipi && refs_backward(*stream) ==> forall|j: u32|
                j < stream.begin + k && #[trigger] converts_in_order(*pdb, *stream, j) ==> entry_exact(
                    *pdb,
                    *stream,
                    j,
                ),
            ipi ==> holds_converted(*pdb, tpi@),
            ipi ==> forall|j: u32|
                j < stream.begin + k && #[trigger] ipi_converts_in_order(*pdb, tpi@, *stream, j)
                    ==> pdb.ipi_types@.contains_key(j),
        decreases n - k,
    {
        let idx = stream.begin + k as u32;
        let ghost before = *pdb;
        if ipi {
            proof {
                if ipi_converts_in_order(before, tpi@, *stream, idx) {
                    lemma_ipi_in_order_converts_from(before, tpi@, *stream, idx);
                }
            }
            let _ = handle_ipi_type(idx, pdb, stream, fuel);
            proof {
                lemma_ipi_in_order_step(before, *pdb, tpi@, *stream, idx);
                lemma_holds_converted_kept(before, *pdb, tpi@);
            }
        } else {
            proof {
                if converts_in_order(before, *stream, idx) {
                    lemma_in_order_converts_from(before, *stream, idx);
                }
            }
            let res = handle_type(idx, pdb, stream, fuel);
            proof {
                lemma_in_order_step(before, *pdb, *stream, idx);
                lemma_entries_of_kept(before, *pdb, *stream);
                if refs_backward(*stream) {
                    if converts_in_order(before, *stream, idx) {
                        assert(!before.types@.contains_key(idx));
                        if let (Some(RawRecord::Parsed(raw)), Ok(t)) = (stream.spec_record(idx), res) {
                            lemma_tries_exact(raw, node_of(*pdb, t), *stream, before, *pdb);
                        }
                        assert(entry_exact(*pdb, *stream, idx));
                    }
                    lemma_exact_step(before, *pdb, *stream, idx);
                }
            }
        }
        assert(old(pdb).extended_by(&*pdb));
        proof {
            lemma_added_trans(*old(pdb), before, *pdb, *stream);
        }
        k = k + 1;
    }
    proof {
        if !ipi {
            assert forall|j: u32| #[trigger] converts_in_order(*pdb, *stream, j) implies pdb.types@.contains_key(
                j,
            ) by {
                if j >= stream.begin + n {
                    assert(stream.spec_record(j) is None);
                }
            }
            if refs_backward(*stream) {
                assert forall|j: u32| #[trigger] converts_in_order(*pdb, *stream, j) implies entry_exact(
                    *pdb,
                    *stream,
                    j,
                ) by {
                    if j >= stream.begin + n {
                        assert(stream.spec_record(j) is None);
                    }
                }
            }
        } else {
            assert forall|j: u32| j < stream.end && #[trigger] ipi_converts_in_order(*pdb, tpi@, *stream, j) implies pdb.ipi_types@.contains_key(
                j,
            ) by {
                if j >= stream.begin + n {
                    assert(stream.spec_record(j) is None);
                }
            }
        }
    }
}

/// The outcome of a parse of `input`, where `types` is the parsed PDB once all
/// type records are converted: the header values come from the input; every
/// map entry is a conversion of its record, and the maps hold every record
/// that converts in index order (see [`converts_in_order`] and
/// [`ipi_converts_in_order`]), and, where the TPI records refer only to
/// earlier ones, those entries keep every field, pointer target, return type
/// and `this` type whose record does not fail at once (see
/// [`holds_exactly`]); the parse fails exactly where an array type of
/// `types` has an element type without a size; else the result is `types`
/// with its arrays completed, the debug modules of the input, and the
/// conversions of its symbols.
pub open spec fn parse_outcome(
    input: PdbInput,
    base: Option<usize>,
    types: ParsedPdb,
    r: Result<ParsedPdb, Error>,
) -> bool {
    &&& types.wf()
    &&& header_from(types, input)
    &&& entries_from(types, input)
    &&& holds_converted(types, input.tpi)
    &&& refs_backward(input.tpi) ==> holds_exactly(types, input.tpi)
    &&& input.ipi matches Some(s) ==> ipi_holds_converted(types, input.tpi, s)
    &&& (r is Err <==> has_unsized_array(types))
    &&& r matches Ok(pdb) ==> {
        &&& pdb.wf()
        &&& header_from(pdb, input)
        &&& pdb.types == types.types
        &&& pdb.ipi_types == types.ipi_types
        &&& pdb.type_order == types.type_order
        &&& arrays_completed(types, pdb)
        &&& pdb.debug_modules@.len() == input.modules@.len()
        &&& forall|i: int|
            0 <= i < input.modules@.len() ==> module_from(
                #[trigger] pdb.debug_modules@[i],
                input.modules@[i],
            )
        &&& exists|hs: Option<Seq<ImageSectionHeader>>|
            #[trigger] headers_decoded(input.section_headers, hs) && symbols_from(pdb, input, hs, base)
    }
}

/// Builds the parsed PDB from what was read of a PDB file: the header values,
/// the TPI types, then the IPI types, then the arrays completed (see
/// [`complete_types`]); the symbols of the global stream and of every module
/// stream that could be read, with locations resolved through the section
/// header table; and the debug modules, in order. It fails only where an array
/// type's element type has no size.
pub fn parse_pdb_data(input: PdbInput, base_address: Option<usize>) -> (r: Result<ParsedPdb, Error>)
    ensures
        exists|types: ParsedPdb| #[trigger] parse_outcome(input, base_address, types, r),
{
    let ghost input0 = input;
    let PdbInput {
        path,
        machine,
        age,
        guid,
        signature,
        version,
        tpi,
        ipi,
        section_headers,
        global_symbols,
        modules,
    } = input;
    let mut pdb = ParsedPdb::new(path);
    pdb.machine_type = MachineType::from_machine(machine);
    pdb.age = age;
    pdb.guid = guid;
    pdb.timestamp = signature;
    pdb.version = convert_version(version);
    let ghost start = pdb;

    assert(start.types@ =~= Map::<u32, TypeRef>::empty());
    assert(start.ipi_types@ =~= Map::<u32, TypeRef>::empty());
    convert_stream(&mut pdb, &tpi, false, Ghost(tpi));
    let ghost after_tpi = pdb;
    assert(holds_converted(after_tpi, tpi));
    assert(forall|k: u32| #[trigger] after_tpi.types@.contains_key(k) ==> tpi_entry_converts(after_tpi, tpi, k));
    assert(after_tpi.ipi_types@ =~= Map::<u32, TypeRef>::empty());
    if let Some(stream) = &ipi {
        convert_stream(&mut pdb, stream, true, Ghost(tpi));
        proof {
            lemma_holds_converted_kept(after_tpi, pdb, tpi);
            if refs_backward(tpi) {
                lemma_holds_exactly_kept(after_tpi, pdb, tpi);
            }
            assert forall|k: u32| #[trigger] pdb.types@.contains_key(k) implies tpi_entry_converts(pdb, tpi, k)
                || tpi_entry_converts(pdb, *stream, k) by {
                if after_tpi.types@.contains_key(k) {
                    lemma_tpi_entry_mono(after_tpi, pdb, tpi, k);
                }
            }
        }
    }
    let ghost types = pdb;
    assert(header_from(types, input0));
    assert(entries_from(types, input0));

    match complete_types(&mut pdb) {
        Ok(()) => {},
        Err(e) => {
            assert(has_unsized_array(types)) by {
                let j = choose|j: int|
                    0 <= j < types.type_order@.len() && match types.nodes@[types.types@[#[trigger] types.type_order@[j]].0 as int] {
                        Type::Array(a) => spec_dimensions(types, a) is None,
                        _ => false,
                    };
                let k = types.type_order@[j];
                assert(types.types@.contains_key(k));
            }
            assert(parse_outcome(input0, base_address, types, Err::<ParsedPdb, Error>(e)));
            return Err(e);
        },
    }
    assert(arrays_completed(types, pdb)) by {
        assert forall|k: u32| #[trigger] types.types@.contains_key(k) implies completed_key(types, pdb, k) by {
            assert(types.type_order@.contains(k));
            let j = choose|j: int| 0 <= j < types.type_order@.len() && types.type_order@[j] == k;
        }
    }
    assert(!has_unsized_array(types)) by {
        if has_unsized_array(types) {
            let k = choose|k: u32|
                #[trigger] types.types@.contains_key(k) && match types.nodes@[types.types@[k].0 as int] {
                    Type::Array(a) => spec_dimensions(types, a) is None,
                    _ => false,
                };
            assert(completed_key(types, pdb, k));
        }
    }
    let ghost completed = pdb;

    let headers = match &section_headers {
        Some(bytes) => decode_section_headers(bytes.as_slice()),
        None => None,
    };
    let ghost hs = headers_view(headers);
    assert(headers_decoded(section_headers, hs));

    handle_symbols_for_stream(&global_symbols, &mut pdb, &headers, &ipi, base_address, true);
    let ghost after_global = pdb;

    let mut m: usize = 0;
    while m < modules.len()
        invariant
            0 <= m <= modules@.len(),
            pdb.debug_modules@.len() == m,
            forall|i: int| 0 <= i < m ==> module_from(#[trigger] pdb.debug_modules@[i], modules@[i]),
            pdb.public_symbols == after_global.public_symbols,
            pdb.procedures == after_global.procedures,
            pdb.global_data == after_global.global_data,
            pdb.assembly_info == after_global.assembly_info,
            pdb.types == after_global.types,
            pdb.ipi_types == after_global.ipi_types,
            pdb.nodes == after_global.nodes,
            pdb.type_order == after_global.type_order,
            pdb.path == after_global.path,
            pdb.version == after_global.version,
            pdb.guid == after_global.guid,
            pdb.age == after_global.age,
            pdb.timestamp == after_global.timestamp,
            pdb.machine_type == after_global.machine_type,
        decreases modules@.len() - m,
    {
        let module = &modules[m];
        pdb.debug_modules.push(
            DebugModule {
                name: module.name.clone(),
                object_file_name: module.object_file_name.clone(),
                source_files: None,
            },
        );
        m = m + 1;
    }
    let ghost with_modules = pdb;

    let mut m: usize = 0;
    while m < modules.len()
        invariant
            0 <= m <= modules@.len(),
            hs == headers_view(headers),
            symbols_handled(
                with_modules,
                pdb,
                module_symbols(modules@.subrange(0, m as int)),
                hs,
                ipi,
                base_address,
                false,
            ),
        decreases modules@.len() - m,
    {
        let ghost before = pdb;
        let ghost done = modules@.subrange(0, m as int);
        let ghost next = modules@.subrange(0, (m + 1) as int);
        assert(next.drop_last() =~= done);
        assert(next.last() == modules@[m as int]);
        if let Some(syms) = &modules[m].symbols {
            handle_symbols_for_stream(syms, &mut pdb, &headers, &ipi, base_address, false);
            proof {
                lemma_symbols_handled_trans(with_modules, before, pdb, module_symbols(done), syms@, hs, ipi, base_address);
            }
        } else {
            assert(module_symbols(next) =~= module_symbols(done));
        }
        m = m + 1;
    }
    assert(modules@.subrange(0, modules@.len() as int) =~= modules@);
    proof {
        let g = global_symbols@;
        let ms = module_symbols(modules@);
        lemma_pub_records_append(g, ms);
        lemma_proc_records_append(g, ms);
        lemma_last_build_info_append(g, ms, ipi, None);
        assert(all_symbols(input0) == g + ms);
        let p1 = pub_records(g);
        let p2 = pub_records(ms);
        assert forall|i: int| 0 <= i < (p1 + p2).len() implies pub_converts(
            #[trigger] pdb.public_symbols@[0 + i],
            (p1 + p2)[i],
            hs,
            base_address,
        ) by {
            if i < p1.len() {
                assert(pdb.public_symbols@[i] == after_global.public_symbols@[0 + i]);
            } else {
                let j = i - p1.len();
                assert(pdb.public_symbols@[with_modules.public_symbols@.len() + j] == pdb.public_symbols@[0 + i]);
            }
        }
        let q1 = proc_records(g);
        let q2 = proc_records(ms);
        assert forall|i: int| 0 <= i < (q1 + q2).len() implies proc_converts(
            #[trigger] pdb.procedures@[0 + i],
            (q1 + q2)[i],
            hs,
            base_address,
        ) by {
            if i < q1.len() {
                assert(pdb.procedures@[i] == after_global.procedures@[0 + i]);
            } else {
                let j = i - q1.len();
                assert(pdb.procedures@[with_modules.procedures@.len() + j] == pdb.procedures@[0 + i]);
            }
        }
        assert(completed.global_data@ =~= Seq::<Data>::empty());
        assert(completed.public_symbols@ =~= Seq::<PublicSymbol>::empty());
        assert(completed.procedures@ =~= Seq::<Procedure>::empty());
        assert(completed.types@ == pdb.types@);
        assert(pubs_appended(Seq::empty(), pdb.public_symbols@, pub_records(all_symbols(input0)), hs, base_address));
        assert(procs_appended(Seq::empty(), pdb.procedures@, proc_records(all_symbols(input0)), hs, base_address));
        assert(data_appended(Seq::empty(), pdb.global_data@, data_records(input0.global_symbols@, pdb.types@), pdb.types@, hs, base_address));
        assert(build_view(pdb.assembly_info.build_info) == last_build_info(all_symbols(input0), input0.ipi, None));
        assert(symbols_from(pdb, input0, hs, base_address));
        assert(header_from(pdb, input0));
        assert(headers_decoded(input0.section_headers, hs));
        assert(parse_outcome(input0, base_address, types, Ok::<ParsedPdb, Error>(pdb)));
    }
    Ok(pdb)
}


// ---------------------------------------------------------------------------
// Laws of a parse
// ---------------------------------------------------------------------------

/// Two section header tables decoded from one stream give every location the
/// same RVA.
proof fn lemma_rva_determined(
    bytes: Option<Vec<u8>>,
    hs1: Option<Seq<ImageSectionHeader>>,
    hs2: Option<Seq<ImageSectionHeader>>,
    section: u16,
    offset: u32,
)
    requires
        headers_decoded(bytes, hs1),
        headers_decoded(bytes, hs2),
    ensures
        spec_section_offset_to_rva(hs1, section, offset) == spec_section_offset_to_rva(hs2, section, offset),
{
    if let (Some(a), Some(b)) = (hs1, hs2) {
        assert(a.len() == b.len()) by (nonlinear_arith)
            requires
                a.len() * 40 == b.len() * 40,
        ;
        if section != 0 && section <= a.len() {
            let i = section - 1;
            assert(ImageSectionHeader::decodes(a[i], bytes->0@.subrange(40 * i, 40 * i + 40)));
            assert(ImageSectionHeader::decodes(b[i], bytes->0@.subrange(40 * i, 40 * i + 40)));
        }
    }
}

/// Two parses of one input that differ only in the base address agree on the
/// name, section, section offset and RVA of every public symbol and procedure.
pub proof fn lemma_locations_independent_of_base(
    input: PdbInput,
    base1: Option<usize>,
    base2: Option<usize>,
    pdb1: ParsedPdb,
    pdb2: ParsedPdb,
)
    requires
        exists|types: ParsedPdb| parse_outcome(input, base1, types, Ok(pdb1)),
        exists|types: ParsedPdb| parse_outcome(input, base2, types, Ok(pdb2)),
    ensures
        pdb1.public_symbols@.len() == pdb2.public_symbols@.len(),
        forall|i: int|
            0 <= i < pdb1.public_symbols@.len() ==> {
                let (a, b) = (#[trigger] pdb1.public_symbols@[i], pdb2.public_symbols@[i]);
                a.name@ == b.name@ && a.section == b.section && a.section_offset == b.section_offset
                    && a.rva == b.rva
            },
        pdb1.procedures@.len() == pdb2.procedures@.len(),
        forall|i: int|
            0 <= i < pdb1.procedures@.len() ==> {
                let (a, b) = (#[trigger] pdb1.procedures@[i], pdb2.procedures@[i]);
                a.name@ == b.name@ && a.section == b.section && a.section_offset == b.section_offset
                    && a.rva == b.rva && a.len == b.len
            },
{
    let t1 = choose|types: ParsedPdb| parse_outcome(input, base1, types, Ok(pdb1));
    let t2 = choose|types: ParsedPdb| parse_outcome(input, base2, types, Ok(pdb2));
    let hs1 = choose|hs: Option<Seq<ImageSectionHeader>>|
        #[trigger] headers_decoded(input.section_headers, hs) && symbols_from(pdb1, input, hs, base1);
    let hs2 = choose|hs: Option<Seq<ImageSectionHeader>>|
        #[trigger] headers_decoded(input.section_headers, hs) && symbols_from(pdb2, input, hs, base2);
    let recs = pub_records(all_symbols(input));
    assert forall|i: int| 0 <= i < pdb1.public_symbols@.len() implies {
        let (a, b) = (#[trigger] pdb1.public_symbols@[i], pdb2.public_symbols@[i]);
        a.name@ == b.name@ && a.section == b.section && a.section_offset == b.section_offset && a.rva
            == b.rva
    } by {
        assert(pub_converts(pdb1.public_symbols@[0 + i], recs[i], hs1, base1));
        assert(pub_converts(pdb2.public_symbols@[0 + i], recs[i], hs2, base2));
        if let RawSymbol::Pub { segment, offset, .. } = recs[i] {
            lemma_rva_determined(input.section_headers, hs1, hs2, segment, offset);
        }
    }
    let precs = proc_records(all_symbols(input));
    assert forall|i: int| 0 <= i < pdb1.procedures@.len() implies {
        let (a, b) = (#[trigger] pdb1.procedures@[i], pdb2.procedures@[i]);
        a.name@ == b.name@ && a.section == b.section && a.section_offset == b.section_offset && a.rva
            == b.rva && a.len == b.len
    } by {
        assert(proc_converts(pdb1.procedures@[0 + i], precs[i], hs1, base1));
        assert(proc_converts(pdb2.procedures@[0 + i], precs[i], hs2, base2));
        if let RawSymbol::Proc { segment, offset, .. } = precs[i] {
            lemma_rva_determined(input.section_headers, hs1, hs2, segment, offset);
        }
    }
}

/// Two parses of one input that differ only in the base address, and whose
/// TPI maps have the same keys, agree on the name, section, section offset and
/// RVA of every global data symbol.
pub proof fn lemma_data_locations_independent_of_base(
    input: PdbInput,
    base1: Option<usize>,
    base2: Option<usize>,
    pdb1: ParsedPdb,
    pdb2: ParsedPdb,
)
    requires
        exists|types: ParsedPdb| parse_outcome(input, base1, types, Ok(pdb1)),
        exists|types: ParsedPdb| parse_outcome(input, base2, types, Ok(pdb2)),
        pdb1.types@.dom() == pdb2.types@.dom(),
    ensures
        pdb1.global_data@.len() == pdb2.global_data@.len(),
        forall|i: int|
            0 <= i < pdb1.global_data@.len() ==> {
                let (a, b) = (#[trigger] pdb1.global_data@[i], pdb2.global_data@[i]);
                a.name@ == b.name@ && a.section == b.section && a.section_offset == b.section_offset
                    && a.rva == b.rva
            },
{
    let t1 = choose|types: ParsedPdb| parse_outcome(input, base1, types, Ok(pdb1));
    let t2 = choose|types: ParsedPdb| parse_outcome(input, base2, types, Ok(pdb2));
    let hs1 = choose|hs: Option<Seq<ImageSectionHeader>>|
        #[trigger] headers_decoded(input.section_headers, hs) && symbols_from(pdb1, input, hs, base1);
    let hs2 = choose|hs: Option<Seq<ImageSectionHeader>>|
        #[trigger] headers_decoded(input.section_headers, hs) && symbols_from(pdb2, input, hs, base2);
    lemma_data_records_same_keys(input.global_symbols@, pdb1.types@, pdb2.types@);
    let recs = data_records(input.global_symbols@, pdb1.types@);
    assert forall|i: int| 0 <= i < pdb1.global_data@.len() implies {
        let (a, b) = (#[trigger] pdb1.global_data@[i], pdb2.global_data@[i]);
        a.name@ == b.name@ && a.section == b.section && a.section_offset == b.section_offset && a.rva
            == b.rva
    } by {
        assert(data_converts(pdb1.global_data@[0 + i], recs[i], pdb1.types@, hs1, base1));
        assert(data_converts(pdb2.global_data@[0 + i], recs[i], pdb2.types@, hs2, base2));
        if let RawSymbol::Data { segment, offset, .. } = recs[i] {
            lemma_rva_determined(input.section_headers, hs1, hs2, segment, offset);
        }
    }
}

proof fn lemma_data_records_same_keys(s: Seq<RawSymbol>, m1: Map<u32, TypeRef>, m2: Map<u32, TypeRef>)
    requires
        m1.dom() == m2.dom(),
    ensures
        data_records(s, m1) == data_records(s, m2),
    decreases s.len(),
{
    if s.len() > 0 {
        lemma_data_records_same_keys(s.drop_last(), m1, m2);
        if let RawSymbol::Data { type_index, .. } = s.last() {
            assert(m1.contains_key(type_index) == m2.dom().contains(type_index));
        }
    }
}

/// Whether a location is consistent: without a section there is no RVA; a
/// section is numbered from 1; an RVA is the virtual address that the section
/// header stream gives the section plus the offset; the address is the RVA
/// plus the base address, and there is none without a base address.
pub open spec fn location_consistent(
    section: Option<u16>,
    section_offset: u32,
    rva: Option<usize>,
    address: Option<usize>,
    input: PdbInput,
    base: Option<usize>,
) -> bool {
    &&& section is None ==> rva is None
    &&& section matches Some(s) ==> s >= 1
    &&& rva matches Some(r) ==> section is Some && input.section_headers is Some && r == crate::sections::le_u32(
        input.section_headers->0@.subrange(40 * (section->0 - 1), 40 * section->0),
        12,
    ) + section_offset
    &&& base is None ==> address is None
    &&& rva is None ==> address is None
    &&& (rva matches Some(r) && base matches Some(b) && r + b <= usize::MAX) ==> address == Some(
        (rva->0 + base->0) as usize,
    )
}

proof fn lemma_location_from_record(
    section: Option<u16>,
    section_offset: u32,
    rva: Option<usize>,
    address: Option<usize>,
    section_num: u16,
    input: PdbInput,
    hs: Option<Seq<ImageSectionHeader>>,
    base: Option<usize>,
)
    requires
        headers_decoded(input.section_headers, hs),
        section == crate::symbol_types::spec_section(section_num),
        rva == spec_section_offset_to_rva(hs, section_num, section_offset),
        address == crate::symbol_types::spec_address(rva, base),
    ensures
        location_consistent(section, section_offset, rva, address, input, base),
{
    if let Some(h) = hs {
        if section_num != 0 && section_num <= h.len() {
            let i = section_num - 1;
            assert(ImageSectionHeader::decodes(h[i], input.section_headers->0@.subrange(40 * i, 40 * i + 40)));
        }
    }
}

/// Every symbol of a parse has a consistent location (see [`location_consistent`]).
pub proof fn lemma_parsed_locations_consistent(
    input: PdbInput,
    base: Option<usize>,
    pdb: ParsedPdb,
)
    requires
        exists|types: ParsedPdb| parse_outcome(input, base, types, Ok(pdb)),
    ensures
        forall|i: int|
            0 <= i < pdb.public_symbols@.len() ==> location_consistent(
                (#[trigger] pdb.public_symbols@[i]).section,
                pdb.public_symbols@[i].section_offset,
                pdb.public_symbols@[i].rva,
                pdb.public_symbols@[i].address,
                input,
                base,
            ),
        forall|i: int|
            0 <= i < pdb.procedures@.len() ==> location_consistent(
                (#[trigger] pdb.procedures@[i]).section,
                pdb.procedures@[i].section_offset,
                pdb.procedures@[i].rva,
                pdb.procedures@[i].address,
                input,
                base,
            ),
        forall|i: int|
            0 <= i < pdb.global_data@.len() ==> location_consistent(
                (#[trigger] pdb.global_data@[i]).section,
                pdb.global_data@[i].section_offset,
                pdb.global_data@[i].rva,
                pdb.global_data@[i].address,
                input,
                base,
            ),
{
    let t = choose|types: ParsedPdb| parse_outcome(input, base, types, Ok(pdb));
    let hs = choose|hs: Option<Seq<ImageSectionHeader>>|
        #[trigger] headers_decoded(input.section_headers, hs) && symbols_from(pdb, input, hs, base);
    let recs = pub_records(all_symbols(input));
    assert forall|i: int| 0 <= i < pdb.public_symbols@.len() implies location_consistent(
        (#[trigger] pdb.public_symbols@[i]).section,
        pdb.public_symbols@[i].section_offset,
        pdb.public_symbols@[i].rva,
        pdb.public_symbols@[i].address,
        input,
        base,
    ) by {
        assert(pub_converts(pdb.public_symbols@[0 + i], recs[i], hs, base));
        if let RawSymbol::Pub { segment, .. } = recs[i] {
            let s = pdb.public_symbols@[i];
            lemma_location_from_record(s.section, s.section_offset, s.rva, s.address, segment, input, hs, base);
        }
    }
    let precs = proc_records(all_symbols(input));
    assert forall|i: int| 0 <= i < pdb.procedures@.len() implies location_consistent(
        (#[trigger] pdb.procedures@[i]).section,
        pdb.procedures@[i].section_offset,
        pdb.procedures@[i].rva,
        pdb.procedures@[i].address,
        input,
        base,
    ) by {
        assert(proc_converts(pdb.procedures@[0 + i], precs[i], hs, base));
        if let RawSymbol::Proc { segment, .. } = precs[i] {
            let s = pdb.procedures@[i];
            lemma_location_from_record(s.section, s.section_offset, s.rva, s.address, segment, input, hs, base);
        }
    }
    let drecs = data_records(input.global_symbols@, pdb.types@);
    assert forall|i: int| 0 <= i < pdb.global_data@.len() implies location_consistent(
        (#[trigger] pdb.global_data@[i]).section,
        pdb.global_data@[i].section_offset,
        pdb.global_data@[i].rva,
        pdb.global_data@[i].address,
        input,
        base,
    ) by {
        assert(data_converts(pdb.global_data@[0 + i], drecs[i], pdb.types@, hs, base));
        if let RawSymbol::Data { segment, .. } = drecs[i] {
            let s = pdb.global_data@[i];
            lemma_location_from_record(s.section, s.section_offset, s.rva, s.address, segment, input, hs, base);
        }
    }
}

/// Whether a type node is an item of the IPI stream's own kinds.
pub open spec fn is_ipi_item(t: Type) -> bool {
    ||| t is FuncId
    ||| t is MFuncId
    ||| t is StringId
    ||| t is SubStrList
    ||| t is BuildInfoType
    ||| t is UdtSrcLineType
}

/// The TPI map of a parse holds no IPI items: those go to the IPI map only.
pub proof fn lemma_tpi_map_holds_no_ipi_items(
    input: PdbInput,
    base: Option<usize>,
    pdb: ParsedPdb,
)
    requires
        exists|types: ParsedPdb| parse_outcome(input, base, types, Ok(pdb)),
    ensures
        forall|k: u32|
            #[trigger] pdb.types@.contains_key(k) ==> !is_ipi_item(pdb.nodes@[pdb.types@[k].0 as int]),
{
    let t = choose|types: ParsedPdb| parse_outcome(input, base, types, Ok(pdb));
    assert forall|k: u32| #[trigger] pdb.types@.contains_key(k) implies !is_ipi_item(
        pdb.nodes@[pdb.types@[k].0 as int],
    ) by {
        assert(t.types@.contains_key(k));
        let i = t.types@[k].0 as int;
        assert(same_but_dims(t.nodes@[i], pdb.nodes@[i]));
        if tpi_entry_converts(t, input.tpi, k) {
            lemma_tpi_entry_not_ipi_item(t, input.tpi, k);
        } else {
            lemma_tpi_entry_not_ipi_item(t, input.ipi->0, k);
        }
    }
}

proof fn lemma_tpi_entry_not_ipi_item(p: ParsedPdb, stream: RawTypeStream, k: u32)
    requires
        tpi_entry_converts(p, stream, k),
    ensures
        !is_ipi_item(p.nodes@[p.types@[k].0 as int]),
{
    if k >= stream.begin {
        if let Some(crate::records::RawRecord::Parsed(raw)) = stream.spec_record(k) {
            assert(crate::convert::record_converts(raw, p.nodes@[p.types@[k].0 as int], stream, p));
        }
    }
}
} // verus!
