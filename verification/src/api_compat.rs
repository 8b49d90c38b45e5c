//! Rules for checking that two parsers' results agree: which differences make
//! a check fail, which are improvements, and how offset mismatches are counted.
use vstd::prelude::*;

use crate::compare::{views, DiffView, Difference};
use crate::new_pdb::{guid_text, hyphenated_guid};
use crate::symbol_types::{MachineType, ParsedPdb, Version};
use crate::text::{decimal_text, push_str, push_u64, text};

verus! {

broadcast use vstd::std_specs::hash::group_hash_axioms;

/// What a check of two parse results compares: header values, counts, and the
/// name and offset of the first public symbols.
#[derive(Debug, Clone)]
pub struct ApiSummary {
    pub path: String,
    pub age: u32,
    /// The GUID, as displayed.
    pub guid: String,
    pub timestamp: u32,
    /// The machine type, as `{:?}` renders it.
    pub machine_type: String,
    /// The version, as `{:?}` renders it.
    pub version: String,
    /// The name and offset of each public symbol, in order.
    pub public_symbols: Vec<(String, Option<u64>)>,
    pub procedures: usize,
    pub global_data: usize,
    pub debug_modules: usize,
    pub types: usize,
    /// The number of IPI types; none where the parser keeps no separate IPI map.
    pub ipi_types: Option<usize>,
}

/// A difference that fails a check.
#[derive(Debug, Clone, PartialEq, Eq)]
pub enum ApiDifference {
    Path(String, String),
    Age(u32, u32),
    Guid(String, String),
    Timestamp(u32, u32),
    MachineType(String, String),
    PublicSymbolCount(usize, usize),
    /// Of the first public symbols (at most 10), how many were checked and how
    /// many differ in name or offset.
    PublicSymbolContent { checked: usize, mismatches: usize },
    ProcedureCount(usize, usize),
    /// Fewer global data symbols in the new result.
    GlobalDataRegression(usize, usize),
    DebugModuleCount(usize, usize),
    /// Fewer types (TPI and IPI together) in the new result.
    TypeRegression(usize, usize),
}

/// A finding that does not fail a check.
#[derive(Debug, Clone, PartialEq, Eq)]
pub enum ApiNote {
    VersionDiffers(String, String),
    /// More global data symbols in the new result: how many more, old, new.
    MoreGlobalData(usize, usize, usize),
    /// The new result keeps IPI types apart: old total, TPI, IPI, new total.
    TypeSeparation(usize, usize, usize, usize),
    /// More types in the new result: how many more.
    MoreTypes(usize),
}

/// The differences and notes of a check.
#[derive(Debug, Clone)]
pub struct ApiComparison {
    pub differences: Vec<ApiDifference>,
    pub notes: Vec<ApiNote>,
}

/// The number of the first `n` symbol pairs that differ in name or offset.
pub open spec fn sample_mismatches(
    old: Seq<(String, Option<u64>)>,
    new: Seq<(String, Option<u64>)>,
    n: int,
) -> nat
    decreases n,
{
    if n <= 0 {
        0
    } else {
        sample_mismatches(old, new, n - 1) + if old[n - 1].0@ != new[n - 1].0@ || old[n - 1].1
            != new[n - 1].1 {
            1nat
        } else {
            0nat
        }
    }
}

/// The total number of types of a result: TPI and IPI together.
pub open spec fn total_types(s: ApiSummary) -> int {
    s.types + match s.ipi_types {
        Some(n) => n as int,
        None => 0,
    }
}

/// The header differences, in order: path, age, GUID, timestamp, machine type.
pub open spec fn header_differences(old: ApiSummary, new: ApiSummary) -> Seq<ApiDifference> {
    (if old.path@ != new.path@ {
        seq![ApiDifference::Path(old.path, new.path)]
    } else {
        Seq::empty()
    }) + (if old.age != new.age {
        seq![ApiDifference::Age(old.age, new.age)]
    } else {
        Seq::empty()
    }) + (if old.guid@ != new.guid@ {
        seq![ApiDifference::Guid(old.guid, new.guid)]
    } else {
        Seq::empty()
    }) + (if old.timestamp != new.timestamp {
        seq![ApiDifference::Timestamp(old.timestamp, new.timestamp)]
    } else {
        Seq::empty()
    }) + (if old.machine_type@ != new.machine_type@ {
        seq![ApiDifference::MachineType(old.machine_type, new.machine_type)]
    } else {
        Seq::empty()
    })
}

/// The public symbol difference: their number, or else the names and offsets
/// of the first 10.
pub open spec fn symbol_differences(old: ApiSummary, new: ApiSummary) -> Seq<ApiDifference> {
    let op = old.public_symbols@;
    let np = new.public_symbols@;
    let checked = if op.len() < 10 {
        op.len()
    } else {
        10
    };
    if op.len() != np.len() {
        seq![ApiDifference::PublicSymbolCount(op.len() as usize, np.len() as usize)]
    } else if sample_mismatches(op, np, checked as int) > 0 {
        seq![
            ApiDifference::PublicSymbolContent {
                checked: checked as usize,
                mismatches: sample_mismatches(op, np, checked as int) as usize,
            },
        ]
    } else {
        Seq::empty()
    }
}

/// The count differences, in order: procedures, fewer global data symbols,
/// debug modules, fewer types.
pub open spec fn count_differences(old: ApiSummary, new: ApiSummary) -> Seq<ApiDifference> {
    (if old.procedures != new.procedures {
        seq![ApiDifference::ProcedureCount(old.procedures, new.procedures)]
    } else {
        Seq::empty()
    }) + (if new.global_data < old.global_data {
        seq![ApiDifference::GlobalDataRegression(old.global_data, new.global_data)]
    } else {
        Seq::empty()
    }) + (if old.debug_modules != new.debug_modules {
        seq![ApiDifference::DebugModuleCount(old.debug_modules, new.debug_modules)]
    } else {
        Seq::empty()
    }) + (if total_types(new) < total_types(old) {
        seq![ApiDifference::TypeRegression(total_types(old) as usize, total_types(new) as usize)]
    } else {
        Seq::empty()
    })
}

/// The differences that fail a check: the header's, the public symbols', the counts'.
pub open spec fn api_differences(old: ApiSummary, new: ApiSummary) -> Seq<ApiDifference> {
    header_differences(old, new) + symbol_differences(old, new) + count_differences(old, new)
}

/// The notes of a check, in order: a different version, more global data
/// symbols, IPI types kept apart (where the new result has any), more types.
pub open spec fn api_notes(old: ApiSummary, new: ApiSummary) -> Seq<ApiNote> {
    (if old.version@ != new.version@ {
        seq![ApiNote::VersionDiffers(old.version, new.version)]
    } else {
        Seq::empty()
    }) + (if new.global_data > old.global_data {
        seq![
            ApiNote::MoreGlobalData(
                (new.global_data - old.global_data) as usize,
                old.global_data,
                new.global_data,
            ),
        ]
    } else {
        Seq::empty()
    }) + (if new.ipi_types matches Some(n) && n > 0 {
        seq![
            ApiNote::TypeSeparation(
                total_types(old) as usize,
                new.types,
                new.ipi_types->0,
                total_types(new) as usize,
            ),
        ]
    } else {
        Seq::empty()
    }) + (if total_types(new) > total_types(old) {
        seq![ApiNote::MoreTypes((total_types(new) - total_types(old)) as usize)]
    } else {
        Seq::empty()
    })
}

proof fn lemma_contains_joined(a: Seq<ApiDifference>, b: Seq<ApiDifference>, d: ApiDifference)
    requires
        a.contains(d) || b.contains(d),
    ensures
        (a + b).contains(d),
{
    if a.contains(d) {
        let w = choose|w: int| 0 <= w < a.len() && a[w] == d;
        assert((a + b)[w] == d);
    } else {
        let w = choose|w: int| 0 <= w < b.len() && b[w] == d;
        assert((a + b)[a.len() + w] == d);
    }
}

/// A check finds every header field in which two results differ: where their
/// paths, ages, GUIDs, timestamps or machine types differ, its differences
/// hold one naming that field with the old and the new value; so a check that
/// finds no difference at all has seen equal paths, ages, GUIDs, timestamps
/// and machine types.
pub proof fn lemma_header_fields_checked(old: ApiSummary, new: ApiSummary)
    ensures
        old.path@ != new.path@ ==> api_differences(old, new).contains(ApiDifference::Path(old.path, new.path)),
        old.age != new.age ==> api_differences(old, new).contains(ApiDifference::Age(old.age, new.age)),
        old.guid@ != new.guid@ ==> api_differences(old, new).contains(ApiDifference::Guid(old.guid, new.guid)),
        old.timestamp != new.timestamp ==> api_differences(old, new).contains(
            ApiDifference::Timestamp(old.timestamp, new.timestamp),
        ),
        old.machine_type@ != new.machine_type@ ==> api_differences(old, new).contains(
            ApiDifference::MachineType(old.machine_type, new.machine_type),
        ),
        api_differences(old, new).len() == 0 ==> {
            &&& old.path@ == new.path@
            &&& old.age == new.age
            &&& old.guid@ == new.guid@
            &&& old.timestamp == new.timestamp
            &&& old.machine_type@ == new.machine_type@
        },
{
    let p = if old.path@ != new.path@ {
        seq![ApiDifference::Path(old.path, new.path)]
    } else {
        Seq::<ApiDifference>::empty()
    };
    let a = if old.age != new.age {
        seq![ApiDifference::Age(old.age, new.age)]
    } else {
        Seq::<ApiDifference>::empty()
    };
    let g = if old.guid@ != new.guid@ {
        seq![ApiDifference::Guid(old.guid, new.guid)]
    } else {
        Seq::<ApiDifference>::empty()
    };
    let t = if old.timestamp != new.timestamp {
        seq![ApiDifference::Timestamp(old.timestamp, new.timestamp)]
    } else {
        Seq::<ApiDifference>::empty()
    };
    let m = if old.machine_type@ != new.machine_type@ {
        seq![ApiDifference::MachineType(old.machine_type, new.machine_type)]
    } else {
        Seq::<ApiDifference>::empty()
    };
    let h = header_differences(old, new);
    let rest = symbol_differences(old, new) + count_differences(old, new);
    assert(h == p + a + g + t + m);
    assert(api_differences(old, new) == h + rest);
    assert(h.len() == p.len() + a.len() + g.len() + t.len() + m.len());
    if old.path@ != new.path@ {
        let d = ApiDifference::Path(old.path, new.path);
        assert(p[0] == d);
        lemma_contains_joined(p, a, d);
        lemma_contains_joined(p + a, g, d);
        lemma_contains_joined(p + a + g, t, d);
        lemma_contains_joined(p + a + g + t, m, d);
        lemma_contains_joined(h, rest, d);
    }
    if old.age != new.age {
        let d = ApiDifference::Age(old.age, new.age);
        assert(a[0] == d);
        lemma_contains_joined(p, a, d);
        lemma_contains_joined(p + a, g, d);
        lemma_contains_joined(p + a + g, t, d);
        lemma_contains_joined(p + a + g + t, m, d);
        lemma_contains_joined(h, rest, d);
    }
    if old.guid@ != new.guid@ {
        let d = ApiDifference::Guid(old.guid, new.guid);
        assert(g[0] == d);
        lemma_contains_joined(p + a, g, d);
        lemma_contains_joined(p + a + g, t, d);
        lemma_contains_joined(p + a + g + t, m, d);
        lemma_contains_joined(h, rest, d);
    }
    if old.timestamp != new.timestamp {
        let d = ApiDifference::Timestamp(old.timestamp, new.timestamp);
        assert(t[0] == d);
        lemma_contains_joined(p + a + g, t, d);
        lemma_contains_joined(p + a + g + t, m, d);
        lemma_contains_joined(h, rest, d);
    }
    if old.machine_type@ != new.machine_type@ {
        let d = ApiDifference::MachineType(old.machine_type, new.machine_type);
        assert(m[0] == d);
        lemma_contains_joined(p + a + g + t, m, d);
        lemma_contains_joined(h, rest, d);
    }
}

/// A check finds every count in which two results differ, and every loss:
/// different numbers of public symbols, procedures or debug modules, and fewer
/// global data symbols or types in the new result, each give a difference with
/// the old and the new number; so a check that finds no difference at all has
/// seen equal numbers of public symbols, procedures and debug modules, and no
/// fewer global data symbols or types.
pub proof fn lemma_counts_checked(old: ApiSummary, new: ApiSummary)
    ensures
        old.public_symbols@.len() != new.public_symbols@.len() ==> api_differences(old, new).contains(
            ApiDifference::PublicSymbolCount(old.public_symbols@.len() as usize, new.public_symbols@.len() as usize),
        ),
        old.procedures != new.procedures ==> api_differences(old, new).contains(
            ApiDifference::ProcedureCount(old.procedures, new.procedures),
        ),
        new.global_data < old.global_data ==> api_differences(old, new).contains(
            ApiDifference::GlobalDataRegression(old.global_data, new.global_data),
        ),
        old.debug_modules != new.debug_modules ==> api_differences(old, new).contains(
            ApiDifference::DebugModuleCount(old.debug_modules, new.debug_modules),
        ),
        total_types(new) < total_types(old) ==> api_differences(old, new).contains(
            ApiDifference::TypeRegression(total_types(old) as usize, total_types(new) as usize),
        ),
        api_differences(old, new).len() == 0 ==> {
            &&& old.public_symbols@.len() == new.public_symbols@.len()
            &&& old.procedures == new.procedures
            &&& new.global_data >= old.global_data
            &&& old.debug_modules == new.debug_modules
            &&& total_types(new) >= total_types(old)
        },
{
    let pr = if old.procedures != new.procedures {
        seq![ApiDifference::ProcedureCount(old.procedures, new.procedures)]
    } else {
        Seq::<ApiDifference>::empty()
    };
    let gd = if new.global_data < old.global_data {
        seq![ApiDifference::GlobalDataRegression(old.global_data, new.global_data)]
    } else {
        Seq::<ApiDifference>::empty()
    };
    let dm = if old.debug_modules != new.debug_modules {
        seq![ApiDifference::DebugModuleCount(old.debug_modules, new.debug_modules)]
    } else {
        Seq::<ApiDifference>::empty()
    };
    let ty = if total_types(new) < total_types(old) {
        seq![ApiDifference::TypeRegression(total_types(old) as usize, total_types(new) as usize)]
    } else {
        Seq::<ApiDifference>::empty()
    };
    let h = header_differences(old, new);
    let sy = symbol_differences(old, new);
    let c = count_differences(old, new);
    assert(c == pr + gd + dm + ty);
    assert(api_differences(old, new) == h + sy + c);
    assert(c.len() == pr.len() + gd.len() + dm.len() + ty.len());
    if old.public_symbols@.len() != new.public_symbols@.len() {
        let d = ApiDifference::PublicSymbolCount(old.public_symbols@.len() as usize, new.public_symbols@.len() as usize);
        assert(sy[0] == d);
        lemma_contains_joined(h, sy, d);
        lemma_contains_joined(h + sy, c, d);
    }
    if old.procedures != new.procedures {
        let d = ApiDifference::ProcedureCount(old.procedures, new.procedures);
        assert(pr[0] == d);
        lemma_contains_joined(pr, gd, d);
        lemma_contains_joined(pr + gd, dm, d);
        lemma_contains_joined(pr + gd + dm, ty, d);
        lemma_contains_joined(h + sy, c, d);
    }
    if new.global_data < old.global_data {
        let d = ApiDifference::GlobalDataRegression(old.global_data, new.global_data);
        assert(gd[0] == d);
        lemma_contains_joined(pr, gd, d);
        lemma_contains_joined(pr + gd, dm, d);
        lemma_contains_joined(pr + gd + dm, ty, d);
        lemma_contains_joined(h + sy, c, d);
    }
    if old.debug_modules != new.debug_modules {
        let d = ApiDifference::DebugModuleCount(old.debug_modules, new.debug_modules);
        assert(dm[0] == d);
        lemma_contains_joined(pr + gd, dm, d);
        lemma_contains_joined(pr + gd + dm, ty, d);
        lemma_contains_joined(h + sy, c, d);
    }
    if total_types(new) < total_types(old) {
        let d = ApiDifference::TypeRegression(total_types(old) as usize, total_types(new) as usize);
        assert(ty[0] == d);
        lemma_contains_joined(pr + gd + dm, ty, d);
        lemma_contains_joined(h + sy, c, d);
    }
}

proof fn lemma_no_sample_mismatches_with_itself(s: Seq<(String, Option<u64>)>, n: int)
    requires
        n <= s.len(),
    ensures
        sample_mismatches(s, s, n) == 0,
    decreases n,
{
    if n > 0 {
        lemma_no_sample_mismatches_with_itself(s, n - 1);
    }
}

/// A parse result checked against itself shows no difference, and its notes
/// are at most the separation of IPI types.
pub proof fn lemma_result_agrees_with_itself(s: ApiSummary)
    ensures
        api_differences(s, s) == Seq::<ApiDifference>::empty(),
        api_notes(s, s) == (if s.ipi_types matches Some(n) && n > 0 {
            seq![
                ApiNote::TypeSeparation(
                    total_types(s) as usize,
                    s.types,
                    s.ipi_types->0,
                    total_types(s) as usize,
                ),
            ]
        } else {
            Seq::<ApiNote>::empty()
        }),
{
    let checked = if s.public_symbols@.len() < 10 {
        s.public_symbols@.len()
    } else {
        10
    };
    lemma_no_sample_mismatches_with_itself(s.public_symbols@, checked as int);
    assert(header_differences(s, s) =~= Seq::<ApiDifference>::empty());
    assert(symbol_differences(s, s) =~= Seq::<ApiDifference>::empty());
    assert(count_differences(s, s) =~= Seq::<ApiDifference>::empty());
    assert(api_differences(s, s) =~= Seq::<ApiDifference>::empty());
    assert(api_notes(s, s) =~= (if s.ipi_types matches Some(n) && n > 0 {
        seq![
            ApiNote::TypeSeparation(
                total_types(s) as usize,
                s.types,
                s.ipi_types->0,
                total_types(s) as usize,
            ),
        ]
    } else {
        Seq::<ApiNote>::empty()
    }));
}

/// Whether a result's type total fits in a `usize`.
pub open spec fn totals_fit(s: ApiSummary) -> bool {
    total_types(s) <= usize::MAX
}

fn total_of(s: &ApiSummary) -> (t: usize)
    requires
        totals_fit(*s),
    ensures
        t == total_types(*s),
{
    match s.ipi_types {
        Some(n) => s.types + n,
        None => s.types,
    }
}

fn same_offset(a: Option<u64>, b: Option<u64>) -> (r: bool)
    ensures
        r == (a == b),
{
    match (a, b) {
        (Some(x), Some(y)) => x == y,
        (None, None) => true,
        _ => false,
    }
}

fn count_sample_mismatches(
    older: &Vec<(String, Option<u64>)>,
    newer: &Vec<(String, Option<u64>)>,
    n: usize,
) -> (c: usize)
    requires
        n <= older@.len(),
        n <= newer@.len(),
    ensures
        c == sample_mismatches(older@, newer@, n as int),
{
    let mut c: usize = 0;
    let mut i: usize = 0;
    while i < n
        invariant
            i <= n <= older@.len(),
            n <= newer@.len(),
            c == sample_mismatches(older@, newer@, i as int),
            c <= i,
        decreases n - i,
    {
        if older[i].0 != newer[i].0 || !same_offset(older[i].1, newer[i].1) {
            c = c + 1;
        }
        i = i + 1;
    }
    c
}

fn push_header_differences(older: &ApiSummary, newer: &ApiSummary, out: &mut Vec<ApiDifference>)
    ensures
        final(out)@ == old(out)@ + header_differences(*older, *newer),
{
    let ghost start = out@;
    if older.path != newer.path {
        out.push(ApiDifference::Path(older.path.clone(), newer.path.clone()));
    }
    if older.age != newer.age {
        out.push(ApiDifference::Age(older.age, newer.age));
    }
    if older.guid != newer.guid {
        out.push(ApiDifference::Guid(older.guid.clone(), newer.guid.clone()));
    }
    if older.timestamp != newer.timestamp {
        out.push(ApiDifference::Timestamp(older.timestamp, newer.timestamp));
    }
    if older.machine_type != newer.machine_type {
        out.push(ApiDifference::MachineType(older.machine_type.clone(), newer.machine_type.clone()));
    }
    assert(out@ =~= start + header_differences(*older, *newer));
}

fn push_symbol_differences(older: &ApiSummary, newer: &ApiSummary, out: &mut Vec<ApiDifference>)
    ensures
        final(out)@ == old(out)@ + symbol_differences(*older, *newer),
{
    let ghost start = out@;
    let op = older.public_symbols.len();
    let np = newer.public_symbols.len();
    if op != np {
        out.push(ApiDifference::PublicSymbolCount(op, np));
    } else {
        let checked = if op < 10 {
            op
        } else {
            10
        };
        let mismatches = count_sample_mismatches(&older.public_symbols, &newer.public_symbols, checked);
        if mismatches > 0 {
            out.push(ApiDifference::PublicSymbolContent { checked, mismatches });
        }
    }
    assert(out@ =~= start + symbol_differences(*older, *newer));
}

fn push_count_differences(older: &ApiSummary, newer: &ApiSummary, out: &mut Vec<ApiDifference>)
    requires
        totals_fit(*older),
        totals_fit(*newer),
    ensures
        final(out)@ == old(out)@ + count_differences(*older, *newer),
{
    let ghost start = out@;
    if older.procedures != newer.procedures {
        out.push(ApiDifference::ProcedureCount(older.procedures, newer.procedures));
    }
    if newer.global_data < older.global_data {
        out.push(ApiDifference::GlobalDataRegression(older.global_data, newer.global_data));
    }
    if older.debug_modules != newer.debug_modules {
        out.push(ApiDifference::DebugModuleCount(older.debug_modules, newer.debug_modules));
    }
    let old_total = total_of(older);
    let new_total = total_of(newer);
    if new_total < old_total {
        out.push(ApiDifference::TypeRegression(old_total, new_total));
    }
    assert(out@ =~= start + count_differences(*older, *newer));
}

fn notes_of(older: &ApiSummary, newer: &ApiSummary) -> (notes: Vec<ApiNote>)
    requires
        totals_fit(*older),
        totals_fit(*newer),
    ensures
        notes@ == api_notes(*older, *newer),
{
    let mut notes: Vec<ApiNote> = Vec::new();
    if older.version != newer.version {
        notes.push(ApiNote::VersionDiffers(older.version.clone(), newer.version.clone()));
    }
    if newer.global_data > older.global_data {
        notes.push(
            ApiNote::MoreGlobalData(
                newer.global_data - older.global_data,
                older.global_data,
                newer.global_data,
            ),
        );
    }
    let old_total = total_of(older);
    let new_total = total_of(newer);
    if let Some(n) = newer.ipi_types {
        if n > 0 {
            notes.push(ApiNote::TypeSeparation(old_total, newer.types, n, new_total));
        }
    }
    if new_total > old_total {
        notes.push(ApiNote::MoreTypes(new_total - old_total));
    }
    assert(notes@ =~= api_notes(*older, *newer));
    notes
}

/// Checks that two parse results agree (see [`api_differences`] and
/// [`api_notes`]). Both results' type totals must fit in a `usize`.
pub fn compare_api(older: &ApiSummary, newer: &ApiSummary) -> (r: ApiComparison)
    requires
        totals_fit(*older),
        totals_fit(*newer),
    ensures
        r.differences@ == api_differences(*older, *newer),
        r.notes@ == api_notes(*older, *newer),
{
    let mut differences: Vec<ApiDifference> = Vec::new();
    push_header_differences(older, newer, &mut differences);
    push_symbol_differences(older, newer, &mut differences);
    push_count_differences(older, newer, &mut differences);
    assert(differences@ =~= api_differences(*older, *newer));
    ApiComparison { differences, notes: notes_of(older, newer) }
}

// ---------------------------------------------------------------------------
// Offset mismatches
// ---------------------------------------------------------------------------

/// Whether `pattern` occurs in `text`.
pub open spec fn occurs_in(pattern: Seq<char>, text: Seq<char>) -> bool {
    exists|i: int|
        0 <= i && i + pattern.len() <= text.len() && #[trigger] text.subrange(i, i + pattern.len())
            == pattern
}

/// Whether `pattern` occurs in `text` (std `str::contains` with a string pattern).
#[verifier::external_body]
fn contains(text: &str, pattern: &str) -> (b: bool)
    ensures
        b == occurs_in(pattern@, text@),
{
    text.contains(pattern)
}

/// Whether a difference concerns an offset or an address: its description
/// says "offset mismatch" or "address mismatch".
pub open spec fn is_offset_mismatch(d: DiffView) -> bool {
    occurs_in("offset mismatch"@, d.1) || occurs_in("address mismatch"@, d.1)
}

/// The number of the first `n` differences that concern an offset or an address.
pub open spec fn offset_mismatches(ds: Seq<DiffView>, n: int) -> nat
    decreases n,
{
    if n <= 0 {
        0
    } else {
        offset_mismatches(ds, n - 1) + if is_offset_mismatch(ds[n - 1]) {
            1nat
        } else {
            0nat
        }
    }
}

/// Counts the differences that concern an offset or an address.
pub fn offset_mismatch_count(differences: &Vec<Difference>) -> (c: usize)
    ensures
        c == offset_mismatches(views(differences@), differences@.len() as int),
{
    let mut c: usize = 0;
    let mut i: usize = 0;
    while i < differences.len()
        invariant
            i <= differences@.len(),
            c == offset_mismatches(views(differences@), i as int),
            c <= i,
        decreases differences@.len() - i,
    {
        let d = differences[i].description.as_str();
        assert(views(differences@)[i as int].1 == differences@[i as int].description@);
        if contains(d, "offset mismatch") || contains(d, "address mismatch") {
            c = c + 1;
        }
        i = i + 1;
    }
    c
}

/// Whether a run over several PDBs passes: every PDB parsed and no offset or
/// address mismatch was found.
pub open spec fn spec_run_passed(total_offset_mismatches: nat, successful: nat, total: nat) -> bool {
    total_offset_mismatches == 0 && successful == total
}

/// See [`spec_run_passed`].
pub fn run_passed(total_offset_mismatches: usize, successful: usize, total: usize) -> (b: bool)
    ensures
        b == spec_run_passed(total_offset_mismatches as nat, successful as nat, total as nat),
{
    total_offset_mismatches == 0 && successful == total
}


// ---------------------------------------------------------------------------
// The summary of a parse
// ---------------------------------------------------------------------------

/// What `{:?}` renders for an optional machine type.
pub open spec fn machine_text(m: Option<MachineType>) -> Seq<char> {
    match m {
        None => "None"@,
        Some(m) => "Some("@ + m.spec_name() + ")"@,
    }
}

/// What `{:?}` renders for a version.
pub open spec fn version_text(v: Version) -> Seq<char> {
    match v {
        Version::V41 => "V41"@,
        Version::V50 => "V50"@,
        Version::V60 => "V60"@,
        Version::V70 => "V70"@,
        Version::V110 => "V110"@,
        Version::Other(n) => "Other("@ + decimal_text(n as nat) + ")"@,
    }
}

fn machine_string(m: Option<MachineType>) -> (s: String)
    ensures
        s@ == machine_text(m),
{
    match m {
        None => text("None"),
        Some(m) => {
            let mut s = text("Some(");
            push_str(&mut s, m.name());
            push_str(&mut s, ")");
            assert(s@ =~= machine_text(Some(m)));
            s
        },
    }
}

fn version_string(v: Version) -> (s: String)
    ensures
        s@ == version_text(v),
{
    match v {
        Version::V41 => text("V41"),
        Version::V50 => text("V50"),
        Version::V60 => text("V60"),
        Version::V70 => text("V70"),
        Version::V110 => text("V110"),
        Version::Other(n) => {
            let mut s = text("Other(");
            push_u64(&mut s, n as u64);
            push_str(&mut s, ")");
            assert(s@ =~= version_text(v));
            s
        },
    }
}

/// The offset a public symbol of this parser is compared by: its RVA.
pub open spec fn rva_offset(rva: Option<usize>) -> Option<u64> {
    match rva {
        Some(r) => Some(r as u64),
        None => None,
    }
}

/// Whether `s` summarises `pdb`: its path, age, GUID (hyphenated), timestamp,
/// machine type and version as `{:?}` renders them, each public symbol's name
/// and RVA, and the numbers of procedures, global data symbols, debug modules,
/// TPI types and IPI types.
pub open spec fn summary_of(s: ApiSummary, pdb: ParsedPdb) -> bool {
    &&& s.path@ == pdb.path@
    &&& s.age == pdb.age
    &&& s.guid@ == hyphenated_guid(pdb.guid@)
    &&& s.timestamp == pdb.timestamp
    &&& s.machine_type@ == machine_text(pdb.machine_type)
    &&& s.version@ == version_text(pdb.version)
    &&& s.public_symbols@.len() == pdb.public_symbols@.len()
    &&& forall|i: int|
        0 <= i < s.public_symbols@.len() ==> (#[trigger] s.public_symbols@[i]).0@
            == pdb.public_symbols@[i].name@ && s.public_symbols@[i].1 == rva_offset(
            pdb.public_symbols@[i].rva,
        )
    &&& s.procedures == pdb.procedures@.len()
    &&& s.global_data == pdb.global_data@.len()
    &&& s.debug_modules == pdb.debug_modules@.len()
    &&& s.types == pdb.types@.len()
    &&& s.ipi_types == Some(pdb.ipi_types@.len() as usize)
}

/// Summarises a parsed PDB for a check (see [`summary_of`]).
pub fn api_summary(pdb: &ParsedPdb) -> (s: ApiSummary)
    ensures
        summary_of(s, *pdb),
{
    let mut public_symbols: Vec<(String, Option<u64>)> = Vec::new();
    let mut i: usize = 0;
    while i < pdb.public_symbols.len()
        invariant
            i <= pdb.public_symbols@.len(),
            public_symbols@.len() == i,
            forall|j: int|
                0 <= j < i ==> (#[trigger] public_symbols@[j]).0@ == pdb.public_symbols@[j].name@
                    && public_symbols@[j].1 == rva_offset(pdb.public_symbols@[j].rva),
        decreases pdb.public_symbols@.len() - i,
    {
        let sym = &pdb.public_symbols[i];
        let offset = match sym.rva {
            Some(r) => Some(r as u64),
            None => None,
        };
        public_symbols.push((sym.name.clone(), offset));
        i = i + 1;
    }
    ApiSummary {
        path: pdb.path.clone(),
        age: pdb.age,
        guid: guid_text(pdb.guid),
        timestamp: pdb.timestamp,
        machine_type: machine_string(pdb.machine_type),
        version: version_string(pdb.version),
        public_symbols,
        procedures: pdb.procedures.len(),
        global_data: pdb.global_data.len(),
        debug_modules: pdb.debug_modules.len(),
        types: pdb.types.len(),
        ipi_types: Some(pdb.ipi_types.len()),
    }
}
} // verus!
