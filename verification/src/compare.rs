//! Comparison of two parsers' reports of one PDB: what differs in the header,
//! in the counts of types, symbols and modules, and record by record.
use std::collections::HashMap;
use vstd::prelude::*;

use crate::new_pdb::NewPdbData;
use crate::old_pdb::{opt_u32_nat, OldPdbData};
use crate::text::{
    bool_text, debug_opt_num, debug_opt_text, decimal_text, opt_nat, push_debug_opt_text,
    push_debug_opt_u64, push_str, push_u64, text, u64_text,
};
use crate::type_size::{opt_text, same_text};

verus! {

broadcast use vstd::std_specs::hash::group_hash_axioms;

#[derive(Debug)]
pub struct ComparisonResult {
    pub summary: ComparisonSummary,
    pub differences: Vec<Difference>,
}

#[derive(Debug)]
pub struct ComparisonSummary {
    pub total_differences: usize,
    pub header_matches: bool,
    pub type_count_matches: bool,
    pub symbol_count_matches: bool,
    pub module_count_matches: bool,
}

#[derive(Debug, Clone)]
pub struct Difference {
    pub category: String,
    pub description: String,
    pub old_value: Option<String>,
    pub new_value: Option<String>,
}

/// A difference as text: category, description, old value, new value.
pub type DiffView = (Seq<char>, Seq<char>, Option<Seq<char>>, Option<Seq<char>>);

impl View for Difference {
    type V = DiffView;

    open spec fn view(&self) -> DiffView {
        (self.category@, self.description@, opt_text(self.old_value), opt_text(self.new_value))
    }
}

/// The differences of a list, as text.
pub open spec fn views(ds: Seq<Difference>) -> Seq<DiffView> {
    ds.map_values(|d: Difference| d@)
}

impl Difference {
    pub fn new(category: &str, description: &str, old_value: Option<String>, new_value: Option<
        String,
    >) -> (d: Self)
        ensures
            d@ == (category@, description@, opt_text(old_value), opt_text(new_value)),
    {
        Difference { category: text(category), description: text(description), old_value, new_value }
    }
}

fn push_diff(differences: &mut Vec<Difference>, d: Difference)
    ensures
        views(final(differences)@) == views(old(differences)@).push(d@),
{
    differences.push(d);
    assert(views(differences@) =~= views(old(differences)@).push(d@));
}

/// The difference reported where two counts differ, if they do.
pub open spec fn count_diffs(category: Seq<char>, description: Seq<char>, old: nat, new: nat) -> Seq<
    DiffView,
> {
    if old != new {
        seq![(category, description, Some(decimal_text(old)), Some(decimal_text(new)))]
    } else {
        Seq::empty()
    }
}

fn compare_counts(
    category: &str,
    description: &str,
    old_count: usize,
    new_count: usize,
    differences: &mut Vec<Difference>,
) -> (matches: bool)
    ensures
        views(final(differences)@) == views(old(differences)@) + count_diffs(
            category@,
            description@,
            old_count as nat,
            new_count as nat,
        ),
        matches == (old_count == new_count),
{
    if old_count != new_count {
        let d = Difference::new(
            category,
            description,
            Some(u64_text(old_count as u64)),
            Some(u64_text(new_count as u64)),
        );
        push_diff(differences, d);
        false
    } else {
        assert(views(differences@) =~= views(old(differences)@) + Seq::<DiffView>::empty());
        true
    }
}

/// The header differences: age, then GUID.
pub open spec fn header_diffs(old: crate::old_pdb::HeaderInfo, new: crate::new_pdb::HeaderInfo) -> Seq<
    DiffView,
> {
    (if old.age != new.age {
        seq![
            ("header"@, "Age mismatch"@, Some(decimal_text(old.age as nat)), Some(
                decimal_text(new.age as nat),
            )),
        ]
    } else {
        Seq::empty()
    }) + (if old.guid@ != new.guid@ {
        seq![("header"@, "GUID mismatch"@, Some(old.guid@), Some(new.guid@))]
    } else {
        Seq::empty()
    })
}

/// Compares the headers (see [`header_diffs`]); true where they match.
pub fn compare_headers(
    old_header: &crate::old_pdb::HeaderInfo,
    new_header: &crate::new_pdb::HeaderInfo,
    differences: &mut Vec<Difference>,
) -> (matches: bool)
    ensures
        views(final(differences)@) == views(old(differences)@) + header_diffs(*old_header, *new_header),
        matches == (header_diffs(*old_header, *new_header).len() == 0),
{
    let ghost start = views(differences@);
    let mut matches = true;
    if old_header.age != new_header.age {
        let d = Difference::new(
            "header",
            "Age mismatch",
            Some(u64_text(old_header.age as u64)),
            Some(u64_text(new_header.age as u64)),
        );
        push_diff(differences, d);
        matches = false;
    }
    let ghost mid = views(differences@);
    if old_header.guid != new_header.guid {
        let d = Difference::new("header", "GUID mismatch", Some(old_header.guid.clone()), Some(new_header.guid.clone()));
        push_diff(differences, d);
        matches = false;
    }
    assert(views(differences@) =~= start + header_diffs(*old_header, *new_header));
    matches
}

/// Compares the numbers of types.
pub fn compare_type_counts(old_data: &OldPdbData, new_data: &NewPdbData, differences: &mut Vec<Difference>) -> (matches: bool)
    ensures
        views(final(differences)@) == views(old(differences)@) + count_diffs(
            "types"@,
            "Type count mismatch"@,
            old_data.types@.len(),
            new_data.types@.len(),
        ),
        matches == (old_data.types@.len() == new_data.types@.len()),
{
    compare_counts("types", "Type count mismatch", old_data.types.len(), new_data.types.len(), differences)
}

/// The symbol count differences: public symbols, procedures, data symbols.
pub open spec fn symbol_count_diffs(old_data: OldPdbData, new_data: NewPdbData) -> Seq<DiffView> {
    count_diffs(
        "symbols"@,
        "Public symbol count mismatch"@,
        old_data.symbols.public_symbols@.len(),
        new_data.symbols.public_symbols@.len(),
    ) + count_diffs(
        "symbols"@,
        "Procedure count mismatch"@,
        old_data.symbols.procedures@.len(),
        new_data.symbols.procedures@.len(),
    ) + count_diffs(
        "symbols"@,
        "Data symbol count mismatch"@,
        old_data.symbols.data_symbols@.len(),
        new_data.symbols.data_symbols@.len(),
    )
}

/// Compares the numbers of public symbols, procedures and data symbols.
pub fn compare_symbol_counts(old_data: &OldPdbData, new_data: &NewPdbData, differences: &mut Vec<Difference>) -> (matches: bool)
    ensures
        views(final(differences)@) == views(old(differences)@) + symbol_count_diffs(*old_data, *new_data),
        matches == (symbol_count_diffs(*old_data, *new_data).len() == 0),
{
    let ghost start = views(differences@);
    let a = compare_counts(
        "symbols",
        "Public symbol count mismatch",
        old_data.symbols.public_symbols.len(),
        new_data.symbols.public_symbols.len(),
        differences,
    );
    let b = compare_counts(
        "symbols",
        "Procedure count mismatch",
        old_data.symbols.procedures.len(),
        new_data.symbols.procedures.len(),
        differences,
    );
    let c = compare_counts(
        "symbols",
        "Data symbol count mismatch",
        old_data.symbols.data_symbols.len(),
        new_data.symbols.data_symbols.len(),
        differences,
    );
    assert(views(differences@) =~= start + symbol_count_diffs(*old_data, *new_data));
    a && b && c
}

/// Compares the numbers of modules.
pub fn compare_module_counts(old_data: &OldPdbData, new_data: &NewPdbData, differences: &mut Vec<Difference>) -> (matches: bool)
    ensures
        views(final(differences)@) == views(old(differences)@) + count_diffs(
            "modules"@,
            "Module count mismatch"@,
            old_data.modules@.len(),
            new_data.modules@.len(),
        ),
        matches == (old_data.modules@.len() == new_data.modules@.len()),
{
    compare_counts("modules", "Module count mismatch", old_data.modules.len(), new_data.modules.len(), differences)
}


// ---------------------------------------------------------------------------
// Types, record by record
// ---------------------------------------------------------------------------

/// The last position of each value among `indices`.
pub open spec fn positions(indices: Seq<u32>) -> Map<u32, usize>
    decreases indices.len(),
{
    if indices.len() == 0 {
        Map::empty()
    } else {
        positions(indices.drop_last()).insert(indices.last(), (indices.len() - 1) as usize)
    }
}

/// The type indices of the old parser's types, in order.
pub open spec fn old_indices(types: Seq<crate::old_pdb::TypeInfo>) -> Seq<u32> {
    types.map_values(|t: crate::old_pdb::TypeInfo| t.index)
}

/// The type indices of the new parser's types, in order.
pub open spec fn new_indices(types: Seq<crate::new_pdb::TypeInfo>) -> Seq<u32> {
    types.map_values(|t: crate::new_pdb::TypeInfo| t.index)
}

/// "Type <index><what>".
pub open spec fn type_desc(index: u32, what: Seq<char>) -> Seq<char> {
    "Type "@ + decimal_text(index as nat) + what
}

fn type_description(index: u32, what: &str) -> (r: String)
    ensures
        r@ == type_desc(index, what@),
{
    let mut r = text("Type ");
    push_u64(&mut r, index as u64);
    push_str(&mut r, what);
    assert(r@ =~= type_desc(index, what@));
    r
}

/// The differences between two reports of one type: kind, name, size.
pub open spec fn type_pair_diffs(o: crate::old_pdb::TypeInfo, n: crate::new_pdb::TypeInfo) -> Seq<
    DiffView,
> {
    (if o.kind@ != n.kind@ {
        seq![("types"@, type_desc(o.index, " kind mismatch"@), Some(o.kind@), Some(n.kind@))]
    } else {
        Seq::empty()
    }) + (if opt_text(o.name) != opt_text(n.name) {
        seq![
            ("types"@, type_desc(o.index, " name mismatch"@), Some(
                debug_opt_text(opt_text(o.name)),
            ), Some(debug_opt_text(opt_text(n.name)))),
        ]
    } else {
        Seq::empty()
    }) + (if o.size != n.size {
        seq![
            ("types"@, type_desc(o.index, " size mismatch"@), Some(debug_opt_num(opt_nat(o.size))), Some(
                debug_opt_num(opt_nat(n.size)),
            )),
        ]
    } else {
        Seq::empty()
    })
}

/// The differences for one old type: those with the last new type of its
/// index, or its absence from the new report.
pub open spec fn old_type_entry(o: crate::old_pdb::TypeInfo, new: Seq<crate::new_pdb::TypeInfo>) -> Seq<
    DiffView,
> {
    let pos = positions(new_indices(new));
    if pos.contains_key(o.index) {
        type_pair_diffs(o, new[pos[o.index] as int])
    } else {
        seq![("types"@, type_desc(o.index, " missing in new parser"@), Some(o.spec_debug_text()), None)]
    }
}

/// The differences for the first `k` old types, in order.
pub open spec fn old_type_diffs(
    old: Seq<crate::old_pdb::TypeInfo>,
    new: Seq<crate::new_pdb::TypeInfo>,
    k: int,
) -> Seq<DiffView>
    decreases k,
{
    if k <= 0 {
        Seq::empty()
    } else {
        old_type_diffs(old, new, k - 1) + old_type_entry(old[k - 1], new)
    }
}

/// The differences for the first `k` new types: those whose index no old type has.
pub open spec fn new_type_diffs(
    old: Seq<crate::old_pdb::TypeInfo>,
    new: Seq<crate::new_pdb::TypeInfo>,
    k: int,
) -> Seq<DiffView>
    decreases k,
{
    if k <= 0 {
        Seq::empty()
    } else {
        new_type_diffs(old, new, k - 1) + if positions(old_indices(old)).contains_key(new[k - 1].index) {
            Seq::empty()
        } else {
            seq![
                ("types"@, type_desc(new[k - 1].index, " only in new parser"@), None, Some(
                    new[k - 1].spec_debug_text(),
                )),
            ]
        }
    }
}

/// All the type differences: for each old type in order, then for each new
/// type in order.
pub open spec fn type_diffs(old: Seq<crate::old_pdb::TypeInfo>, new: Seq<crate::new_pdb::TypeInfo>) -> Seq<
    DiffView,
> {
    old_type_diffs(old, new, old.len() as int) + new_type_diffs(old, new, new.len() as int)
}

fn same_number(a: Option<u64>, b: Option<u64>) -> (r: bool)
    ensures
        r == (a == b),
{
    match (a, b) {
        (Some(x), Some(y)) => x == y,
        (None, None) => true,
        _ => false,
    }
}

fn debug_opt_string(o: &Option<String>) -> (r: String)
    ensures
        r@ == debug_opt_text(opt_text(*o)),
{
    let mut r = String::new();
    push_debug_opt_text(&mut r, o);
    assert(r@ =~= debug_opt_text(opt_text(*o)));
    r
}

fn debug_opt_u64(o: Option<u64>) -> (r: String)
    ensures
        r@ == debug_opt_num(opt_nat(o)),
{
    let mut r = String::new();
    push_debug_opt_u64(&mut r, o);
    assert(r@ =~= debug_opt_num(opt_nat(o)));
    r
}

fn compare_type_pair(
    o: &crate::old_pdb::TypeInfo,
    n: &crate::new_pdb::TypeInfo,
    differences: &mut Vec<Difference>,
)
    ensures
        views(final(differences)@) == views(old(differences)@) + type_pair_diffs(*o, *n),
{
    let ghost start = views(differences@);
    if o.kind != n.kind {
        let d = Difference::new(
            "types",
            type_description(o.index, " kind mismatch").as_str(),
            Some(o.kind.clone()),
            Some(n.kind.clone()),
        );
        push_diff(differences, d);
    }
    if !same_text(&o.name, &n.name) {
        let d = Difference::new(
            "types",
            type_description(o.index, " name mismatch").as_str(),
            Some(debug_opt_string(&o.name)),
            Some(debug_opt_string(&n.name)),
        );
        push_diff(differences, d);
    }
    if !same_number(o.size, n.size) {
        let d = Difference::new(
            "types",
            type_description(o.index, " size mismatch").as_str(),
            Some(debug_opt_u64(o.size)),
            Some(debug_opt_u64(n.size)),
        );
        push_diff(differences, d);
    }
    assert(views(differences@) =~= start + type_pair_diffs(*o, *n));
}

/// The last position of each index among `indices` (see [`positions`]).
fn index_map(indices: &Vec<u32>) -> (m: HashMap<u32, usize>)
    ensures
        m@ == positions(indices@),
{
    let mut m: HashMap<u32, usize> = HashMap::new();
    let mut i: usize = 0;
    while i < indices.len()
        invariant
            0 <= i <= indices@.len(),
            m@ == positions(indices@.subrange(0, i as int)),
        decreases indices@.len() - i,
    {
        let ghost next = indices@.subrange(0, (i + 1) as int);
        assert(next.drop_last() =~= indices@.subrange(0, i as int));
        m.insert(indices[i], i);
        i = i + 1;
    }
    assert(indices@.subrange(0, indices@.len() as int) =~= indices@);
    m
}

fn old_index_list(types: &Vec<crate::old_pdb::TypeInfo>) -> (r: Vec<u32>)
    ensures
        r@ == old_indices(types@),
{
    let mut r: Vec<u32> = Vec::new();
    let mut i: usize = 0;
    while i < types.len()
        invariant
            0 <= i <= types@.len(),
            r@ == old_indices(types@.subrange(0, i as int)),
        decreases types@.len() - i,
    {
        r.push(types[i].index);
        i = i + 1;
        assert(r@ =~= old_indices(types@.subrange(0, i as int)));
    }
    assert(types@.subrange(0, types@.len() as int) =~= types@);
    r
}

fn new_index_list(types: &Vec<crate::new_pdb::TypeInfo>) -> (r: Vec<u32>)
    ensures
        r@ == new_indices(types@),
{
    let mut r: Vec<u32> = Vec::new();
    let mut i: usize = 0;
    while i < types.len()
        invariant
            0 <= i <= types@.len(),
            r@ == new_indices(types@.subrange(0, i as int)),
        decreases types@.len() - i,
    {
        r.push(types[i].index);
        i = i + 1;
        assert(r@ =~= new_indices(types@.subrange(0, i as int)));
    }
    assert(types@.subrange(0, types@.len() as int) =~= types@);
    r
}

proof fn lemma_positions_in_range(indices: Seq<u32>, k: u32)
    requires
        positions(indices).contains_key(k),
        indices.len() <= usize::MAX,
    ensures
        positions(indices)[k] < indices.len(),
        indices[positions(indices)[k] as int] == k,
    decreases indices.len(),
{
    if indices.last() != k {
        lemma_positions_in_range(indices.drop_last(), k);
    }
}

fn compare_old_types(
    old_types: &Vec<crate::old_pdb::TypeInfo>,
    new_types: &Vec<crate::new_pdb::TypeInfo>,
    differences: &mut Vec<Difference>,
)
    ensures
        views(final(differences)@) == views(old(differences)@) + old_type_diffs(
            old_types@,
            new_types@,
            old_types@.len() as int,
        ),
{
    let n_new = new_types.len();
    let new_by_index = index_map(&new_index_list(new_types));
    let ghost start = views(differences@);
    let mut i: usize = 0;
    while i < old_types.len()
        invariant
            0 <= i <= old_types@.len(),
            n_new == new_types@.len(),
            new_by_index@ == positions(new_indices(new_types@)),
            views(differences@) == start + old_type_diffs(old_types@, new_types@, i as int),
        decreases old_types@.len() - i,
    {
        let o = &old_types[i];
        match new_by_index.get(&o.index) {
            Some(j) => {
                proof {
                    assert(new_indices(new_types@).len() == n_new);
                    lemma_positions_in_range(new_indices(new_types@), o.index);
                }
                compare_type_pair(o, &new_types[*j], differences);
            },
            None => {
                let d = Difference::new(
                    "types",
                    type_description(o.index, " missing in new parser").as_str(),
                    Some(o.debug_text()),
                    None,
                );
                push_diff(differences, d);
            },
        }
        assert(views(differences@) =~= start + old_type_diffs(old_types@, new_types@, (i + 1) as int));
        i = i + 1;
    }
}

fn compare_new_types(
    old_types: &Vec<crate::old_pdb::TypeInfo>,
    new_types: &Vec<crate::new_pdb::TypeInfo>,
    differences: &mut Vec<Difference>,
)
    ensures
        views(final(differences)@) == views(old(differences)@) + new_type_diffs(
            old_types@,
            new_types@,
            new_types@.len() as int,
        ),
{
    let old_by_index = index_map(&old_index_list(old_types));
    let ghost start = views(differences@);
    let mut i: usize = 0;
    while i < new_types.len()
        invariant
            0 <= i <= new_types@.len(),
            old_by_index@ == positions(old_indices(old_types@)),
            views(differences@) == start + new_type_diffs(old_types@, new_types@, i as int),
        decreases new_types@.len() - i,
    {
        let n = &new_types[i];
        if !old_by_index.contains_key(&n.index) {
            let d = Difference::new(
                "types",
                type_description(n.index, " only in new parser").as_str(),
                None,
                Some(n.debug_text()),
            );
            push_diff(differences, d);
        }
        assert(views(differences@) =~= start + new_type_diffs(old_types@, new_types@, (i + 1) as int));
        i = i + 1;
    }
}

/// Compares the types record by record (see [`type_diffs`]): each old type
/// with the last new type of the same index, or as missing; then each new type
/// whose index no old type has.
pub fn compare_types(old_data: &OldPdbData, new_data: &NewPdbData, differences: &mut Vec<Difference>)
    ensures
        views(final(differences)@) == views(old(differences)@) + type_diffs(
            old_data.types@,
            new_data.types@,
        ),
{
    let ghost start = views(differences@);
    compare_old_types(&old_data.types, &new_data.types, differences);
    compare_new_types(&old_data.types, &new_data.types, differences);
    assert(views(differences@) =~= start + type_diffs(old_data.types@, new_data.types@));
}


// ---------------------------------------------------------------------------
// Symbols and modules, by name
// ---------------------------------------------------------------------------

/// A record that the reports key by its name.
pub trait Named {
    /// The record's name.
    spec fn spec_name(&self) -> Seq<char>;

    /// The record's name (see [`Named::spec_name`]).
    fn name_ref(&self) -> (r: &String)
        ensures
            r@ == self.spec_name(),
    ;
}

/// The names of `records`, in order.
pub open spec fn names<T: Named>(records: Seq<T>) -> Seq<Seq<char>> {
    records.map_values(|x: T| x.spec_name())
}

/// The texts of `strings`, in order.
pub open spec fn texts(strings: Seq<String>) -> Seq<Seq<char>> {
    strings.map_values(|s: String| s@)
}

/// The last position of name `n` among `names`; -1 where it does not occur.
pub open spec fn last_named(names: Seq<Seq<char>>, n: Seq<char>) -> int
    decreases names.len(),
{
    if names.len() == 0 {
        -1
    } else if names.last() == n {
        names.len() - 1
    } else {
        last_named(names.drop_last(), n)
    }
}

/// Whether position `i` is the first at which its name occurs.
pub open spec fn first_named(names: Seq<Seq<char>>, i: int) -> bool {
    forall|j: int| 0 <= j < i ==> names[j] != names[i]
}

/// The differences `entry` gives for each name among the first `k` of
/// `names`, at the name's first position, in order of first positions.
pub open spec fn firsts_mapped(names: Seq<Seq<char>>, entry: spec_fn(int) -> Seq<DiffView>, k: int) -> Seq<
    DiffView,
>
    decreases k,
{
    if k <= 0 {
        Seq::empty()
    } else {
        firsts_mapped(names, entry, k - 1) + if first_named(names, k - 1) {
            entry(k - 1)
        } else {
            Seq::empty()
        }
    }
}

proof fn lemma_last_named(names: Seq<Seq<char>>, n: Seq<char>)
    ensures
        -1 <= last_named(names, n) < names.len(),
        last_named(names, n) >= 0 ==> names[last_named(names, n)] == n,
        forall|j: int| 0 <= j < names.len() && names[j] == n ==> j <= last_named(names, n),
    decreases names.len(),
{
    if names.len() > 0 && names.last() != n {
        lemma_last_named(names.drop_last(), n);
        assert forall|j: int| 0 <= j < names.len() && names[j] == n implies j <= last_named(names, n) by {
            if j < names.len() - 1 {
                assert(names.drop_last()[j] == names[j]);
            }
        }
    }
}

fn names_of<T: Named>(records: &Vec<T>) -> (r: Vec<String>)
    ensures
        texts(r@) == names(records@),
{
    let mut r: Vec<String> = Vec::new();
    let mut i: usize = 0;
    while i < records.len()
        invariant
            0 <= i <= records@.len(),
            r@.len() == i,
            forall|j: int| 0 <= j < i ==> (#[trigger] r@[j])@ == records@[j].spec_name(),
        decreases records@.len() - i,
    {
        r.push(records[i].name_ref().clone());
        i = i + 1;
    }
    assert(texts(r@) =~= names(records@));
    r
}

fn is_first(names: &Vec<String>, i: usize) -> (b: bool)
    requires
        i < names@.len(),
    ensures
        b == first_named(texts(names@), i as int),
{
    let mut j: usize = 0;
    while j < i
        invariant
            j <= i < names@.len(),
            forall|k: int| 0 <= k < j ==> texts(names@)[k] != texts(names@)[i as int],
        decreases i - j,
    {
        if names[j] == names[i] {
            assert(texts(names@)[j as int] == names@[j as int]@);
            assert(texts(names@)[i as int] == names@[i as int]@);
            return false;
        }
        j = j + 1;
    }
    true
}

fn last_index(names: &Vec<String>, n: &String) -> (r: Option<usize>)
    ensures
        match r {
            Some(j) => j as int == last_named(texts(names@), n@),
            None => last_named(texts(names@), n@) < 0,
        },
{
    let mut k: usize = names.len();
    assert(texts(names@).subrange(0, k as int) =~= texts(names@));
    while k > 0
        invariant
            k <= names@.len(),
            last_named(texts(names@), n@) == last_named(texts(names@).subrange(0, k as int), n@),
        decreases k,
    {
        let ghost pre = texts(names@).subrange(0, k as int);
        assert(pre.drop_last() =~= texts(names@).subrange(0, k - 1));
        assert(texts(names@)[k - 1] == names@[k - 1]@);
        if names[k - 1] == *n {
            return Some(k - 1);
        }
        k = k - 1;
    }
    None
}

/// "<prefix><name><suffix>".
fn named_description(prefix: &str, name: &String, suffix: &str) -> (r: String)
    ensures
        r@ == prefix@ + name@ + suffix@,
{
    let mut r = text(prefix);
    push_str(&mut r, name.as_str());
    push_str(&mut r, suffix);
    r
}

fn debug_opt_u32(o: Option<u32>) -> (r: String)
    ensures
        r@ == debug_opt_num(opt_u32_nat(o)),
{
    let w = crate::old_pdb::widen(o);
    let r = debug_opt_u64(w);
    r
}

fn same_offset(a: Option<u32>, b: Option<u32>) -> (r: bool)
    ensures
        r == (a == b),
{
    match (a, b) {
        (Some(x), Some(y)) => x == y,
        (None, None) => true,
        _ => false,
    }
}

impl Named for crate::old_pdb::PublicSymbol {
    open spec fn spec_name(&self) -> Seq<char> {
        self.name@
    }

    fn name_ref(&self) -> (r: &String) {
        &self.name
    }
}

impl Named for crate::new_pdb::PublicSymbol {
    open spec fn spec_name(&self) -> Seq<char> {
        self.name@
    }

    fn name_ref(&self) -> (r: &String) {
        &self.name
    }
}

impl Named for crate::old_pdb::ProcedureSymbol {
    open spec fn spec_name(&self) -> Seq<char> {
        self.name@
    }

    fn name_ref(&self) -> (r: &String) {
        &self.name
    }
}

impl Named for crate::new_pdb::ProcedureSymbol {
    open spec fn spec_name(&self) -> Seq<char> {
        self.name@
    }

    fn name_ref(&self) -> (r: &String) {
        &self.name
    }
}

impl Named for crate::old_pdb::DataSymbol {
    open spec fn spec_name(&self) -> Seq<char> {
        self.name@
    }

    fn name_ref(&self) -> (r: &String) {
        &self.name
    }
}

impl Named for crate::new_pdb::DataSymbol {
    open spec fn spec_name(&self) -> Seq<char> {
        self.name@
    }

    fn name_ref(&self) -> (r: &String) {
        &self.name
    }
}

impl Named for crate::old_pdb::ModuleInfo {
    open spec fn spec_name(&self) -> Seq<char> {
        self.name@
    }

    fn name_ref(&self) -> (r: &String) {
        &self.name
    }
}

impl Named for crate::new_pdb::ModuleInfo {
    open spec fn spec_name(&self) -> Seq<char> {
        self.name@
    }

    fn name_ref(&self) -> (r: &String) {
        &self.name
    }
}

/// The differences between an old and a new record of public symbols of one name.
pub open spec fn public_pair_diffs(o: crate::old_pdb::PublicSymbol, n: crate::new_pdb::PublicSymbol) -> Seq<DiffView> {
    (if o.offset != n.offset {
        seq![
            ("symbols"@, "Public symbol '"@ + o.name@ + "' offset mismatch"@, Some(debug_opt_num(opt_u32_nat(o.offset))), Some(
                debug_opt_num(opt_u32_nat(n.offset)),
            )),
        ]
    } else {
        Seq::empty()
    }) + (if o.is_function != n.is_function {
        seq![("symbols"@, "Public symbol '"@ + o.name@ + "' is_function mismatch"@, Some(bool_text(o.is_function)), Some(bool_text(n.is_function)))]
    } else {
        Seq::empty()
    })
}

/// The differences for the old public symbols: for each name, at its first
/// position, those of its last old record with its last new record, or the
/// last old record's absence from the new report.
pub open spec fn public_old_entry(old: Seq<crate::old_pdb::PublicSymbol>, new: Seq<crate::new_pdb::PublicSymbol>) -> spec_fn(int) -> Seq<DiffView> {
    |i: int|
        {
            let name = old[i].name@;
            let o = old[last_named(names(old), name)];
            let j = last_named(names(new), name);
            if j >= 0 {
                public_pair_diffs(o, new[j])
            } else {
                seq![("symbols"@, "Public symbol '"@ + name + "' missing in new parser"@, Some(o.spec_debug_text()), None)]
            }
        }
}

/// The differences for the new public symbols: for each name that no old record
/// has, at its first position, the last new record of that name.
pub open spec fn public_new_entry(old: Seq<crate::old_pdb::PublicSymbol>, new: Seq<crate::new_pdb::PublicSymbol>) -> spec_fn(int) -> Seq<DiffView> {
    |i: int|
        {
            let name = new[i].name@;
            if last_named(names(old), name) >= 0 {
                Seq::empty()
            } else {
                seq![
                    ("symbols"@, "Public symbol '"@ + name + "' only in new parser"@, None, Some(
                        new[last_named(names(new), name)].spec_debug_text(),
                    )),
                ]
            }
        }
}

/// All the differences of the public symbols: the old side, then the new side.
pub open spec fn public_diffs(old: Seq<crate::old_pdb::PublicSymbol>, new: Seq<crate::new_pdb::PublicSymbol>) -> Seq<DiffView> {
    firsts_mapped(names(old), public_old_entry(old, new), old.len() as int) + firsts_mapped(
        names(new),
        public_new_entry(old, new),
        new.len() as int,
    )
}

fn compare_public_pair(o: &crate::old_pdb::PublicSymbol, n: &crate::new_pdb::PublicSymbol, differences: &mut Vec<Difference>)
    ensures
        views(final(differences)@) == views(old(differences)@) + public_pair_diffs(*o, *n),
{
    let ghost start = views(differences@);
    if !same_offset(o.offset, n.offset) {
        let d = Difference::new(
            "symbols",
            named_description("Public symbol '", &o.name, "' offset mismatch").as_str(),
            Some(debug_opt_u32(o.offset)),
            Some(debug_opt_u32(n.offset)),
        );
        push_diff(differences, d);
    }
    if o.is_function != n.is_function {
        let d = Difference::new(
            "symbols",
            named_description("Public symbol '", &o.name, "' is_function mismatch").as_str(),
            Some(bool_string(o.is_function)),
            Some(bool_string(n.is_function)),
        );
        push_diff(differences, d);
    }
    assert(views(differences@) =~= start + public_pair_diffs(*o, *n));
}

fn compare_public_records(olds: &Vec<crate::old_pdb::PublicSymbol>, news: &Vec<crate::new_pdb::PublicSymbol>, differences: &mut Vec<Difference>)
    ensures
        views(final(differences)@) == views(old(differences)@) + public_diffs(olds@, news@),
{
    let old_names = names_of(olds);
    let new_names = names_of(news);
    let ghost start = views(differences@);
    let mut i: usize = 0;
    while i < olds.len()
        invariant
            0 <= i <= olds@.len(),
            texts(old_names@) == names(olds@),
            texts(new_names@) == names(news@),
            views(differences@) == start + firsts_mapped(names(olds@), public_old_entry(olds@, news@), i as int),
        decreases olds@.len() - i,
    {
        let ghost before = views(differences@);
        proof {
            assert(names(olds@)[i as int] == olds@[i as int].name@);
            lemma_last_named(names(olds@), olds@[i as int].name@);
            lemma_last_named(names(news@), olds@[i as int].name@);
        }
        if is_first(&old_names, i) {
            let last = last_index(&old_names, &old_names[i]);
            if let Some(li) = last {
                let o = &olds[li];
                match last_index(&new_names, &old_names[i]) {
                    Some(j) => {
                        compare_public_pair(o, &news[j], differences);
                    },
                    None => {
                        let d = Difference::new(
                            "symbols",
                            named_description("Public symbol '", &old_names[i], "' missing in new parser").as_str(),
                            Some(o.debug_text()),
                            None,
                        );
                        push_diff(differences, d);
                    },
                }
            }
        }
        assert(views(differences@) =~= start + firsts_mapped(names(olds@), public_old_entry(olds@, news@), (i + 1) as int));
        i = i + 1;
    }
    let ghost mid = views(differences@);
    let mut i: usize = 0;
    while i < news.len()
        invariant
            0 <= i <= news@.len(),
            texts(old_names@) == names(olds@),
            texts(new_names@) == names(news@),
            views(differences@) == mid + firsts_mapped(names(news@), public_new_entry(olds@, news@), i as int),
        decreases news@.len() - i,
    {
        proof {
            assert(names(news@)[i as int] == news@[i as int].name@);
            lemma_last_named(names(olds@), news@[i as int].name@);
            lemma_last_named(names(news@), news@[i as int].name@);
        }
        if is_first(&new_names, i) {
            if last_index(&old_names, &new_names[i]).is_none() {
                let last = last_index(&new_names, &new_names[i]);
                if let Some(lj) = last {
                    let d = Difference::new(
                        "symbols",
                        named_description("Public symbol '", &new_names[i], "' only in new parser").as_str(),
                        None,
                        Some(news[lj].debug_text()),
                    );
                    push_diff(differences, d);
                }
            }
        }
        assert(views(differences@) =~= mid + firsts_mapped(names(news@), public_new_entry(olds@, news@), (i + 1) as int));
        i = i + 1;
    }
    assert(views(differences@) =~= start + public_diffs(olds@, news@));
}

/// The differences between an old and a new record of procedures of one name.
pub open spec fn procedure_pair_diffs(o: crate::old_pdb::ProcedureSymbol, n: crate::new_pdb::ProcedureSymbol) -> Seq<DiffView> {
    (if o.offset != n.offset {
        seq![
            ("symbols"@, "Procedure '"@ + o.name@ + "' offset mismatch"@, Some(debug_opt_num(opt_u32_nat(o.offset))), Some(
                debug_opt_num(opt_u32_nat(n.offset)),
            )),
        ]
    } else {
        Seq::empty()
    }) + (if o.len != n.len {
        seq![
            ("symbols"@, "Procedure '"@ + o.name@ + "' length mismatch"@, Some(decimal_text(o.len as nat)), Some(
                decimal_text(n.len as nat),
            )),
        ]
    } else {
        Seq::empty()
    })
}

/// The differences for the old procedures: for each name, at its first
/// position, those of its last old record with its last new record, or the
/// last old record's absence from the new report.
pub open spec fn procedure_old_entry(old: Seq<crate::old_pdb::ProcedureSymbol>, new: Seq<crate::new_pdb::ProcedureSymbol>) -> spec_fn(int) -> Seq<DiffView> {
    |i: int|
        {
            let name = old[i].name@;
            let o = old[last_named(names(old), name)];
            let j = last_named(names(new), name);
            if j >= 0 {
                procedure_pair_diffs(o, new[j])
            } else {
                seq![("symbols"@, "Procedure '"@ + name + "' missing in new parser"@, Some(o.spec_debug_text()), None)]
            }
        }
}

/// The differences for the new procedures: for each name that no old record
/// has, at its first position, the last new record of that name.
pub open spec fn procedure_new_entry(old: Seq<crate::old_pdb::ProcedureSymbol>, new: Seq<crate::new_pdb::ProcedureSymbol>) -> spec_fn(int) -> Seq<DiffView> {
    |i: int|
        {
            let name = new[i].name@;
            if last_named(names(old), name) >= 0 {
                Seq::empty()
            } else {
                seq![
                    ("symbols"@, "Procedure '"@ + name + "' only in new parser"@, None, Some(
                        new[last_named(names(new), name)].spec_debug_text(),
                    )),
                ]
            }
        }
}

/// All the differences of the procedures: the old side, then the new side.
pub open spec fn procedure_diffs(old: Seq<crate::old_pdb::ProcedureSymbol>, new: Seq<crate::new_pdb::ProcedureSymbol>) -> Seq<DiffView> {
    firsts_mapped(names(old), procedure_old_entry(old, new), old.len() as int) + firsts_mapped(
        names(new),
        procedure_new_entry(old, new),
        new.len() as int,
    )
}

fn compare_procedure_pair(o: &crate::old_pdb::ProcedureSymbol, n: &crate::new_pdb::ProcedureSymbol, differences: &mut Vec<Difference>)
    ensures
        views(final(differences)@) == views(old(differences)@) + procedure_pair_diffs(*o, *n),
{
    let ghost start = views(differences@);
    if !same_offset(o.offset, n.offset) {
        let d = Difference::new(
            "symbols",
            named_description("Procedure '", &o.name, "' offset mismatch").as_str(),
            Some(debug_opt_u32(o.offset)),
            Some(debug_opt_u32(n.offset)),
        );
        push_diff(differences, d);
    }
    if o.len != n.len {
        let d = Difference::new(
            "symbols",
            named_description("Procedure '", &o.name, "' length mismatch").as_str(),
            Some(u64_text(o.len as u64)),
            Some(u64_text(n.len as u64)),
        );
        push_diff(differences, d);
    }
    assert(views(differences@) =~= start + procedure_pair_diffs(*o, *n));
}

fn compare_procedure_records(olds: &Vec<crate::old_pdb::ProcedureSymbol>, news: &Vec<crate::new_pdb::ProcedureSymbol>, differences: &mut Vec<Difference>)
    ensures
        views(final(differences)@) == views(old(differences)@) + procedure_diffs(olds@, news@),
{
    let old_names = names_of(olds);
    let new_names = names_of(news);
    let ghost start = views(differences@);
    let mut i: usize = 0;
    while i < olds.len()
        invariant
            0 <= i <= olds@.len(),
            texts(old_names@) == names(olds@),
            texts(new_names@) == names(news@),
            views(differences@) == start + firsts_mapped(names(olds@), procedure_old_entry(olds@, news@), i as int),
        decreases olds@.len() - i,
    {
        let ghost before = views(differences@);
        proof {
            assert(names(olds@)[i as int] == olds@[i as int].name@);
            lemma_last_named(names(olds@), olds@[i as int].name@);
            lemma_last_named(names(news@), olds@[i as int].name@);
        }
        if is_first(&old_names, i) {
            let last = last_index(&old_names, &old_names[i]);
            if let Some(li) = last {
                let o = &olds[li];
                match last_index(&new_names, &old_names[i]) {
                    Some(j) => {
                        compare_procedure_pair(o, &news[j], differences);
                    },
                    None => {
                        let d = Difference::new(
                            "symbols",
                            named_description("Procedure '", &old_names[i], "' missing in new parser").as_str(),
                            Some(o.debug_text()),
                            None,
                        );
                        push_diff(differences, d);
                    },
                }
            }
        }
        assert(views(differences@) =~= start + firsts_mapped(names(olds@), procedure_old_entry(olds@, news@), (i + 1) as int));
        i = i + 1;
    }
    let ghost mid = views(differences@);
    let mut i: usize = 0;
    while i < news.len()
        invariant
            0 <= i <= news@.len(),
            texts(old_names@) == names(olds@),
            texts(new_names@) == names(news@),
            views(differences@) == mid + firsts_mapped(names(news@), procedure_new_entry(olds@, news@), i as int),
        decreases news@.len() - i,
    {
        proof {
            assert(names(news@)[i as int] == news@[i as int].name@);
            lemma_last_named(names(olds@), news@[i as int].name@);
            lemma_last_named(names(news@), news@[i as int].name@);
        }
        if is_first(&new_names, i) {
            if last_index(&old_names, &new_names[i]).is_none() {
                let last = last_index(&new_names, &new_names[i]);
                if let Some(lj) = last {
                    let d = Difference::new(
                        "symbols",
                        named_description("Procedure '", &new_names[i], "' only in new parser").as_str(),
                        None,
                        Some(news[lj].debug_text()),
                    );
                    push_diff(differences, d);
                }
            }
        }
        assert(views(differences@) =~= mid + firsts_mapped(names(news@), procedure_new_entry(olds@, news@), (i + 1) as int));
        i = i + 1;
    }
    assert(views(differences@) =~= start + procedure_diffs(olds@, news@));
}

/// The differences between an old and a new record of data symbols of one name.
pub open spec fn data_pair_diffs(o: crate::old_pdb::DataSymbol, n: crate::new_pdb::DataSymbol) -> Seq<DiffView> {
    (if o.offset != n.offset {
        seq![
            ("symbols"@, "Data symbol '"@ + o.name@ + "' offset mismatch"@, Some(debug_opt_num(opt_u32_nat(o.offset))), Some(
                debug_opt_num(opt_u32_nat(n.offset)),
            )),
        ]
    } else {
        Seq::empty()
    })
}

/// The differences for the old data symbols: for each name, at its first
/// position, those of its last old record with its last new record, or the
/// last old record's absence from the new report.
pub open spec fn data_old_entry(old: Seq<crate::old_pdb::DataSymbol>, new: Seq<crate::new_pdb::DataSymbol>) -> spec_fn(int) -> Seq<DiffView> {
    |i: int|
        {
            let name = old[i].name@;
            let o = old[last_named(names(old), name)];
            let j = last_named(names(new), name);
            if j >= 0 {
                data_pair_diffs(o, new[j])
            } else {
                seq![("symbols"@, "Data symbol '"@ + name + "' missing in new parser"@, Some(o.spec_debug_text()), None)]
            }
        }
}

/// The differences for the new data symbols: for each name that no old record
/// has, at its first position, the last new record of that name.
pub open spec fn data_new_entry(old: Seq<crate::old_pdb::DataSymbol>, new: Seq<crate::new_pdb::DataSymbol>) -> spec_fn(int) -> Seq<DiffView> {
    |i: int|
        {
            let name = new[i].name@;
            if last_named(names(old), name) >= 0 {
                Seq::empty()
            } else {
                seq![
                    ("symbols"@, "Data symbol '"@ + name + "' only in new parser"@, None, Some(
                        new[last_named(names(new), name)].spec_debug_text(),
                    )),
                ]
            }
        }
}

/// All the differences of the data symbols: the old side, then the new side.
pub open spec fn data_diffs(old: Seq<crate::old_pdb::DataSymbol>, new: Seq<crate::new_pdb::DataSymbol>) -> Seq<DiffView> {
    firsts_mapped(names(old), data_old_entry(old, new), old.len() as int) + firsts_mapped(
        names(new),
        data_new_entry(old, new),
        new.len() as int,
    )
}

fn compare_data_pair(o: &crate::old_pdb::DataSymbol, n: &crate::new_pdb::DataSymbol, differences: &mut Vec<Difference>)
    ensures
        views(final(differences)@) == views(old(differences)@) + data_pair_diffs(*o, *n),
{
    let ghost start = views(differences@);
    if !same_offset(o.offset, n.offset) {
        let d = Difference::new(
            "symbols",
            named_description("Data symbol '", &o.name, "' offset mismatch").as_str(),
            Some(debug_opt_u32(o.offset)),
            Some(debug_opt_u32(n.offset)),
        );
        push_diff(differences, d);
    }
    assert(views(differences@) =~= start + data_pair_diffs(*o, *n));
}

fn compare_data_records(olds: &Vec<crate::old_pdb::DataSymbol>, news: &Vec<crate::new_pdb::DataSymbol>, differences: &mut Vec<Difference>)
    ensures
        views(final(differences)@) == views(old(differences)@) + data_diffs(olds@, news@),
{
    let old_names = names_of(olds);
    let new_names = names_of(news);
    let ghost start = views(differences@);
    let mut i: usize = 0;
    while i < olds.len()
        invariant
            0 <= i <= olds@.len(),
            texts(old_names@) == names(olds@),
            texts(new_names@) == names(news@),
            views(differences@) == start + firsts_mapped(names(olds@), data_old_entry(olds@, news@), i as int),
        decreases olds@.len() - i,
    {
        let ghost before = views(differences@);
        proof {
            assert(names(olds@)[i as int] == olds@[i as int].name@);
            lemma_last_named(names(olds@), olds@[i as int].name@);
            lemma_last_named(names(news@), olds@[i as int].name@);
        }
        if is_first(&old_names, i) {
            let last = last_index(&old_names, &old_names[i]);
            if let Some(li) = last {
                let o = &olds[li];
                match last_index(&new_names, &old_names[i]) {
                    Some(j) => {
                        compare_data_pair(o, &news[j], differences);
                    },
                    None => {
                        let d = Difference::new(
                            "symbols",
                            named_description("Data symbol '", &old_names[i], "' missing in new parser").as_str(),
                            Some(o.debug_text()),
                            None,
                        );
                        push_diff(differences, d);
                    },
                }
            }
        }
        assert(views(differences@) =~= start + firsts_mapped(names(olds@), data_old_entry(olds@, news@), (i + 1) as int));
        i = i + 1;
    }
    let ghost mid = views(differences@);
    let mut i: usize = 0;
    while i < news.len()
        invariant
            0 <= i <= news@.len(),
            texts(old_names@) == names(olds@),
            texts(new_names@) == names(news@),
            views(differences@) == mid + firsts_mapped(names(news@), data_new_entry(olds@, news@), i as int),
        decreases news@.len() - i,
    {
        proof {
            assert(names(news@)[i as int] == news@[i as int].name@);
            lemma_last_named(names(olds@), news@[i as int].name@);
            lemma_last_named(names(news@), news@[i as int].name@);
        }
        if is_first(&new_names, i) {
            if last_index(&old_names, &new_names[i]).is_none() {
                let last = last_index(&new_names, &new_names[i]);
                if let Some(lj) = last {
                    let d = Difference::new(
                        "symbols",
                        named_description("Data symbol '", &new_names[i], "' only in new parser").as_str(),
                        None,
                        Some(news[lj].debug_text()),
                    );
                    push_diff(differences, d);
                }
            }
        }
        assert(views(differences@) =~= mid + firsts_mapped(names(news@), data_new_entry(olds@, news@), (i + 1) as int));
        i = i + 1;
    }
    assert(views(differences@) =~= start + data_diffs(olds@, news@));
}

/// The differences between an old and a new record of modules of one name.
pub open spec fn module_pair_diffs(o: crate::old_pdb::ModuleInfo, n: crate::new_pdb::ModuleInfo) -> Seq<DiffView> {
    (if o.object_file@ != n.object_file@ {
        seq![("modules"@, "Module '"@ + o.name@ + "' object file mismatch"@, Some(o.object_file@), Some(n.object_file@))]
    } else {
        Seq::empty()
    })
}

/// The differences for the old modules: for each name, at its first
/// position, those of its last old record with its last new record, or the
/// last old record's absence from the new report.
pub open spec fn module_old_entry(old: Seq<crate::old_pdb::ModuleInfo>, new: Seq<crate::new_pdb::ModuleInfo>) -> spec_fn(int) -> Seq<DiffView> {
    |i: int|
        {
            let name = old[i].name@;
            let o = old[last_named(names(old), name)];
            let j = last_named(names(new), name);
            if j >= 0 {
                module_pair_diffs(o, new[j])
            } else {
                seq![("modules"@, "Module '"@ + name + "' missing in new parser"@, Some(o.spec_debug_text()), None)]
            }
        }
}

/// The differences for the new modules: for each name that no old record
/// has, at its first position, the last new record of that name.
pub open spec fn module_new_entry(old: Seq<crate::old_pdb::ModuleInfo>, new: Seq<crate::new_pdb::ModuleInfo>) -> spec_fn(int) -> Seq<DiffView> {
    |i: int|
        {
            let name = new[i].name@;
            if last_named(names(old), name) >= 0 {
                Seq::empty()
            } else {
                seq![
                    ("modules"@, "Module '"@ + name + "' only in new parser"@, None, Some(
                        new[last_named(names(new), name)].spec_debug_text(),
                    )),
                ]
            }
        }
}

/// All the differences of the modules: the old side, then the new side.
pub open spec fn module_diffs(old: Seq<crate::old_pdb::ModuleInfo>, new: Seq<crate::new_pdb::ModuleInfo>) -> Seq<DiffView> {
    firsts_mapped(names(old), module_old_entry(old, new), old.len() as int) + firsts_mapped(
        names(new),
        module_new_entry(old, new),
        new.len() as int,
    )
}

fn compare_module_pair(o: &crate::old_pdb::ModuleInfo, n: &crate::new_pdb::ModuleInfo, differences: &mut Vec<Difference>)
    ensures
        views(final(differences)@) == views(old(differences)@) + module_pair_diffs(*o, *n),
{
    let ghost start = views(differences@);
    if o.object_file != n.object_file {
        let d = Difference::new(
            "modules",
            named_description("Module '", &o.name, "' object file mismatch").as_str(),
            Some(o.object_file.clone()),
            Some(n.object_file.clone()),
        );
        push_diff(differences, d);
    }
    assert(views(differences@) =~= start + module_pair_diffs(*o, *n));
}

fn compare_module_records(olds: &Vec<crate::old_pdb::ModuleInfo>, news: &Vec<crate::new_pdb::ModuleInfo>, differences: &mut Vec<Difference>)
    ensures
        views(final(differences)@) == views(old(differences)@) + module_diffs(olds@, news@),
{
    let old_names = names_of(olds);
    let new_names = names_of(news);
    let ghost start = views(differences@);
    let mut i: usize = 0;
    while i < olds.len()
        invariant
            0 <= i <= olds@.len(),
            texts(old_names@) == names(olds@),
            texts(new_names@) == names(news@),
            views(differences@) == start + firsts_mapped(names(olds@), module_old_entry(olds@, news@), i as int),
        decreases olds@.len() - i,
    {
        let ghost before = views(differences@);
        proof {
            assert(names(olds@)[i as int] == olds@[i as int].name@);
            lemma_last_named(names(olds@), olds@[i as int].name@);
            lemma_last_named(names(news@), olds@[i as int].name@);
        }
        if is_first(&old_names, i) {
            let last = last_index(&old_names, &old_names[i]);
            if let Some(li) = last {
                let o = &olds[li];
                match last_index(&new_names, &old_names[i]) {
                    Some(j) => {
                        compare_module_pair(o, &news[j], differences);
                    },
                    None => {
                        let d = Difference::new(
                            "modules",
                            named_description("Module '", &old_names[i], "' missing in new parser").as_str(),
                            Some(o.debug_text()),
                            None,
                        );
                        push_diff(differences, d);
                    },
                }
            }
        }
        assert(views(differences@) =~= start + firsts_mapped(names(olds@), module_old_entry(olds@, news@), (i + 1) as int));
        i = i + 1;
    }
    let ghost mid = views(differences@);
    let mut i: usize = 0;
    while i < news.len()
        invariant
            0 <= i <= news@.len(),
            texts(old_names@) == names(olds@),
            texts(new_names@) == names(news@),
            views(differences@) == mid + firsts_mapped(names(news@), module_new_entry(olds@, news@), i as int),
        decreases news@.len() - i,
    {
        proof {
            assert(names(news@)[i as int] == news@[i as int].name@);
            lemma_last_named(names(olds@), news@[i as int].name@);
            lemma_last_named(names(news@), news@[i as int].name@);
        }
        if is_first(&new_names, i) {
            if last_index(&old_names, &new_names[i]).is_none() {
                let last = last_index(&new_names, &new_names[i]);
                if let Some(lj) = last {
                    let d = Difference::new(
                        "modules",
                        named_description("Module '", &new_names[i], "' only in new parser").as_str(),
                        None,
                        Some(news[lj].debug_text()),
                    );
                    push_diff(differences, d);
                }
            }
        }
        assert(views(differences@) =~= mid + firsts_mapped(names(news@), module_new_entry(olds@, news@), (i + 1) as int));
        i = i + 1;
    }
    assert(views(differences@) =~= start + module_diffs(olds@, news@));
}

fn bool_string(b: bool) -> (r: String)
    ensures
        r@ == bool_text(b),
{
    let mut r = String::new();
    crate::text::push_bool(&mut r, b);
    assert(r@ =~= bool_text(b));
    r
}

/// All the symbol differences: public symbols, procedures, then data symbols.
pub open spec fn symbol_diffs(old_data: OldPdbData, new_data: NewPdbData) -> Seq<DiffView> {
    public_diffs(old_data.symbols.public_symbols@, new_data.symbols.public_symbols@) + procedure_diffs(
        old_data.symbols.procedures@,
        new_data.symbols.procedures@,
    ) + data_diffs(old_data.symbols.data_symbols@, new_data.symbols.data_symbols@)
}

/// Compares the symbols by name (see [`symbol_diffs`]). Records are looked up
/// by name, the last of a name standing for all of them, and each name is
/// taken up once, in order of first occurrence.
pub fn compare_symbols(old_data: &OldPdbData, new_data: &NewPdbData, differences: &mut Vec<Difference>)
    ensures
        views(final(differences)@) == views(old(differences)@) + symbol_diffs(*old_data, *new_data),
{
    let ghost start = views(differences@);
    compare_public_records(&old_data.symbols.public_symbols, &new_data.symbols.public_symbols, differences);
    compare_procedure_records(&old_data.symbols.procedures, &new_data.symbols.procedures, differences);
    compare_data_records(&old_data.symbols.data_symbols, &new_data.symbols.data_symbols, differences);
    assert(views(differences@) =~= start + symbol_diffs(*old_data, *new_data));
}

/// Compares the modules by name (see [`module_diffs`]), as
/// [`compare_symbols`] compares symbols.
pub fn compare_modules(old_data: &OldPdbData, new_data: &NewPdbData, differences: &mut Vec<Difference>)
    ensures
        views(final(differences)@) == views(old(differences)@) + module_diffs(
            old_data.modules@,
            new_data.modules@,
        ),
{
    compare_module_records(&old_data.modules, &new_data.modules, differences);
}

/// Every difference between two reports, in the order they are found: the
/// header, the numbers of types, symbols and modules, then the types, the
/// symbols and the modules record by record.
pub open spec fn all_diffs(old_data: OldPdbData, new_data: NewPdbData) -> Seq<DiffView> {
    header_diffs(old_data.header, new_data.header) + count_diffs(
        "types"@,
        "Type count mismatch"@,
        old_data.types@.len(),
        new_data.types@.len(),
    ) + symbol_count_diffs(old_data, new_data) + count_diffs(
        "modules"@,
        "Module count mismatch"@,
        old_data.modules@.len(),
        new_data.modules@.len(),
    ) + type_diffs(old_data.types@, new_data.types@) + symbol_diffs(old_data, new_data)
        + module_diffs(old_data.modules@, new_data.modules@)
}

/// Compares two reports of one PDB (see [`all_diffs`]), with a summary: the
/// number of differences, and whether the headers and the numbers of types,
/// of symbols of each kind and of modules match.
pub fn compare_pdbs(old_data: &OldPdbData, new_data: &NewPdbData) -> (r: ComparisonResult)
    ensures
        views(r.differences@) == all_diffs(*old_data, *new_data),
        r.summary.total_differences == r.differences@.len(),
        r.summary.header_matches == (header_diffs(old_data.header, new_data.header).len() == 0),
        r.summary.type_count_matches == (old_data.types@.len() == new_data.types@.len()),
        r.summary.symbol_count_matches == (symbol_count_diffs(*old_data, *new_data).len() == 0),
        r.summary.module_count_matches == (old_data.modules@.len() == new_data.modules@.len()),
{
    let mut differences: Vec<Difference> = Vec::new();
    let ghost start = views(differences@);
    assert(start =~= Seq::<DiffView>::empty());
    let header_matches = compare_headers(&old_data.header, &new_data.header, &mut differences);
    let type_count_matches = compare_type_counts(old_data, new_data, &mut differences);
    let symbol_count_matches = compare_symbol_counts(old_data, new_data, &mut differences);
    let module_count_matches = compare_module_counts(old_data, new_data, &mut differences);
    compare_types(old_data, new_data, &mut differences);
    compare_symbols(old_data, new_data, &mut differences);
    compare_modules(old_data, new_data, &mut differences);
    assert(views(differences@) =~= all_diffs(*old_data, *new_data));
    let summary = ComparisonSummary {
        total_differences: differences.len(),
        header_matches,
        type_count_matches,
        symbol_count_matches,
        module_count_matches,
    };
    ComparisonResult { summary, differences }
}


// ---------------------------------------------------------------------------
// Laws of the comparison by name
// ---------------------------------------------------------------------------

/// An entry that `entry` gives at a first position is among the differences.
proof fn lemma_firsts_mapped_contains(
    names: Seq<Seq<char>>,
    entry: spec_fn(int) -> Seq<DiffView>,
    k: int,
    i: int,
    d: DiffView,
)
    requires
        0 <= i < k,
        first_named(names, i),
        entry(i).contains(d),
    ensures
        firsts_mapped(names, entry, k).contains(d),
    decreases k,
{
    if i < k - 1 {
        lemma_firsts_mapped_contains(names, entry, k - 1, i, d);
        let prefix = firsts_mapped(names, entry, k - 1);
        let j = choose|j: int| 0 <= j < prefix.len() && #[trigger] prefix[j] == d;
        assert(firsts_mapped(names, entry, k)[j] == d);
    } else {
        let e = entry(i);
        let j = choose|j: int| 0 <= j < e.len() && #[trigger] e[j] == d;
        let prefix = firsts_mapped(names, entry, k - 1);
        assert(firsts_mapped(names, entry, k)[prefix.len() + j] == d);
    }
}

/// Every difference is of category `c` where every entry's are.
proof fn lemma_firsts_mapped_category(
    names: Seq<Seq<char>>,
    entry: spec_fn(int) -> Seq<DiffView>,
    k: int,
    c: Seq<char>,
)
    requires
        forall|i: int, j: int| 0 <= i < k && 0 <= j < entry(i).len() ==> (#[trigger] entry(i)[j]).0 == c,
    ensures
        forall|j: int|
            0 <= j < firsts_mapped(names, entry, k).len() ==> (#[trigger] firsts_mapped(names, entry, k)[j]).0 == c,
    decreases k,
{
    if k > 0 {
        lemma_firsts_mapped_category(names, entry, k - 1, c);
        let prefix = firsts_mapped(names, entry, k - 1);
        assert forall|j: int| 0 <= j < firsts_mapped(names, entry, k).len() implies (#[trigger] firsts_mapped(
            names,
            entry,
            k,
        )[j]).0 == c by {
            if j < prefix.len() {
                assert(firsts_mapped(names, entry, k)[j] == prefix[j]);
            } else {
                assert(firsts_mapped(names, entry, k)[j] == entry(k - 1)[j - prefix.len()]);
            }
        }
    }
}

/// A name that occurs has a first position.
proof fn lemma_first_occurrence(names: Seq<Seq<char>>, n: Seq<char>) -> (i: int)
    requires
        names.contains(n),
    ensures
        0 <= i < names.len(),
        names[i] == n,
        first_named(names, i),
    decreases names.len(),
{
    let d = names.drop_last();
    if d.contains(n) {
        let i = lemma_first_occurrence(d, n);
        assert(names[i] == d[i]);
        assert forall|j: int| 0 <= j < i implies names[j] != names[i] by {
            assert(names[j] == d[j]);
        }
        i
    } else {
        let i = names.len() - 1;
        let w = choose|w: int| 0 <= w < names.len() && names[w] == n;
        if w < i {
            assert(d[w] == n);
            assert(d.contains(n));
        }
        assert(names[i] == n);
        assert forall|j: int| 0 <= j < i implies names[j] != names[i] by {
            assert(names[j] == d[j]);
            if names[j] == n {
                assert(d.contains(n));
            }
        }
        i
    }
}

/// A name occurs exactly where it has a last position.
proof fn lemma_last_named_contains(names: Seq<Seq<char>>, n: Seq<char>)
    ensures
        names.contains(n) <==> last_named(names, n) >= 0,
{
    lemma_last_named(names, n);
    if names.contains(n) {
        let j = choose|j: int| 0 <= j < names.len() && names[j] == n;
        assert(j <= last_named(names, n));
    }
    if last_named(names, n) >= 0 {
        assert(names[last_named(names, n)] == n);
    }
}

/// No name gives a difference where every entry of a first position is empty.
proof fn lemma_no_entries(names: Seq<Seq<char>>, entry: spec_fn(int) -> Seq<DiffView>, k: int)
    requires
        forall|i: int| 0 <= i < k ==> (#[trigger] entry(i)).len() == 0,
    ensures
        firsts_mapped(names, entry, k).len() == 0,
{
    lemma_firsts_mapped_empty(names, entry, k);
}

/// The public symbol comparison reports every name of an old public symbol that no new one
/// has as missing in the new report, every name of a new public symbol that no old one
/// has as only in the new report, and nothing but category "symbols".
pub proof fn lemma_public_names_reported(old: Seq<crate::old_pdb::PublicSymbol>, new: Seq<crate::new_pdb::PublicSymbol>)
    ensures
        forall|n: Seq<char>|
            names(old).contains(n) && !names(new).contains(n) ==> #[trigger] public_diffs(old, new).contains(
                ("symbols"@, "Public symbol '"@ + n + "' missing in new parser"@, Some(
                    old[last_named(names(old), n)].spec_debug_text(),
                ), None),
            ),
        forall|n: Seq<char>|
            names(new).contains(n) && !names(old).contains(n) ==> #[trigger] public_diffs(old, new).contains(
                ("symbols"@, "Public symbol '"@ + n + "' only in new parser"@, None, Some(
                    new[last_named(names(new), n)].spec_debug_text(),
                )),
            ),
        forall|j: int| 0 <= j < public_diffs(old, new).len() ==> (#[trigger] public_diffs(old, new)[j]).0 == "symbols"@,
{
    let left = firsts_mapped(names(old), public_old_entry(old, new), old.len() as int);
    let right = firsts_mapped(names(new), public_new_entry(old, new), new.len() as int);
    assert(public_diffs(old, new) == left + right);
    assert forall|n: Seq<char>| names(old).contains(n) && !names(new).contains(n) implies #[trigger] public_diffs(
        old,
        new,
    ).contains(
        ("symbols"@, "Public symbol '"@ + n + "' missing in new parser"@, Some(
            old[last_named(names(old), n)].spec_debug_text(),
        ), None),
    ) by {
        let i = lemma_first_occurrence(names(old), n);
        lemma_last_named_contains(names(new), n);
        let d = ("symbols"@, "Public symbol '"@ + n + "' missing in new parser"@, Some(
            old[last_named(names(old), n)].spec_debug_text(),
        ), None);
        assert(public_old_entry(old, new)(i)[0] == d);
        lemma_firsts_mapped_contains(names(old), public_old_entry(old, new), old.len() as int, i, d);
        let j = choose|j: int| 0 <= j < left.len() && #[trigger] left[j] == d;
        assert((left + right)[j] == d);
    }
    assert forall|n: Seq<char>| names(new).contains(n) && !names(old).contains(n) implies #[trigger] public_diffs(
        old,
        new,
    ).contains(
        ("symbols"@, "Public symbol '"@ + n + "' only in new parser"@, None, Some(
            new[last_named(names(new), n)].spec_debug_text(),
        )),
    ) by {
        let i = lemma_first_occurrence(names(new), n);
        lemma_last_named_contains(names(old), n);
        let d = ("symbols"@, "Public symbol '"@ + n + "' only in new parser"@, None, Some(
            new[last_named(names(new), n)].spec_debug_text(),
        ));
        assert(public_new_entry(old, new)(i)[0] == d);
        lemma_firsts_mapped_contains(names(new), public_new_entry(old, new), new.len() as int, i, d);
        let j = choose|j: int| 0 <= j < right.len() && #[trigger] right[j] == d;
        assert((left + right)[left.len() + j] == d);
    }
    assert forall|i: int, j: int|
        0 <= i < old.len() && 0 <= j < public_old_entry(old, new)(i).len() implies (#[trigger] public_old_entry(
        old,
        new,
    )(i)[j]).0 == "symbols"@ by {
        let n = old[i].name@;
        lemma_last_named(names(old), n);
        lemma_last_named(names(new), n);
    }
    assert forall|i: int, j: int|
        0 <= i < new.len() && 0 <= j < public_new_entry(old, new)(i).len() implies (#[trigger] public_new_entry(
        old,
        new,
    )(i)[j]).0 == "symbols"@ by {}
    lemma_firsts_mapped_category(names(old), public_old_entry(old, new), old.len() as int, "symbols"@);
    lemma_firsts_mapped_category(names(new), public_new_entry(old, new), new.len() as int, "symbols"@);
    assert forall|j: int| 0 <= j < public_diffs(old, new).len() implies (#[trigger] public_diffs(old, new)[j]).0
        == "symbols"@ by {
        if j < left.len() {
            assert((left + right)[j] == left[j]);
        } else {
            assert((left + right)[j] == right[j - left.len()]);
        }
    }
}

/// Two public symbol lists with the same names, whose last records of each name
/// agree on offset and whether it is a function, give no difference.
pub proof fn lemma_public_same_names_agree(old: Seq<crate::old_pdb::PublicSymbol>, new: Seq<crate::new_pdb::PublicSymbol>)
    requires
        forall|n: Seq<char>| #[trigger] names(old).contains(n) <==> names(new).contains(n),
        forall|n: Seq<char>|
            #[trigger] names(old).contains(n) ==> {
                let (o, w) = (old[last_named(names(old), n)], new[last_named(names(new), n)]);
                o.offset == w.offset && o.is_function == w.is_function
            },
    ensures
        public_diffs(old, new).len() == 0,
{
    assert forall|i: int| 0 <= i < old.len() implies (#[trigger] public_old_entry(old, new)(i)).len() == 0 by {
        let n = old[i].name@;
        assert(names(old)[i] == n);
        assert(names(old).contains(n));
        lemma_last_named_contains(names(new), n);
        lemma_last_named(names(old), n);
        lemma_last_named(names(new), n);
        let (o, w) = (old[last_named(names(old), n)], new[last_named(names(new), n)]);
        assert(public_pair_diffs(o, w) =~= Seq::<DiffView>::empty());
    }
    assert forall|i: int| 0 <= i < new.len() implies (#[trigger] public_new_entry(old, new)(i)).len() == 0 by {
        let n = new[i].name@;
        assert(names(new)[i] == n);
        assert(names(new).contains(n));
        lemma_last_named_contains(names(old), n);
    }
    lemma_no_entries(names(old), public_old_entry(old, new), old.len() as int);
    lemma_no_entries(names(new), public_new_entry(old, new), new.len() as int);
}

/// The procedure comparison reports every name of an old procedure that no new one
/// has as missing in the new report, every name of a new procedure that no old one
/// has as only in the new report, and nothing but category "symbols".
pub proof fn lemma_procedure_names_reported(old: Seq<crate::old_pdb::ProcedureSymbol>, new: Seq<crate::new_pdb::ProcedureSymbol>)
    ensures
        forall|n: Seq<char>|
            names(old).contains(n) && !names(new).contains(n) ==> #[trigger] procedure_diffs(old, new).contains(
                ("symbols"@, "Procedure '"@ + n + "' missing in new parser"@, Some(
                    old[last_named(names(old), n)].spec_debug_text(),
                ), None),
            ),
        forall|n: Seq<char>|
            names(new).contains(n) && !names(old).contains(n) ==> #[trigger] procedure_diffs(old, new).contains(
                ("symbols"@, "Procedure '"@ + n + "' only in new parser"@, None, Some(
                    new[last_named(names(new), n)].spec_debug_text(),
                )),
            ),
        forall|j: int| 0 <= j < procedure_diffs(old, new).len() ==> (#[trigger] procedure_diffs(old, new)[j]).0 == "symbols"@,
{
    let left = firsts_mapped(names(old), procedure_old_entry(old, new), old.len() as int);
    let right = firsts_mapped(names(new), procedure_new_entry(old, new), new.len() as int);
    assert(procedure_diffs(old, new) == left + right);
    assert forall|n: Seq<char>| names(old).contains(n) && !names(new).contains(n) implies #[trigger] procedure_diffs(
        old,
        new,
    ).contains(
        ("symbols"@, "Procedure '"@ + n + "' missing in new parser"@, Some(
            old[last_named(names(old), n)].spec_debug_text(),
        ), None),
    ) by {
        let i = lemma_first_occurrence(names(old), n);
        lemma_last_named_contains(names(new), n);
        let d = ("symbols"@, "Procedure '"@ + n + "' missing in new parser"@, Some(
            old[last_named(names(old), n)].spec_debug_text(),
        ), None);
        assert(procedure_old_entry(old, new)(i)[0] == d);
        lemma_firsts_mapped_contains(names(old), procedure_old_entry(old, new), old.len() as int, i, d);
        let j = choose|j: int| 0 <= j < left.len() && #[trigger] left[j] == d;
        assert((left + right)[j] == d);
    }
    assert forall|n: Seq<char>| names(new).contains(n) && !names(old).contains(n) implies #[trigger] procedure_diffs(
        old,
        new,
    ).contains(
        ("symbols"@, "Procedure '"@ + n + "' only in new parser"@, None, Some(
            new[last_named(names(new), n)].spec_debug_text(),
        )),
    ) by {
        let i = lemma_first_occurrence(names(new), n);
        lemma_last_named_contains(names(old), n);
        let d = ("symbols"@, "Procedure '"@ + n + "' only in new parser"@, None, Some(
            new[last_named(names(new), n)].spec_debug_text(),
        ));
        assert(procedure_new_entry(old, new)(i)[0] == d);
        lemma_firsts_mapped_contains(names(new), procedure_new_entry(old, new), new.len() as int, i, d);
        let j = choose|j: int| 0 <= j < right.len() && #[trigger] right[j] == d;
        assert((left + right)[left.len() + j] == d);
    }
    assert forall|i: int, j: int|
        0 <= i < old.len() && 0 <= j < procedure_old_entry(old, new)(i).len() implies (#[trigger] procedure_old_entry(
        old,
        new,
    )(i)[j]).0 == "symbols"@ by {
        let n = old[i].name@;
        lemma_last_named(names(old), n);
        lemma_last_named(names(new), n);
    }
    assert forall|i: int, j: int|
        0 <= i < new.len() && 0 <= j < procedure_new_entry(old, new)(i).len() implies (#[trigger] procedure_new_entry(
        old,
        new,
    )(i)[j]).0 == "symbols"@ by {}
    lemma_firsts_mapped_category(names(old), procedure_old_entry(old, new), old.len() as int, "symbols"@);
    lemma_firsts_mapped_category(names(new), procedure_new_entry(old, new), new.len() as int, "symbols"@);
    assert forall|j: int| 0 <= j < procedure_diffs(old, new).len() implies (#[trigger] procedure_diffs(old, new)[j]).0
        == "symbols"@ by {
        if j < left.len() {
            assert((left + right)[j] == left[j]);
        } else {
            assert((left + right)[j] == right[j - left.len()]);
        }
    }
}

/// Two procedure lists with the same names, whose last records of each name
/// agree on offset and length, give no difference.
pub proof fn lemma_procedure_same_names_agree(old: Seq<crate::old_pdb::ProcedureSymbol>, new: Seq<crate::new_pdb::ProcedureSymbol>)
    requires
        forall|n: Seq<char>| #[trigger] names(old).contains(n) <==> names(new).contains(n),
        forall|n: Seq<char>|
            #[trigger] names(old).contains(n) ==> {
                let (o, w) = (old[last_named(names(old), n)], new[last_named(names(new), n)]);
                o.offset == w.offset && o.len == w.len
            },
    ensures
        procedure_diffs(old, new).len() == 0,
{
    assert forall|i: int| 0 <= i < old.len() implies (#[trigger] procedure_old_entry(old, new)(i)).len() == 0 by {
        let n = old[i].name@;
        assert(names(old)[i] == n);
        assert(names(old).contains(n));
        lemma_last_named_contains(names(new), n);
        lemma_last_named(names(old), n);
        lemma_last_named(names(new), n);
        let (o, w) = (old[last_named(names(old), n)], new[last_named(names(new), n)]);
        assert(procedure_pair_diffs(o, w) =~= Seq::<DiffView>::empty());
    }
    assert forall|i: int| 0 <= i < new.len() implies (#[trigger] procedure_new_entry(old, new)(i)).len() == 0 by {
        let n = new[i].name@;
        assert(names(new)[i] == n);
        assert(names(new).contains(n));
        lemma_last_named_contains(names(old), n);
    }
    lemma_no_entries(names(old), procedure_old_entry(old, new), old.len() as int);
    lemma_no_entries(names(new), procedure_new_entry(old, new), new.len() as int);
}

/// The data symbol comparison reports every name of an old data symbol that no new one
/// has as missing in the new report, every name of a new data symbol that no old one
/// has as only in the new report, and nothing but category "symbols".
pub proof fn lemma_data_names_reported(old: Seq<crate::old_pdb::DataSymbol>, new: Seq<crate::new_pdb::DataSymbol>)
    ensures
        forall|n: Seq<char>|
            names(old).contains(n) && !names(new).contains(n) ==> #[trigger] data_diffs(old, new).contains(
                ("symbols"@, "Data symbol '"@ + n + "' missing in new parser"@, Some(
                    old[last_named(names(old), n)].spec_debug_text(),
                ), None),
            ),
        forall|n: Seq<char>|
            names(new).contains(n) && !names(old).contains(n) ==> #[trigger] data_diffs(old, new).contains(
                ("symbols"@, "Data symbol '"@ + n + "' only in new parser"@, None, Some(
                    new[last_named(names(new), n)].spec_debug_text(),
                )),
            ),
        forall|j: int| 0 <= j < data_diffs(old, new).len() ==> (#[trigger] data_diffs(old, new)[j]).0 == "symbols"@,
{
    let left = firsts_mapped(names(old), data_old_entry(old, new), old.len() as int);
    let right = firsts_mapped(names(new), data_new_entry(old, new), new.len() as int);
    assert(data_diffs(old, new) == left + right);
    assert forall|n: Seq<char>| names(old).contains(n) && !names(new).contains(n) implies #[trigger] data_diffs(
        old,
        new,
    ).contains(
        ("symbols"@, "Data symbol '"@ + n + "' missing in new parser"@, Some(
            old[last_named(names(old), n)].spec_debug_text(),
        ), None),
    ) by {
        let i = lemma_first_occurrence(names(old), n);
        lemma_last_named_contains(names(new), n);
        let d = ("symbols"@, "Data symbol '"@ + n + "' missing in new parser"@, Some(
            old[last_named(names(old), n)].spec_debug_text(),
        ), None);
        assert(data_old_entry(old, new)(i)[0] == d);
        lemma_firsts_mapped_contains(names(old), data_old_entry(old, new), old.len() as int, i, d);
        let j = choose|j: int| 0 <= j < left.len() && #[trigger] left[j] == d;
        assert((left + right)[j] == d);
    }
    assert forall|n: Seq<char>| names(new).contains(n) && !names(old).contains(n) implies #[trigger] data_diffs(
        old,
        new,
    ).contains(
        ("symbols"@, "Data symbol '"@ + n + "' only in new parser"@, None, Some(
            new[last_named(names(new), n)].spec_debug_text(),
        )),
    ) by {
        let i = lemma_first_occurrence(names(new), n);
        lemma_last_named_contains(names(old), n);
        let d = ("symbols"@, "Data symbol '"@ + n + "' only in new parser"@, None, Some(
            new[last_named(names(new), n)].spec_debug_text(),
        ));
        assert(data_new_entry(old, new)(i)[0] == d);
        lemma_firsts_mapped_contains(names(new), data_new_entry(old, new), new.len() as int, i, d);
        let j = choose|j: int| 0 <= j < right.len() && #[trigger] right[j] == d;
        assert((left + right)[left.len() + j] == d);
    }
    assert forall|i: int, j: int|
        0 <= i < old.len() && 0 <= j < data_old_entry(old, new)(i).len() implies (#[trigger] data_old_entry(
        old,
        new,
    )(i)[j]).0 == "symbols"@ by {
        let n = old[i].name@;
        lemma_last_named(names(old), n);
        lemma_last_named(names(new), n);
    }
    assert forall|i: int, j: int|
        0 <= i < new.len() && 0 <= j < data_new_entry(old, new)(i).len() implies (#[trigger] data_new_entry(
        old,
        new,
    )(i)[j]).0 == "symbols"@ by {}
    lemma_firsts_mapped_category(names(old), data_old_entry(old, new), old.len() as int, "symbols"@);
    lemma_firsts_mapped_category(names(new), data_new_entry(old, new), new.len() as int, "symbols"@);
    assert forall|j: int| 0 <= j < data_diffs(old, new).len() implies (#[trigger] data_diffs(old, new)[j]).0
        == "symbols"@ by {
        if j < left.len() {
            assert((left + right)[j] == left[j]);
        } else {
            assert((left + right)[j] == right[j - left.len()]);
        }
    }
}

/// Two data symbol lists with the same names, whose last records of each name
/// agree on offset, give no difference.
pub proof fn lemma_data_same_names_agree(old: Seq<crate::old_pdb::DataSymbol>, new: Seq<crate::new_pdb::DataSymbol>)
    requires
        forall|n: Seq<char>| #[trigger] names(old).contains(n) <==> names(new).contains(n),
        forall|n: Seq<char>|
            #[trigger] names(old).contains(n) ==> {
                let (o, w) = (old[last_named(names(old), n)], new[last_named(names(new), n)]);
                o.offset == w.offset
            },
    ensures
        data_diffs(old, new).len() == 0,
{
    assert forall|i: int| 0 <= i < old.len() implies (#[trigger] data_old_entry(old, new)(i)).len() == 0 by {
        let n = old[i].name@;
        assert(names(old)[i] == n);
        assert(names(old).contains(n));
        lemma_last_named_contains(names(new), n);
        lemma_last_named(names(old), n);
        lemma_last_named(names(new), n);
        let (o, w) = (old[last_named(names(old), n)], new[last_named(names(new), n)]);
        assert(data_pair_diffs(o, w) =~= Seq::<DiffView>::empty());
    }
    assert forall|i: int| 0 <= i < new.len() implies (#[trigger] data_new_entry(old, new)(i)).len() == 0 by {
        let n = new[i].name@;
        assert(names(new)[i] == n);
        assert(names(new).contains(n));
        lemma_last_named_contains(names(old), n);
    }
    lemma_no_entries(names(old), data_old_entry(old, new), old.len() as int);
    lemma_no_entries(names(new), data_new_entry(old, new), new.len() as int);
}


// ---------------------------------------------------------------------------
// Laws of the comparison of types
// ---------------------------------------------------------------------------

proof fn lemma_positions_contains(ix: Seq<u32>, x: u32)
    ensures
        positions(ix).contains_key(x) <==> ix.contains(x),
    decreases ix.len(),
{
    if ix.len() > 0 {
        let d = ix.drop_last();
        lemma_positions_contains(d, x);
        if d.contains(x) {
            let w = choose|w: int| 0 <= w < d.len() && d[w] == x;
            assert(ix[w] == x);
        }
        if ix.contains(x) && ix.last() != x {
            let w = choose|w: int| 0 <= w < ix.len() && ix[w] == x;
            assert(d[w] == x);
        }
    }
}

proof fn lemma_old_type_diffs_contains(
    old: Seq<crate::old_pdb::TypeInfo>,
    new: Seq<crate::new_pdb::TypeInfo>,
    k: int,
    i: int,
    d: DiffView,
)
    requires
        0 <= i < k,
        old_type_entry(old[i], new).contains(d),
    ensures
        old_type_diffs(old, new, k).contains(d),
    decreases k,
{
    let prefix = old_type_diffs(old, new, k - 1);
    if i < k - 1 {
        lemma_old_type_diffs_contains(old, new, k - 1, i, d);
        let j = choose|j: int| 0 <= j < prefix.len() && #[trigger] prefix[j] == d;
        assert(old_type_diffs(old, new, k)[j] == d);
    } else {
        let e = old_type_entry(old[i], new);
        let j = choose|j: int| 0 <= j < e.len() && #[trigger] e[j] == d;
        assert(old_type_diffs(old, new, k)[prefix.len() + j] == d);
    }
}

proof fn lemma_new_type_diffs_contains(
    old: Seq<crate::old_pdb::TypeInfo>,
    new: Seq<crate::new_pdb::TypeInfo>,
    k: int,
    i: int,
)
    requires
        0 <= i < k,
        !positions(old_indices(old)).contains_key(new[i].index),
    ensures
        new_type_diffs(old, new, k).contains(
            ("types"@, type_desc(new[i].index, " only in new parser"@), None, Some(new[i].spec_debug_text())),
        ),
    decreases k,
{
    let d: DiffView = ("types"@, type_desc(new[i].index, " only in new parser"@), None, Some(new[i].spec_debug_text()));
    let prefix = new_type_diffs(old, new, k - 1);
    if i < k - 1 {
        lemma_new_type_diffs_contains(old, new, k - 1, i);
        let j = choose|j: int| 0 <= j < prefix.len() && #[trigger] prefix[j] == d;
        assert(new_type_diffs(old, new, k)[j] == d);
    } else {
        assert(new_type_diffs(old, new, k)[prefix.len() as int] == d);
    }
}

proof fn lemma_type_diffs_category(old: Seq<crate::old_pdb::TypeInfo>, new: Seq<crate::new_pdb::TypeInfo>, k: int)
    ensures
        forall|j: int| 0 <= j < old_type_diffs(old, new, k).len() ==> (#[trigger] old_type_diffs(old, new, k)[j]).0 == "types"@,
        forall|j: int| 0 <= j < new_type_diffs(old, new, k).len() ==> (#[trigger] new_type_diffs(old, new, k)[j]).0 == "types"@,
    decreases k,
{
    if k > 0 {
        lemma_type_diffs_category(old, new, k - 1);
        let p1 = old_type_diffs(old, new, k - 1);
        let p2 = new_type_diffs(old, new, k - 1);
        assert forall|j: int| 0 <= j < old_type_diffs(old, new, k).len() implies (#[trigger] old_type_diffs(
            old,
            new,
            k,
        )[j]).0 == "types"@ by {
            if j < p1.len() {
                assert(old_type_diffs(old, new, k)[j] == p1[j]);
            }
        }
        assert forall|j: int| 0 <= j < new_type_diffs(old, new, k).len() implies (#[trigger] new_type_diffs(
            old,
            new,
            k,
        )[j]).0 == "types"@ by {
            if j < p2.len() {
                assert(new_type_diffs(old, new, k)[j] == p2[j]);
            }
        }
    }
}

/// The type comparison reports every old type whose index no new type has as
/// missing in the new report, every new type whose index no old type has as
/// only in the new report, and nothing but category "types".
pub proof fn lemma_types_reported(old: Seq<crate::old_pdb::TypeInfo>, new: Seq<crate::new_pdb::TypeInfo>)
    ensures
        forall|i: int|
            0 <= i < old.len() && !new_indices(new).contains(#[trigger] old[i].index) ==> type_diffs(old, new).contains(
                ("types"@, type_desc(old[i].index, " missing in new parser"@), Some(old[i].spec_debug_text()), None),
            ),
        forall|i: int|
            0 <= i < new.len() && !old_indices(old).contains(#[trigger] new[i].index) ==> type_diffs(old, new).contains(
                ("types"@, type_desc(new[i].index, " only in new parser"@), None, Some(new[i].spec_debug_text())),
            ),
        forall|j: int| 0 <= j < type_diffs(old, new).len() ==> (#[trigger] type_diffs(old, new)[j]).0 == "types"@,
{
    let left = old_type_diffs(old, new, old.len() as int);
    let right = new_type_diffs(old, new, new.len() as int);
    assert forall|i: int|
        0 <= i < old.len() && !new_indices(new).contains(#[trigger] old[i].index) implies type_diffs(old, new).contains(
        ("types"@, type_desc(old[i].index, " missing in new parser"@), Some(old[i].spec_debug_text()), None),
    ) by {
        let d = ("types"@, type_desc(old[i].index, " missing in new parser"@), Some(old[i].spec_debug_text()), None);
        lemma_positions_contains(new_indices(new), old[i].index);
        assert(old_type_entry(old[i], new)[0] == d);
        lemma_old_type_diffs_contains(old, new, old.len() as int, i, d);
        let j = choose|j: int| 0 <= j < left.len() && #[trigger] left[j] == d;
        assert((left + right)[j] == d);
    }
    assert forall|i: int|
        0 <= i < new.len() && !old_indices(old).contains(#[trigger] new[i].index) implies type_diffs(old, new).contains(
        ("types"@, type_desc(new[i].index, " only in new parser"@), None, Some(new[i].spec_debug_text())),
    ) by {
        let d: DiffView = ("types"@, type_desc(new[i].index, " only in new parser"@), None, Some(new[i].spec_debug_text()));
        lemma_positions_contains(old_indices(old), new[i].index);
        lemma_new_type_diffs_contains(old, new, new.len() as int, i);
        let j = choose|j: int| 0 <= j < right.len() && #[trigger] right[j] == d;
        assert((left + right)[left.len() + j] == d);
    }
    lemma_type_diffs_category(old, new, old.len() as int);
    lemma_type_diffs_category(old, new, new.len() as int);
    assert forall|j: int| 0 <= j < type_diffs(old, new).len() implies (#[trigger] type_diffs(old, new)[j]).0 == "types"@ by {
        if j < left.len() {
            assert((left + right)[j] == left[j]);
        } else {
            assert((left + right)[j] == right[j - left.len()]);
        }
    }
}

/// The new type that stands for index `x`: the last one of that index.
pub open spec fn last_with_index(new: Seq<crate::new_pdb::TypeInfo>, x: u32) -> crate::new_pdb::TypeInfo {
    new[positions(new_indices(new))[x] as int]
}

/// Two type lists with the same indices, each old type agreeing with the last
/// new type of its index on kind, name and size, give no difference.
pub proof fn lemma_same_types_agree(old: Seq<crate::old_pdb::TypeInfo>, new: Seq<crate::new_pdb::TypeInfo>)
    requires
        forall|x: u32| #[trigger] old_indices(old).contains(x) <==> new_indices(new).contains(x),
        forall|i: int|
            0 <= i < old.len() ==> {
                let w = last_with_index(new, (#[trigger] old[i]).index);
                old[i].kind@ == w.kind@ && opt_text(old[i].name) == opt_text(w.name) && old[i].size == w.size
            },
    ensures
        type_diffs(old, new).len() == 0,
{
    lemma_same_types_agree_upto(old, new, old.len() as int, new.len() as int);
}

proof fn lemma_same_types_agree_upto(old: Seq<crate::old_pdb::TypeInfo>, new: Seq<crate::new_pdb::TypeInfo>, k: int, m: int)
    requires
        0 <= k <= old.len(),
        0 <= m <= new.len(),
        forall|x: u32| #[trigger] old_indices(old).contains(x) <==> new_indices(new).contains(x),
        forall|i: int|
            0 <= i < old.len() ==> {
                let w = last_with_index(new, (#[trigger] old[i]).index);
                old[i].kind@ == w.kind@ && opt_text(old[i].name) == opt_text(w.name) && old[i].size == w.size
            },
    ensures
        old_type_diffs(old, new, k).len() == 0,
        new_type_diffs(old, new, m).len() == 0,
    decreases k + m,
{
    if k > 0 {
        lemma_same_types_agree_upto(old, new, k - 1, m);
        let i = k - 1;
        assert(old_indices(old)[i] == old[i].index);
        assert(old_indices(old).contains(old[i].index));
        lemma_positions_contains(new_indices(new), old[i].index);
        assert(type_pair_diffs(old[i], last_with_index(new, old[i].index)) =~= Seq::<DiffView>::empty());
    } else if m > 0 {
        lemma_same_types_agree_upto(old, new, k, m - 1);
        let i = m - 1;
        assert(new_indices(new)[i] == new[i].index);
        assert(new_indices(new).contains(new[i].index));
        lemma_positions_contains(old_indices(old), new[i].index);
    }
}

// ---------------------------------------------------------------------------
// Agreeing reports
// ---------------------------------------------------------------------------

/// Whether two reports say the same: the header; each type's index, kind,
/// name and size; each symbol's name, offset and other compared field; each
/// module's name and object file; all in the same order.
pub open spec fn reports_agree(old_data: OldPdbData, new_data: NewPdbData) -> bool {
    let (ot, nt) = (old_data.types@, new_data.types@);
    let (op, np) = (old_data.symbols.public_symbols@, new_data.symbols.public_symbols@);
    let (oq, nq) = (old_data.symbols.procedures@, new_data.symbols.procedures@);
    let (od, nd) = (old_data.symbols.data_symbols@, new_data.symbols.data_symbols@);
    let (om, nm) = (old_data.modules@, new_data.modules@);
    &&& old_data.header.age == new_data.header.age
    &&& old_data.header.guid@ == new_data.header.guid@
    &&& ot.len() == nt.len()
    &&& forall|i: int|
        0 <= i < ot.len() ==> (#[trigger] ot[i]).index == nt[i].index && ot[i].kind@ == nt[i].kind@
            && opt_text(ot[i].name) == opt_text(nt[i].name) && ot[i].size == nt[i].size
    &&& op.len() == np.len()
    &&& forall|i: int|
        0 <= i < op.len() ==> (#[trigger] op[i]).name@ == np[i].name@ && op[i].offset == np[i].offset
            && op[i].is_function == np[i].is_function
    &&& oq.len() == nq.len()
    &&& forall|i: int|
        0 <= i < oq.len() ==> (#[trigger] oq[i]).name@ == nq[i].name@ && oq[i].offset == nq[i].offset
            && oq[i].len == nq[i].len
    &&& od.len() == nd.len()
    &&& forall|i: int|
        0 <= i < od.len() ==> (#[trigger] od[i]).name@ == nd[i].name@ && od[i].offset == nd[i].offset
    &&& om.len() == nm.len()
    &&& forall|i: int|
        0 <= i < om.len() ==> (#[trigger] om[i]).name@ == nm[i].name@ && om[i].object_file@
            == nm[i].object_file@
}

/// Whether no two of `indices` are equal.
pub open spec fn distinct_indices(indices: Seq<u32>) -> bool {
    forall|i: int, j: int| 0 <= i < j < indices.len() ==> indices[i] != indices[j]
}

/// Whether no two of `names` are equal.
pub open spec fn distinct_names(names: Seq<Seq<char>>) -> bool {
    forall|i: int, j: int| 0 <= i < j < names.len() ==> names[i] != names[j]
}

proof fn lemma_positions_distinct(indices: Seq<u32>, i: int)
    requires
        distinct_indices(indices),
        0 <= i < indices.len(),
        indices.len() <= usize::MAX,
    ensures
        positions(indices).contains_key(indices[i]),
        positions(indices)[indices[i]] == i,
    decreases indices.len(),
{
    if i < indices.len() - 1 {
        let d = indices.drop_last();
        assert(distinct_indices(d));
        assert(d[i] == indices[i]);
        lemma_positions_distinct(d, i);
        assert(indices.last() != indices[i]);
    }
}

proof fn lemma_last_named_distinct(names: Seq<Seq<char>>, i: int)
    requires
        distinct_names(names),
        0 <= i < names.len(),
    ensures
        last_named(names, names[i]) == i,
        first_named(names, i),
{
    lemma_last_named(names, names[i]);
    let l = last_named(names, names[i]);
    if l != i {
        assert(names[i] == names[l]);
    }
}

proof fn lemma_firsts_mapped_empty(names: Seq<Seq<char>>, entry: spec_fn(int) -> Seq<DiffView>, k: int)
    requires
        forall|i: int| 0 <= i < k && first_named(names, i) ==> (#[trigger] entry(i)).len() == 0,
    ensures
        firsts_mapped(names, entry, k).len() == 0,
    decreases k,
{
    if k > 0 {
        lemma_firsts_mapped_empty(names, entry, k - 1);
    }
}

proof fn lemma_type_diffs_empty(old: Seq<crate::old_pdb::TypeInfo>, new: Seq<crate::new_pdb::TypeInfo>, k: int)
    requires
        old.len() == new.len(),
        old.len() <= usize::MAX,
        0 <= k <= old.len(),
        distinct_indices(old_indices(old)),
        forall|i: int|
            0 <= i < old.len() ==> (#[trigger] old[i]).index == new[i].index && old[i].kind@ == new[i].kind@
                && opt_text(old[i].name) == opt_text(new[i].name) && old[i].size == new[i].size,
    ensures
        old_type_diffs(old, new, k).len() == 0,
        new_type_diffs(old, new, k).len() == 0,
    decreases k,
{
    if k > 0 {
        lemma_type_diffs_empty(old, new, k - 1);
        let i = k - 1;
        assert(old_indices(old) =~= new_indices(new)) by {
            assert forall|j: int| 0 <= j < old.len() implies old_indices(old)[j] == new_indices(new)[j] by {
                assert(old[j].index == new[j].index);
            }
        }
        assert(old_indices(old)[i] == old[i].index);
        lemma_positions_distinct(old_indices(old), i);
        assert(type_pair_diffs(old[i], new[i]) =~= Seq::<DiffView>::empty());
    }
}

/// Two reports that say the same give no differences, where no two types of
/// the old report share an index and no two symbols of one kind, or modules,
/// of the old report share a name.
pub proof fn lemma_agreeing_reports_have_no_differences(old_data: OldPdbData, new_data: NewPdbData)
    requires
        reports_agree(old_data, new_data),
        old_data.types@.len() <= usize::MAX,
        distinct_indices(old_indices(old_data.types@)),
        distinct_names(names(old_data.symbols.public_symbols@)),
        distinct_names(names(old_data.symbols.procedures@)),
        distinct_names(names(old_data.symbols.data_symbols@)),
        distinct_names(names(old_data.modules@)),
    ensures
        all_diffs(old_data, new_data).len() == 0,
{
    let (ot, nt) = (old_data.types@, new_data.types@);
    lemma_type_diffs_empty(ot, nt, ot.len() as int);

    let (op, np) = (old_data.symbols.public_symbols@, new_data.symbols.public_symbols@);
    assert(names(op) =~= names(np));
    assert forall|i: int| 0 <= i < op.len() && first_named(names(op), i) implies (#[trigger] public_old_entry(op, np)(i)).len() == 0 by {
        lemma_last_named_distinct(names(op), i);
        assert(public_pair_diffs(op[i], np[i]) =~= Seq::<DiffView>::empty());
    }
    lemma_firsts_mapped_empty(names(op), public_old_entry(op, np), op.len() as int);
    assert forall|i: int| 0 <= i < np.len() && first_named(names(np), i) implies (#[trigger] public_new_entry(op, np)(i)).len() == 0 by {
        lemma_last_named_distinct(names(op), i);
    }
    lemma_firsts_mapped_empty(names(np), public_new_entry(op, np), np.len() as int);

    let (oq, nq) = (old_data.symbols.procedures@, new_data.symbols.procedures@);
    assert(names(oq) =~= names(nq));
    assert forall|i: int| 0 <= i < oq.len() && first_named(names(oq), i) implies (#[trigger] procedure_old_entry(oq, nq)(i)).len() == 0 by {
        lemma_last_named_distinct(names(oq), i);
        assert(procedure_pair_diffs(oq[i], nq[i]) =~= Seq::<DiffView>::empty());
    }
    lemma_firsts_mapped_empty(names(oq), procedure_old_entry(oq, nq), oq.len() as int);
    assert forall|i: int| 0 <= i < nq.len() && first_named(names(nq), i) implies (#[trigger] procedure_new_entry(oq, nq)(i)).len() == 0 by {
        lemma_last_named_distinct(names(oq), i);
    }
    lemma_firsts_mapped_empty(names(nq), procedure_new_entry(oq, nq), nq.len() as int);

    let (od, nd) = (old_data.symbols.data_symbols@, new_data.symbols.data_symbols@);
    assert(names(od) =~= names(nd));
    assert forall|i: int| 0 <= i < od.len() && first_named(names(od), i) implies (#[trigger] data_old_entry(od, nd)(i)).len() == 0 by {
        lemma_last_named_distinct(names(od), i);
        assert(data_pair_diffs(od[i], nd[i]) =~= Seq::<DiffView>::empty());
    }
    lemma_firsts_mapped_empty(names(od), data_old_entry(od, nd), od.len() as int);
    assert forall|i: int| 0 <= i < nd.len() && first_named(names(nd), i) implies (#[trigger] data_new_entry(od, nd)(i)).len() == 0 by {
        lemma_last_named_distinct(names(od), i);
    }
    lemma_firsts_mapped_empty(names(nd), data_new_entry(od, nd), nd.len() as int);

    let (om, nm) = (old_data.modules@, new_data.modules@);
    assert(names(om) =~= names(nm));
    assert forall|i: int| 0 <= i < om.len() && first_named(names(om), i) implies (#[trigger] module_old_entry(om, nm)(i)).len() == 0 by {
        lemma_last_named_distinct(names(om), i);
        assert(module_pair_diffs(om[i], nm[i]) =~= Seq::<DiffView>::empty());
    }
    lemma_firsts_mapped_empty(names(om), module_old_entry(om, nm), om.len() as int);
    assert forall|i: int| 0 <= i < nm.len() && first_named(names(nm), i) implies (#[trigger] module_new_entry(om, nm)(i)).len() == 0 by {
        lemma_last_named_distinct(names(om), i);
    }
    lemma_firsts_mapped_empty(names(nm), module_new_entry(om, nm), nm.len() as int);
}

// ---------------------------------------------------------------------------
// Each name missing from one report is reported once
// ---------------------------------------------------------------------------

/// Whether `d` occurs exactly once in `s`.
pub open spec fn occurs_once(s: Seq<DiffView>, d: DiffView) -> bool {
    &&& s.contains(d)
    &&& forall|p: int, q: int| 0 <= p < s.len() && 0 <= q < s.len() && s[p] == d && s[q] == d ==> p == q
}

/// Each difference of `firsts_mapped(names, entry, k)` is one of the entry of
/// a first position below `k`.
proof fn lemma_firsts_mapped_from(names: Seq<Seq<char>>, entry: spec_fn(int) -> Seq<DiffView>, k: int, j: int) -> (ia: (
    int,
    int,
))
    requires
        0 <= j < firsts_mapped(names, entry, k).len(),
    ensures
        0 <= ia.0 < k,
        first_named(names, ia.0),
        0 <= ia.1 < entry(ia.0).len(),
        entry(ia.0)[ia.1] == firsts_mapped(names, entry, k)[j],
    decreases k,
{
    if k <= 0 {
        assert(firsts_mapped(names, entry, k).len() == 0);
    }
    let pre = firsts_mapped(names, entry, k - 1);
    let tail = if first_named(names, k - 1) {
        entry(k - 1)
    } else {
        Seq::<DiffView>::empty()
    };
    assert(firsts_mapped(names, entry, k) == pre + tail);
    if j < pre.len() {
        assert(firsts_mapped(names, entry, k)[j] == pre[j]);
        lemma_firsts_mapped_from(names, entry, k - 1, j)
    } else {
        assert(firsts_mapped(names, entry, k)[j] == tail[j - pre.len()]);
        (k - 1, j - pre.len())
    }
}

/// A difference that only the entry of name `n` can hold, and that at most
/// once, occurs at most once in `firsts_mapped(names, entry, k)`.
proof fn lemma_firsts_mapped_once(
    names: Seq<Seq<char>>,
    entry: spec_fn(int) -> Seq<DiffView>,
    k: int,
    d: DiffView,
    n: Seq<char>,
)
    requires
        forall|i: int, a: int| 0 <= i < k && 0 <= a < entry(i).len() && #[trigger] entry(i)[a] == d ==> names[i] == n,
        forall|i: int, a: int, b: int|
            #![trigger entry(i)[a], entry(i)[b]]
            0 <= i < k && 0 <= a < entry(i).len() && 0 <= b < entry(i).len() && entry(i)[a] == d && entry(i)[b] == d
                ==> a == b,
    ensures
        forall|p: int, q: int|
            0 <= p < firsts_mapped(names, entry, k).len() && 0 <= q < firsts_mapped(names, entry, k).len()
                && #[trigger] firsts_mapped(names, entry, k)[p] == d && #[trigger] firsts_mapped(names, entry, k)[q]
                == d ==> p == q,
    decreases k,
{
    if k > 0 {
        lemma_firsts_mapped_once(names, entry, k - 1, d, n);
        let pre = firsts_mapped(names, entry, k - 1);
        let tail = if first_named(names, k - 1) {
            entry(k - 1)
        } else {
            Seq::<DiffView>::empty()
        };
        let all = firsts_mapped(names, entry, k);
        assert(all == pre + tail);
        assert forall|p: int, q: int|
            0 <= p < all.len() && 0 <= q < all.len() && #[trigger] all[p] == d && #[trigger] all[q] == d implies p
            == q by {
            if p < pre.len() && q < pre.len() {
                assert(all[p] == pre[p]);
                assert(all[q] == pre[q]);
            } else if p >= pre.len() && q >= pre.len() {
                assert(all[p] == tail[p - pre.len()]);
                assert(all[q] == tail[q - pre.len()]);
                assert(entry(k - 1)[p - pre.len()] == d);
                assert(entry(k - 1)[q - pre.len()] == d);
            } else {
                let x = if p < pre.len() {
                    p
                } else {
                    q
                };
                let y = if p < pre.len() {
                    q
                } else {
                    p
                };
                assert(all[x] == pre[x]);
                let ia = lemma_firsts_mapped_from(names, entry, k - 1, x);
                assert(entry(ia.0)[ia.1] == d);
                assert(all[y] == tail[y - pre.len()]);
                assert(first_named(names, k - 1));
                assert(entry(k - 1)[y - pre.len()] == d);
                assert(names[ia.0] != names[k - 1]);
            }
        }
    }
}

/// Two names put between the same two texts give one text only where they
/// are one name.
proof fn lemma_named_text_injective(prefix: Seq<char>, m: Seq<char>, x: Seq<char>, suffix: Seq<char>)
    requires
        prefix + m + suffix == prefix + x + suffix,
    ensures
        m == x,
{
    let a = prefix + m + suffix;
    let b = prefix + x + suffix;
    assert(a.len() == b.len());
    assert(m =~= a.subrange(prefix.len() as int, (prefix.len() + m.len()) as int));
    assert(x =~= b.subrange(prefix.len() as int, (prefix.len() + x.len()) as int));
}

/// The differences of the two sides of a comparison by name (the old side
/// gives, for a name the new report also has, differences with both values,
/// and else `missing` of it; the new side gives nothing for a name the old
/// report has, and else `only` of it): each name missing from the new report
/// is reported once, each name only in the new report once, and a difference
/// without a new value, or without an old one, is nothing else.
proof fn lemma_sides_report_once(
    old_names: Seq<Seq<char>>,
    new_names: Seq<Seq<char>>,
    old_entry: spec_fn(int) -> Seq<DiffView>,
    new_entry: spec_fn(int) -> Seq<DiffView>,
    missing: spec_fn(Seq<char>) -> DiffView,
    only: spec_fn(Seq<char>) -> DiffView,
)
    requires
        forall|m: Seq<char>| (#[trigger] missing(m)).2 is Some && missing(m).3 is None,
        forall|m: Seq<char>| (#[trigger] only(m)).2 is None && only(m).3 is Some,
        forall|m: Seq<char>, x: Seq<char>| #[trigger] missing(m) == #[trigger] missing(x) ==> m == x,
        forall|m: Seq<char>, x: Seq<char>| #[trigger] only(m) == #[trigger] only(x) ==> m == x,
        forall|i: int, a: int|
            0 <= i < old_names.len() && new_names.contains(old_names[i]) && 0 <= a < old_entry(i).len() ==> (
            #[trigger] old_entry(i)[a]).2 is Some && old_entry(i)[a].3 is Some,
        forall|i: int|
            0 <= i < old_names.len() && !new_names.contains(old_names[i]) ==> #[trigger] old_entry(i) == seq![
                missing(old_names[i]),
            ],
        forall|i: int|
            0 <= i < new_names.len() && old_names.contains(new_names[i]) ==> (#[trigger] new_entry(i)).len() == 0,
        forall|i: int|
            0 <= i < new_names.len() && !old_names.contains(new_names[i]) ==> #[trigger] new_entry(i) == seq![
                only(new_names[i]),
            ],
    ensures
        ({
            let diffs = firsts_mapped(old_names, old_entry, old_names.len() as int) + firsts_mapped(
                new_names,
                new_entry,
                new_names.len() as int,
            );
            &&& forall|n: Seq<char>|
                old_names.contains(n) && !new_names.contains(n) ==> occurs_once(diffs, #[trigger] missing(n))
            &&& forall|n: Seq<char>|
                new_names.contains(n) && !old_names.contains(n) ==> occurs_once(diffs, #[trigger] only(n))
            &&& forall|j: int|
                0 <= j < diffs.len() && (#[trigger] diffs[j]).3 is None ==> exists|n: Seq<char>|
                    old_names.contains(n) && !new_names.contains(n) && diffs[j] == #[trigger] missing(n)
            &&& forall|j: int|
                0 <= j < diffs.len() && (#[trigger] diffs[j]).2 is None ==> exists|n: Seq<char>|
                    new_names.contains(n) && !old_names.contains(n) && diffs[j] == #[trigger] only(n)
        }),
{
    let left = firsts_mapped(old_names, old_entry, old_names.len() as int);
    let right = firsts_mapped(new_names, new_entry, new_names.len() as int);
    let diffs = left + right;
    // What each side holds.
    assert forall|j: int| 0 <= j < left.len() implies {
        let d = #[trigger] left[j];
        (d.3 is Some && d.2 is Some) || exists|i: int|
            0 <= i < old_names.len() && !new_names.contains(old_names[i]) && d == missing(old_names[i])
    } by {
        let ia = lemma_firsts_mapped_from(old_names, old_entry, old_names.len() as int, j);
        let i = ia.0;
        if !new_names.contains(old_names[i]) {
            assert(old_entry(i) == seq![missing(old_names[i])]);
        } else {
            assert(old_entry(i)[ia.1].2 is Some);
        }
    }
    assert forall|j: int| 0 <= j < right.len() implies {
        let d = #[trigger] right[j];
        exists|i: int| 0 <= i < new_names.len() && !old_names.contains(new_names[i]) && d == only(new_names[i])
    } by {
        let ia = lemma_firsts_mapped_from(new_names, new_entry, new_names.len() as int, j);
        let i = ia.0;
        if old_names.contains(new_names[i]) {
            assert(new_entry(i).len() == 0);
        } else {
            assert(new_entry(i) == seq![only(new_names[i])]);
        }
    }
    assert forall|n: Seq<char>| old_names.contains(n) && !new_names.contains(n) implies occurs_once(
        diffs,
        #[trigger] missing(n),
    ) by {
        let d = missing(n);
        let i = lemma_first_occurrence(old_names, n);
        assert(old_entry(i) == seq![missing(old_names[i])]);
        assert(old_entry(i)[0] == d);
        lemma_firsts_mapped_contains(old_names, old_entry, old_names.len() as int, i, d);
        let w = choose|w: int| 0 <= w < left.len() && #[trigger] left[w] == d;
        assert(diffs[w] == d);
        assert forall|i2: int, a: int|
            0 <= i2 < old_names.len() && 0 <= a < old_entry(i2).len() && #[trigger] old_entry(i2)[a] == d implies old_names[i2]
            == n by {
            if new_names.contains(old_names[i2]) {
                assert(old_entry(i2)[a].3 is Some);
            } else {
                assert(old_entry(i2) == seq![missing(old_names[i2])]);
            }
        }
        assert forall|i2: int, a: int, b: int|
            0 <= i2 < old_names.len() && 0 <= a < old_entry(i2).len() && 0 <= b < old_entry(i2).len() && #[trigger] old_entry(i2)[a] == d
                && #[trigger] old_entry(i2)[b] == d implies a == b by {
            if new_names.contains(old_names[i2]) {
                assert(old_entry(i2)[a].3 is Some);
            } else {
                assert(old_entry(i2) == seq![missing(old_names[i2])]);
            }
        }
        lemma_firsts_mapped_once(old_names, old_entry, old_names.len() as int, d, n);
        assert forall|p: int, q: int|
            0 <= p < diffs.len() && 0 <= q < diffs.len() && diffs[p] == d && diffs[q] == d implies p == q by {
            if p >= left.len() {
                assert(diffs[p] == right[p - left.len()]);
                let i3 = choose|i3: int|
                    0 <= i3 < new_names.len() && !old_names.contains(new_names[i3]) && right[p - left.len()] == only(new_names[i3]);
            }
            if q >= left.len() {
                assert(diffs[q] == right[q - left.len()]);
                let i3 = choose|i3: int|
                    0 <= i3 < new_names.len() && !old_names.contains(new_names[i3]) && right[q - left.len()] == only(new_names[i3]);
            }
            assert(diffs[p] == left[p]);
            assert(diffs[q] == left[q]);
        }
    }
    assert forall|n: Seq<char>| new_names.contains(n) && !old_names.contains(n) implies occurs_once(
        diffs,
        #[trigger] only(n),
    ) by {
        let d = only(n);
        let i = lemma_first_occurrence(new_names, n);
        assert(new_entry(i) == seq![only(new_names[i])]);
        assert(new_entry(i)[0] == d);
        lemma_firsts_mapped_contains(new_names, new_entry, new_names.len() as int, i, d);
        let w = choose|w: int| 0 <= w < right.len() && #[trigger] right[w] == d;
        assert(diffs[left.len() + w] == d);
        assert forall|i2: int, a: int|
            0 <= i2 < new_names.len() && 0 <= a < new_entry(i2).len() && #[trigger] new_entry(i2)[a] == d implies new_names[i2]
            == n by {
            if !old_names.contains(new_names[i2]) {
                assert(new_entry(i2) == seq![only(new_names[i2])]);
            }
        }
        assert forall|i2: int, a: int, b: int|
            0 <= i2 < new_names.len() && 0 <= a < new_entry(i2).len() && 0 <= b < new_entry(i2).len() && #[trigger] new_entry(i2)[a] == d
                && #[trigger] new_entry(i2)[b] == d implies a == b by {
            if !old_names.contains(new_names[i2]) {
                assert(new_entry(i2) == seq![only(new_names[i2])]);
            }
        }
        lemma_firsts_mapped_once(new_names, new_entry, new_names.len() as int, d, n);
        assert forall|p: int, q: int|
            0 <= p < diffs.len() && 0 <= q < diffs.len() && diffs[p] == d && diffs[q] == d implies p == q by {
            if p < left.len() {
                assert(diffs[p] == left[p]);
            }
            if q < left.len() {
                assert(diffs[q] == left[q]);
            }
            assert(diffs[p] == right[p - left.len()]);
            assert(diffs[q] == right[q - left.len()]);
        }
    }
    assert forall|j: int| 0 <= j < diffs.len() && (#[trigger] diffs[j]).3 is None implies exists|n: Seq<char>|
        old_names.contains(n) && !new_names.contains(n) && diffs[j] == #[trigger] missing(n) by {
        if j < left.len() {
            assert(diffs[j] == left[j]);
            let i = choose|i: int|
                0 <= i < old_names.len() && !new_names.contains(old_names[i]) && left[j] == missing(old_names[i]);
            assert(old_names.contains(old_names[i]));
        } else {
            assert(diffs[j] == right[j - left.len()]);
            let i = choose|i: int|
                0 <= i < new_names.len() && !old_names.contains(new_names[i]) && right[j - left.len()] == only(new_names[i]);
        }
    }
    assert forall|j: int| 0 <= j < diffs.len() && (#[trigger] diffs[j]).2 is None implies exists|n: Seq<char>|
        new_names.contains(n) && !old_names.contains(n) && diffs[j] == #[trigger] only(n) by {
        if j < left.len() {
            assert(diffs[j] == left[j]);
            if !(left[j].3 is Some && left[j].2 is Some) {
                let i = choose|i: int|
                    0 <= i < old_names.len() && !new_names.contains(old_names[i]) && left[j] == missing(old_names[i]);
            }
        } else {
            assert(diffs[j] == right[j - left.len()]);
            let i = choose|i: int|
                0 <= i < new_names.len() && !old_names.contains(new_names[i]) && right[j - left.len()] == only(new_names[i]);
            assert(new_names.contains(new_names[i]));
        }
    }
}

/// Whether every difference of `s` has both an old and a new value.
pub open spec fn all_valued(s: Seq<DiffView>) -> bool {
    forall|j: int| 0 <= j < s.len() ==> (#[trigger] s[j]).2 is Some && s[j].3 is Some
}

/// The difference that reports the public symbol name `n` of the old report as
/// missing in the new one.
pub open spec fn public_missing(old: Seq<crate::old_pdb::PublicSymbol>, n: Seq<char>) -> DiffView {
    ("symbols"@, "Public symbol '"@ + n + "' missing in new parser"@, Some(old[last_named(names(old), n)].spec_debug_text()), None)
}

/// The difference that reports the public symbol name `n` of the new report as only
/// in the new one.
pub open spec fn public_only(new: Seq<crate::new_pdb::PublicSymbol>, n: Seq<char>) -> DiffView {
    ("symbols"@, "Public symbol '"@ + n + "' only in new parser"@, None, Some(new[last_named(names(new), n)].spec_debug_text()))
}

/// The comparison of public symbols reports each name of the old report that the new
/// one lacks as missing exactly once, and each name of the new report that the
/// old one lacks as only in the new report exactly once; every other
/// difference it gives has both an old and a new value.
pub proof fn lemma_public_names_reported_once(old: Seq<crate::old_pdb::PublicSymbol>, new: Seq<crate::new_pdb::PublicSymbol>)
    ensures
        forall|n: Seq<char>|
            names(old).contains(n) && !names(new).contains(n) ==> occurs_once(
                public_diffs(old, new),
                #[trigger] public_missing(old, n),
            ),
        forall|n: Seq<char>|
            names(new).contains(n) && !names(old).contains(n) ==> occurs_once(
                public_diffs(old, new),
                #[trigger] public_only(new, n),
            ),
        forall|j: int|
            0 <= j < public_diffs(old, new).len() && (#[trigger] public_diffs(old, new)[j]).3 is None ==> exists|n: Seq<char>|
                names(old).contains(n) && !names(new).contains(n) && public_diffs(old, new)[j] == #[trigger] public_missing(
                    old,
                    n,
                ),
        forall|j: int|
            0 <= j < public_diffs(old, new).len() && (#[trigger] public_diffs(old, new)[j]).2 is None ==> exists|n: Seq<char>|
                names(new).contains(n) && !names(old).contains(n) && public_diffs(old, new)[j] == #[trigger] public_only(
                    new,
                    n,
                ),
{
    let missing = |m: Seq<char>| public_missing(old, m);
    let only = |m: Seq<char>| public_only(new, m);
    assert forall|m: Seq<char>, x: Seq<char>| #[trigger] missing(m) == #[trigger] missing(x) implies m == x by {
        lemma_named_text_injective("Public symbol '"@, m, x, "' missing in new parser"@);
    }
    assert forall|m: Seq<char>, x: Seq<char>| #[trigger] only(m) == #[trigger] only(x) implies m == x by {
        lemma_named_text_injective("Public symbol '"@, m, x, "' only in new parser"@);
    }
    let old_entry = public_old_entry(old, new);
    let new_entry = public_new_entry(old, new);
    assert forall|i: int, a: int|
        0 <= i < names(old).len() && names(new).contains(names(old)[i]) && 0 <= a < old_entry(i).len() implies (
        #[trigger] old_entry(i)[a]).2 is Some && old_entry(i)[a].3 is Some by {
        assert(names(old)[i] == old[i].name@);
        lemma_last_named_contains(names(new), old[i].name@);
        let o = old[last_named(names(old), old[i].name@)];
        let nn = new[last_named(names(new), old[i].name@)];
        assert(all_valued(public_pair_diffs(o, nn)));
    }
    assert forall|i: int|
        0 <= i < names(old).len() && !names(new).contains(names(old)[i]) implies #[trigger] old_entry(i) == seq![
            missing(names(old)[i]),
        ] by {
        assert(names(old)[i] == old[i].name@);
        lemma_last_named_contains(names(new), old[i].name@);
    }
    assert forall|i: int|
        0 <= i < names(new).len() && names(old).contains(names(new)[i]) implies (#[trigger] new_entry(i)).len() == 0 by {
        assert(names(new)[i] == new[i].name@);
        lemma_last_named_contains(names(old), new[i].name@);
    }
    assert forall|i: int|
        0 <= i < names(new).len() && !names(old).contains(names(new)[i]) implies #[trigger] new_entry(i) == seq![
            only(names(new)[i]),
        ] by {
        assert(names(new)[i] == new[i].name@);
        lemma_last_named_contains(names(old), new[i].name@);
    }
    lemma_sides_report_once(names(old), names(new), old_entry, new_entry, missing, only);
    let diffs = public_diffs(old, new);
    assert(diffs == firsts_mapped(names(old), old_entry, old.len() as int) + firsts_mapped(
        names(new),
        new_entry,
        new.len() as int,
    ));
    assert forall|n: Seq<char>| names(old).contains(n) && !names(new).contains(n) implies occurs_once(
        diffs,
        #[trigger] public_missing(old, n),
    ) by {
        assert(missing(n) == public_missing(old, n));
    }
    assert forall|n: Seq<char>| names(new).contains(n) && !names(old).contains(n) implies occurs_once(
        diffs,
        #[trigger] public_only(new, n),
    ) by {
        assert(only(n) == public_only(new, n));
    }
    assert forall|j: int| 0 <= j < diffs.len() && (#[trigger] diffs[j]).3 is None implies exists|n: Seq<char>|
        names(old).contains(n) && !names(new).contains(n) && diffs[j] == #[trigger] public_missing(old, n) by {
        let n = choose|n: Seq<char>| names(old).contains(n) && !names(new).contains(n) && diffs[j] == #[trigger] missing(n);
        assert(missing(n) == public_missing(old, n));
    }
    assert forall|j: int| 0 <= j < diffs.len() && (#[trigger] diffs[j]).2 is None implies exists|n: Seq<char>|
        names(new).contains(n) && !names(old).contains(n) && diffs[j] == #[trigger] public_only(new, n) by {
        let n = choose|n: Seq<char>| names(new).contains(n) && !names(old).contains(n) && diffs[j] == #[trigger] only(n);
        assert(only(n) == public_only(new, n));
    }
}

/// The difference that reports the procedure name `n` of the old report as
/// missing in the new one.
pub open spec fn procedure_missing(old: Seq<crate::old_pdb::ProcedureSymbol>, n: Seq<char>) -> DiffView {
    ("symbols"@, "Procedure '"@ + n + "' missing in new parser"@, Some(old[last_named(names(old), n)].spec_debug_text()), None)
}

/// The difference that reports the procedure name `n` of the new report as only
/// in the new one.
pub open spec fn procedure_only(new: Seq<crate::new_pdb::ProcedureSymbol>, n: Seq<char>) -> DiffView {
    ("symbols"@, "Procedure '"@ + n + "' only in new parser"@, None, Some(new[last_named(names(new), n)].spec_debug_text()))
}

/// The comparison of procedures reports each name of the old report that the new
/// one lacks as missing exactly once, and each name of the new report that the
/// old one lacks as only in the new report exactly once; every other
/// difference it gives has both an old and a new value.
pub proof fn lemma_procedure_names_reported_once(old: Seq<crate::old_pdb::ProcedureSymbol>, new: Seq<crate::new_pdb::ProcedureSymbol>)
    ensures
        forall|n: Seq<char>|
            names(old).contains(n) && !names(new).contains(n) ==> occurs_once(
                procedure_diffs(old, new),
                #[trigger] procedure_missing(old, n),
            ),
        forall|n: Seq<char>|
            names(new).contains(n) && !names(old).contains(n) ==> occurs_once(
                procedure_diffs(old, new),
                #[trigger] procedure_only(new, n),
            ),
        forall|j: int|
            0 <= j < procedure_diffs(old, new).len() && (#[trigger] procedure_diffs(old, new)[j]).3 is None ==> exists|n: Seq<char>|
                names(old).contains(n) && !names(new).contains(n) && procedure_diffs(old, new)[j] == #[trigger] procedure_missing(
                    old,
                    n,
                ),
        forall|j: int|
            0 <= j < procedure_diffs(old, new).len() && (#[trigger] procedure_diffs(old, new)[j]).2 is None ==> exists|n: Seq<char>|
                names(new).contains(n) && !names(old).contains(n) && procedure_diffs(old, new)[j] == #[trigger] procedure_only(
                    new,
                    n,
                ),
{
    let missing = |m: Seq<char>| procedure_missing(old, m);
    let only = |m: Seq<char>| procedure_only(new, m);
    assert forall|m: Seq<char>, x: Seq<char>| #[trigger] missing(m) == #[trigger] missing(x) implies m == x by {
        lemma_named_text_injective("Procedure '"@, m, x, "' missing in new parser"@);
    }
    assert forall|m: Seq<char>, x: Seq<char>| #[trigger] only(m) == #[trigger] only(x) implies m == x by {
        lemma_named_text_injective("Procedure '"@, m, x, "' only in new parser"@);
    }
    let old_entry = procedure_old_entry(old, new);
    let new_entry = procedure_new_entry(old, new);
    assert forall|i: int, a: int|
        0 <= i < names(old).len() && names(new).contains(names(old)[i]) && 0 <= a < old_entry(i).len() implies (
        #[trigger] old_entry(i)[a]).2 is Some && old_entry(i)[a].3 is Some by {
        assert(names(old)[i] == old[i].name@);
        lemma_last_named_contains(names(new), old[i].name@);
        let o = old[last_named(names(old), old[i].name@)];
        let nn = new[last_named(names(new), old[i].name@)];
        assert(all_valued(procedure_pair_diffs(o, nn)));
    }
    assert forall|i: int|
        0 <= i < names(old).len() && !names(new).contains(names(old)[i]) implies #[trigger] old_entry(i) == seq![
            missing(names(old)[i]),
        ] by {
        assert(names(old)[i] == old[i].name@);
        lemma_last_named_contains(names(new), old[i].name@);
    }
    assert forall|i: int|
        0 <= i < names(new).len() && names(old).contains(names(new)[i]) implies (#[trigger] new_entry(i)).len() == 0 by {
        assert(names(new)[i] == new[i].name@);
        lemma_last_named_contains(names(old), new[i].name@);
    }
    assert forall|i: int|
        0 <= i < names(new).len() && !names(old).contains(names(new)[i]) implies #[trigger] new_entry(i) == seq![
            only(names(new)[i]),
        ] by {
        assert(names(new)[i] == new[i].name@);
        lemma_last_named_contains(names(old), new[i].name@);
    }
    lemma_sides_report_once(names(old), names(new), old_entry, new_entry, missing, only);
    let diffs = procedure_diffs(old, new);
    assert(diffs == firsts_mapped(names(old), old_entry, old.len() as int) + firsts_mapped(
        names(new),
        new_entry,
        new.len() as int,
    ));
    assert forall|n: Seq<char>| names(old).contains(n) && !names(new).contains(n) implies occurs_once(
        diffs,
        #[trigger] procedure_missing(old, n),
    ) by {
        assert(missing(n) == procedure_missing(old, n));
    }
    assert forall|n: Seq<char>| names(new).contains(n) && !names(old).contains(n) implies occurs_once(
        diffs,
        #[trigger] procedure_only(new, n),
    ) by {
        assert(only(n) == procedure_only(new, n));
    }
    assert forall|j: int| 0 <= j < diffs.len() && (#[trigger] diffs[j]).3 is None implies exists|n: Seq<char>|
        names(old).contains(n) && !names(new).contains(n) && diffs[j] == #[trigger] procedure_missing(old, n) by {
        let n = choose|n: Seq<char>| names(old).contains(n) && !names(new).contains(n) && diffs[j] == #[trigger] missing(n);
        assert(missing(n) == procedure_missing(old, n));
    }
    assert forall|j: int| 0 <= j < diffs.len() && (#[trigger] diffs[j]).2 is None implies exists|n: Seq<char>|
        names(new).contains(n) && !names(old).contains(n) && diffs[j] == #[trigger] procedure_only(new, n) by {
        let n = choose|n: Seq<char>| names(new).contains(n) && !names(old).contains(n) && diffs[j] == #[trigger] only(n);
        assert(only(n) == procedure_only(new, n));
    }
}

/// The difference that reports the data symbol name `n` of the old report as
/// missing in the new one.
pub open spec fn data_missing(old: Seq<crate::old_pdb::DataSymbol>, n: Seq<char>) -> DiffView {
    ("symbols"@, "Data symbol '"@ + n + "' missing in new parser"@, Some(old[last_named(names(old), n)].spec_debug_text()), None)
}

/// The difference that reports the data symbol name `n` of the new report as only
/// in the new one.
pub open spec fn data_only(new: Seq<crate::new_pdb::DataSymbol>, n: Seq<char>) -> DiffView {
    ("symbols"@, "Data symbol '"@ + n + "' only in new parser"@, None, Some(new[last_named(names(new), n)].spec_debug_text()))
}

/// The comparison of data symbols reports each name of the old report that the new
/// one lacks as missing exactly once, and each name of the new report that the
/// old one lacks as only in the new report exactly once; every other
/// difference it gives has both an old and a new value.
pub proof fn lemma_data_names_reported_once(old: Seq<crate::old_pdb::DataSymbol>, new: Seq<crate::new_pdb::DataSymbol>)
    ensures
        forall|n: Seq<char>|
            names(old).contains(n) && !names(new).contains(n) ==> occurs_once(
                data_diffs(old, new),
                #[trigger] data_missing(old, n),
            ),
        forall|n: Seq<char>|
            names(new).contains(n) && !names(old).contains(n) ==> occurs_once(
                data_diffs(old, new),
                #[trigger] data_only(new, n),
            ),
        forall|j: int|
            0 <= j < data_diffs(old, new).len() && (#[trigger] data_diffs(old, new)[j]).3 is None ==> exists|n: Seq<char>|
                names(old).contains(n) && !names(new).contains(n) && data_diffs(old, new)[j] == #[trigger] data_missing(
                    old,
                    n,
                ),
        forall|j: int|
            0 <= j < data_diffs(old, new).len() && (#[trigger] data_diffs(old, new)[j]).2 is None ==> exists|n: Seq<char>|
                names(new).contains(n) && !names(old).contains(n) && data_diffs(old, new)[j] == #[trigger] data_only(
                    new,
                    n,
                ),
{
    let missing = |m: Seq<char>| data_missing(old, m);
    let only = |m: Seq<char>| data_only(new, m);
    assert forall|m: Seq<char>, x: Seq<char>| #[trigger] missing(m) == #[trigger] missing(x) implies m == x by {
        lemma_named_text_injective("Data symbol '"@, m, x, "' missing in new parser"@);
    }
    assert forall|m: Seq<char>, x: Seq<char>| #[trigger] only(m) == #[trigger] only(x) implies m == x by {
        lemma_named_text_injective("Data symbol '"@, m, x, "' only in new parser"@);
    }
    let old_entry = data_old_entry(old, new);
    let new_entry = data_new_entry(old, new);
    assert forall|i: int, a: int|
        0 <= i < names(old).len() && names(new).contains(names(old)[i]) && 0 <= a < old_entry(i).len() implies (
        #[trigger] old_entry(i)[a]).2 is Some && old_entry(i)[a].3 is Some by {
        assert(names(old)[i] == old[i].name@);
        lemma_last_named_contains(names(new), old[i].name@);
        let o = old[last_named(names(old), old[i].name@)];
        let nn = new[last_named(names(new), old[i].name@)];
        assert(all_valued(data_pair_diffs(o, nn)));
    }
    assert forall|i: int|
        0 <= i < names(old).len() && !names(new).contains(names(old)[i]) implies #[trigger] old_entry(i) == seq![
            missing(names(old)[i]),
        ] by {
        assert(names(old)[i] == old[i].name@);
        lemma_last_named_contains(names(new), old[i].name@);
    }
    assert forall|i: int|
        0 <= i < names(new).len() && names(old).contains(names(new)[i]) implies (#[trigger] new_entry(i)).len() == 0 by {
        assert(names(new)[i] == new[i].name@);
        lemma_last_named_contains(names(old), new[i].name@);
    }
    assert forall|i: int|
        0 <= i < names(new).len() && !names(old).contains(names(new)[i]) implies #[trigger] new_entry(i) == seq![
            only(names(new)[i]),
        ] by {
        assert(names(new)[i] == new[i].name@);
        lemma_last_named_contains(names(old), new[i].name@);
    }
    lemma_sides_report_once(names(old), names(new), old_entry, new_entry, missing, only);
    let diffs = data_diffs(old, new);
    assert(diffs == firsts_mapped(names(old), old_entry, old.len() as int) + firsts_mapped(
        names(new),
        new_entry,
        new.len() as int,
    ));
    assert forall|n: Seq<char>| names(old).contains(n) && !names(new).contains(n) implies occurs_once(
        diffs,
        #[trigger] data_missing(old, n),
    ) by {
        assert(missing(n) == data_missing(old, n));
    }
    assert forall|n: Seq<char>| names(new).contains(n) && !names(old).contains(n) implies occurs_once(
        diffs,
        #[trigger] data_only(new, n),
    ) by {
        assert(only(n) == data_only(new, n));
    }
    assert forall|j: int| 0 <= j < diffs.len() && (#[trigger] diffs[j]).3 is None implies exists|n: Seq<char>|
        names(old).contains(n) && !names(new).contains(n) && diffs[j] == #[trigger] data_missing(old, n) by {
        let n = choose|n: Seq<char>| names(old).contains(n) && !names(new).contains(n) && diffs[j] == #[trigger] missing(n);
        assert(missing(n) == data_missing(old, n));
    }
    assert forall|j: int| 0 <= j < diffs.len() && (#[trigger] diffs[j]).2 is None implies exists|n: Seq<char>|
        names(new).contains(n) && !names(old).contains(n) && diffs[j] == #[trigger] data_only(new, n) by {
        let n = choose|n: Seq<char>| names(new).contains(n) && !names(old).contains(n) && diffs[j] == #[trigger] only(n);
        assert(only(n) == data_only(new, n));
    }
}

/// The difference that reports the module name `n` of the old report as
/// missing in the new one.
pub open spec fn module_missing(old: Seq<crate::old_pdb::ModuleInfo>, n: Seq<char>) -> DiffView {
    ("modules"@, "Module '"@ + n + "' missing in new parser"@, Some(old[last_named(names(old), n)].spec_debug_text()), None)
}

/// The difference that reports the module name `n` of the new report as only
/// in the new one.
pub open spec fn module_only(new: Seq<crate::new_pdb::ModuleInfo>, n: Seq<char>) -> DiffView {
    ("modules"@, "Module '"@ + n + "' only in new parser"@, None, Some(new[last_named(names(new), n)].spec_debug_text()))
}

/// The comparison of modules reports each name of the old report that the new
/// one lacks as missing exactly once, and each name of the new report that the
/// old one lacks as only in the new report exactly once; every other
/// difference it gives has both an old and a new value.
pub proof fn lemma_module_names_reported_once(old: Seq<crate::old_pdb::ModuleInfo>, new: Seq<crate::new_pdb::ModuleInfo>)
    ensures
        forall|n: Seq<char>|
            names(old).contains(n) && !names(new).contains(n) ==> occurs_once(
                module_diffs(old, new),
                #[trigger] module_missing(old, n),
            ),
        forall|n: Seq<char>|
            names(new).contains(n) && !names(old).contains(n) ==> occurs_once(
                module_diffs(old, new),
                #[trigger] module_only(new, n),
            ),
        forall|j: int|
            0 <= j < module_diffs(old, new).len() && (#[trigger] module_diffs(old, new)[j]).3 is None ==> exists|n: Seq<char>|
                names(old).contains(n) && !names(new).contains(n) && module_diffs(old, new)[j] == #[trigger] module_missing(
                    old,
                    n,
                ),
        forall|j: int|
            0 <= j < module_diffs(old, new).len() && (#[trigger] module_diffs(old, new)[j]).2 is None ==> exists|n: Seq<char>|
                names(new).contains(n) && !names(old).contains(n) && module_diffs(old, new)[j] == #[trigger] module_only(
                    new,
                    n,
                ),
{
    let missing = |m: Seq<char>| module_missing(old, m);
    let only = |m: Seq<char>| module_only(new, m);
    assert forall|m: Seq<char>, x: Seq<char>| #[trigger] missing(m) == #[trigger] missing(x) implies m == x by {
        lemma_named_text_injective("Module '"@, m, x, "' missing in new parser"@);
    }
    assert forall|m: Seq<char>, x: Seq<char>| #[trigger] only(m) == #[trigger] only(x) implies m == x by {
        lemma_named_text_injective("Module '"@, m, x, "' only in new parser"@);
    }
    let old_entry = module_old_entry(old, new);
    let new_entry = module_new_entry(old, new);
    assert forall|i: int, a: int|
        0 <= i < names(old).len() && names(new).contains(names(old)[i]) && 0 <= a < old_entry(i).len() implies (
        #[trigger] old_entry(i)[a]).2 is Some && old_entry(i)[a].3 is Some by {
        assert(names(old)[i] == old[i].name@);
        lemma_last_named_contains(names(new), old[i].name@);
        let o = old[last_named(names(old), old[i].name@)];
        let nn = new[last_named(names(new), old[i].name@)];
        assert(all_valued(module_pair_diffs(o, nn)));
    }
    assert forall|i: int|
        0 <= i < names(old).len() && !names(new).contains(names(old)[i]) implies #[trigger] old_entry(i) == seq![
            missing(names(old)[i]),
        ] by {
        assert(names(old)[i] == old[i].name@);
        lemma_last_named_contains(names(new), old[i].name@);
    }
    assert forall|i: int|
        0 <= i < names(new).len() && names(old).contains(names(new)[i]) implies (#[trigger] new_entry(i)).len() == 0 by {
        assert(names(new)[i] == new[i].name@);
        lemma_last_named_contains(names(old), new[i].name@);
    }
    assert forall|i: int|
        0 <= i < names(new).len() && !names(old).contains(names(new)[i]) implies #[trigger] new_entry(i) == seq![
            only(names(new)[i]),
        ] by {
        assert(names(new)[i] == new[i].name@);
        lemma_last_named_contains(names(old), new[i].name@);
    }
    lemma_sides_report_once(names(old), names(new), old_entry, new_entry, missing, only);
    let diffs = module_diffs(old, new);
    assert(diffs == firsts_mapped(names(old), old_entry, old.len() as int) + firsts_mapped(
        names(new),
        new_entry,
        new.len() as int,
    ));
    assert forall|n: Seq<char>| names(old).contains(n) && !names(new).contains(n) implies occurs_once(
        diffs,
        #[trigger] module_missing(old, n),
    ) by {
        assert(missing(n) == module_missing(old, n));
    }
    assert forall|n: Seq<char>| names(new).contains(n) && !names(old).contains(n) implies occurs_once(
        diffs,
        #[trigger] module_only(new, n),
    ) by {
        assert(only(n) == module_only(new, n));
    }
    assert forall|j: int| 0 <= j < diffs.len() && (#[trigger] diffs[j]).3 is None implies exists|n: Seq<char>|
        names(old).contains(n) && !names(new).contains(n) && diffs[j] == #[trigger] module_missing(old, n) by {
        let n = choose|n: Seq<char>| names(old).contains(n) && !names(new).contains(n) && diffs[j] == #[trigger] missing(n);
        assert(missing(n) == module_missing(old, n));
    }
    assert forall|j: int| 0 <= j < diffs.len() && (#[trigger] diffs[j]).2 is None implies exists|n: Seq<char>|
        names(new).contains(n) && !names(old).contains(n) && diffs[j] == #[trigger] module_only(new, n) by {
        let n = choose|n: Seq<char>| names(new).contains(n) && !names(old).contains(n) && diffs[j] == #[trigger] only(n);
        assert(only(n) == module_only(new, n));
    }
}

/// A difference that occurs once in one list, and not at all in the other,
/// occurs once in the two joined.
proof fn lemma_occurs_once_join(a: Seq<DiffView>, b: Seq<DiffView>, d: DiffView)
    requires
        (occurs_once(a, d) && !b.contains(d)) || (!a.contains(d) && occurs_once(b, d)),
    ensures
        occurs_once(a + b, d),
{
    let ab = a + b;
    if occurs_once(a, d) {
        let w = choose|w: int| 0 <= w < a.len() && a[w] == d;
        assert(ab[w] == d);
    } else {
        let w = choose|w: int| 0 <= w < b.len() && b[w] == d;
        assert(ab[a.len() + w] == d);
    }
    assert forall|p: int, q: int| 0 <= p < ab.len() && 0 <= q < ab.len() && ab[p] == d && ab[q] == d implies p == q by {
        if p < a.len() {
            assert(ab[p] == a[p]);
        } else {
            assert(ab[p] == b[p - a.len()]);
        }
        if q < a.len() {
            assert(ab[q] == a[q]);
        } else {
            assert(ab[q] == b[q - a.len()]);
        }
    }
}

/// The descriptions of two kinds of symbols never agree.
proof fn lemma_symbol_kinds_differ(m: Seq<char>, n: Seq<char>, s: Seq<char>, t: Seq<char>)
    ensures
        "Public symbol '"@ + m + s != "Procedure '"@ + n + t,
        "Public symbol '"@ + m + s != "Data symbol '"@ + n + t,
        "Procedure '"@ + m + s != "Data symbol '"@ + n + t,
{
    reveal_strlit("Public symbol '");
    reveal_strlit("Procedure '");
    reveal_strlit("Data symbol '");
    assert(("Public symbol '"@ + m + s)[1] == 'u');
    assert(("Procedure '"@ + n + t)[1] == 'r');
    assert(("Procedure '"@ + m + s)[0] == 'P');
    assert(("Data symbol '"@ + n + t)[0] == 'D');
}

/// The symbol comparison reports each name of a public symbol, procedure or
/// data symbol of the old report that the new one lacks as missing exactly
/// once, and each such name of the new report that the old one lacks as only in
/// the new report exactly once; every other difference it gives has both an
/// old and a new value.
pub proof fn lemma_symbol_names_reported_once(old_data: OldPdbData, new_data: NewPdbData)
    ensures
        ({
            let (op, np) = (old_data.symbols.public_symbols@, new_data.symbols.public_symbols@);
            let (oq, nq) = (old_data.symbols.procedures@, new_data.symbols.procedures@);
            let (od, nd) = (old_data.symbols.data_symbols@, new_data.symbols.data_symbols@);
            let diffs = symbol_diffs(old_data, new_data);
            &&& forall|n: Seq<char>|
                names(op).contains(n) && !names(np).contains(n) ==> occurs_once(diffs, #[trigger] public_missing(op, n))
            &&& forall|n: Seq<char>|
                names(np).contains(n) && !names(op).contains(n) ==> occurs_once(diffs, #[trigger] public_only(np, n))
            &&& forall|n: Seq<char>|
                names(oq).contains(n) && !names(nq).contains(n) ==> occurs_once(diffs, #[trigger] procedure_missing(oq, n))
            &&& forall|n: Seq<char>|
                names(nq).contains(n) && !names(oq).contains(n) ==> occurs_once(diffs, #[trigger] procedure_only(nq, n))
            &&& forall|n: Seq<char>|
                names(od).contains(n) && !names(nd).contains(n) ==> occurs_once(diffs, #[trigger] data_missing(od, n))
            &&& forall|n: Seq<char>|
                names(nd).contains(n) && !names(od).contains(n) ==> occurs_once(diffs, #[trigger] data_only(nd, n))
            &&& forall|j: int|
                0 <= j < diffs.len() && (#[trigger] diffs[j]).3 is None ==> {
                    ||| exists|n: Seq<char>|
                        names(op).contains(n) && !names(np).contains(n) && diffs[j] == #[trigger] public_missing(op, n)
                    ||| exists|n: Seq<char>|
                        names(oq).contains(n) && !names(nq).contains(n) && diffs[j] == #[trigger] procedure_missing(oq, n)
                    ||| exists|n: Seq<char>|
                        names(od).contains(n) && !names(nd).contains(n) && diffs[j] == #[trigger] data_missing(od, n)
                }
            &&& forall|j: int|
                0 <= j < diffs.len() && (#[trigger] diffs[j]).2 is None ==> {
                    ||| exists|n: Seq<char>|
                        names(np).contains(n) && !names(op).contains(n) && diffs[j] == #[trigger] public_only(np, n)
                    ||| exists|n: Seq<char>|
                        names(nq).contains(n) && !names(oq).contains(n) && diffs[j] == #[trigger] procedure_only(nq, n)
                    ||| exists|n: Seq<char>|
                        names(nd).contains(n) && !names(od).contains(n) && diffs[j] == #[trigger] data_only(nd, n)
                }
        }),
{
    let (op, np) = (old_data.symbols.public_symbols@, new_data.symbols.public_symbols@);
    let (oq, nq) = (old_data.symbols.procedures@, new_data.symbols.procedures@);
    let (od, nd) = (old_data.symbols.data_symbols@, new_data.symbols.data_symbols@);
    let a = public_diffs(op, np);
    let b = procedure_diffs(oq, nq);
    let c = data_diffs(od, nd);
    lemma_public_names_reported_once(op, np);
    lemma_procedure_names_reported_once(oq, nq);
    lemma_data_names_reported_once(od, nd);
    assert(symbol_diffs(old_data, new_data) == (a + b) + c);
    // Which kind a difference without a new value, or without an old value, is of.
    assert forall|d: DiffView| #[trigger] a.contains(d) && (d.2 is None || d.3 is None) implies (exists|n: Seq<char>|
        d == #[trigger] public_missing(op, n)) || (exists|n: Seq<char>| d == #[trigger] public_only(np, n)) by {
        let w = choose|w: int| 0 <= w < a.len() && a[w] == d;
        if d.3 is None {
            let n = choose|n: Seq<char>| names(op).contains(n) && !names(np).contains(n) && a[w] == #[trigger] public_missing(op, n);
        } else {
            let n = choose|n: Seq<char>| names(np).contains(n) && !names(op).contains(n) && a[w] == #[trigger] public_only(np, n);
        }
    }
    assert forall|d: DiffView| #[trigger] b.contains(d) && (d.2 is None || d.3 is None) implies (exists|n: Seq<char>|
        d == #[trigger] procedure_missing(oq, n)) || (exists|n: Seq<char>| d == #[trigger] procedure_only(nq, n)) by {
        let w = choose|w: int| 0 <= w < b.len() && b[w] == d;
        if d.3 is None {
            let n = choose|n: Seq<char>| names(oq).contains(n) && !names(nq).contains(n) && b[w] == #[trigger] procedure_missing(oq, n);
        } else {
            let n = choose|n: Seq<char>| names(nq).contains(n) && !names(oq).contains(n) && b[w] == #[trigger] procedure_only(nq, n);
        }
    }
    assert forall|d: DiffView| #[trigger] c.contains(d) && (d.2 is None || d.3 is None) implies (exists|n: Seq<char>|
        d == #[trigger] data_missing(od, n)) || (exists|n: Seq<char>| d == #[trigger] data_only(nd, n)) by {
        let w = choose|w: int| 0 <= w < c.len() && c[w] == d;
        if d.3 is None {
            let n = choose|n: Seq<char>| names(od).contains(n) && !names(nd).contains(n) && c[w] == #[trigger] data_missing(od, n);
        } else {
            let n = choose|n: Seq<char>| names(nd).contains(n) && !names(od).contains(n) && c[w] == #[trigger] data_only(nd, n);
        }
    }
    // A public symbol's difference is in no other kind's list, and so on.
    assert forall|n: Seq<char>| names(op).contains(n) && !names(np).contains(n) implies occurs_once(
        (a + b) + c,
        #[trigger] public_missing(op, n),
    ) by {
        let d = public_missing(op, n);
        if b.contains(d) {
            let m = choose|m: Seq<char>| d == #[trigger] procedure_missing(oq, m);
            lemma_symbol_kinds_differ(n, m, "' missing in new parser"@, "' missing in new parser"@);
        }
        if c.contains(d) {
            let m = choose|m: Seq<char>| d == #[trigger] data_missing(od, m);
            lemma_symbol_kinds_differ(n, m, "' missing in new parser"@, "' missing in new parser"@);
        }
        lemma_occurs_once_join(a, b, d);
        lemma_occurs_once_join(a + b, c, d);
    }
    assert forall|n: Seq<char>| names(np).contains(n) && !names(op).contains(n) implies occurs_once(
        (a + b) + c,
        #[trigger] public_only(np, n),
    ) by {
        let d = public_only(np, n);
        if b.contains(d) {
            let m = choose|m: Seq<char>| d == #[trigger] procedure_only(nq, m);
            lemma_symbol_kinds_differ(n, m, "' only in new parser"@, "' only in new parser"@);
        }
        if c.contains(d) {
            let m = choose|m: Seq<char>| d == #[trigger] data_only(nd, m);
            lemma_symbol_kinds_differ(n, m, "' only in new parser"@, "' only in new parser"@);
        }
        lemma_occurs_once_join(a, b, d);
        lemma_occurs_once_join(a + b, c, d);
    }
    assert forall|n: Seq<char>| names(oq).contains(n) && !names(nq).contains(n) implies occurs_once(
        (a + b) + c,
        #[trigger] procedure_missing(oq, n),
    ) by {
        let d = procedure_missing(oq, n);
        if a.contains(d) {
            let m = choose|m: Seq<char>| d == #[trigger] public_missing(op, m);
            lemma_symbol_kinds_differ(m, n, "' missing in new parser"@, "' missing in new parser"@);
        }
        if c.contains(d) {
            let m = choose|m: Seq<char>| d == #[trigger] data_missing(od, m);
            lemma_symbol_kinds_differ(n, m, "' missing in new parser"@, "' missing in new parser"@);
        }
        lemma_occurs_once_join(a, b, d);
        lemma_occurs_once_join(a + b, c, d);
    }
    assert forall|n: Seq<char>| names(nq).contains(n) && !names(oq).contains(n) implies occurs_once(
        (a + b) + c,
        #[trigger] procedure_only(nq, n),
    ) by {
        let d = procedure_only(nq, n);
        if a.contains(d) {
            let m = choose|m: Seq<char>| d == #[trigger] public_only(np, m);
            lemma_symbol_kinds_differ(m, n, "' only in new parser"@, "' only in new parser"@);
        }
        if c.contains(d) {
            let m = choose|m: Seq<char>| d == #[trigger] data_only(nd, m);
            lemma_symbol_kinds_differ(n, m, "' only in new parser"@, "' only in new parser"@);
        }
        lemma_occurs_once_join(a, b, d);
        lemma_occurs_once_join(a + b, c, d);
    }
    assert forall|n: Seq<char>| names(od).contains(n) && !names(nd).contains(n) implies occurs_once(
        (a + b) + c,
        #[trigger] data_missing(od, n),
    ) by {
        let d = data_missing(od, n);
        if a.contains(d) {
            let m = choose|m: Seq<char>| d == #[trigger] public_missing(op, m);
            lemma_symbol_kinds_differ(m, n, "' missing in new parser"@, "' missing in new parser"@);
        }
        if b.contains(d) {
            let m = choose|m: Seq<char>| d == #[trigger] procedure_missing(oq, m);
            lemma_symbol_kinds_differ(m, n, "' missing in new parser"@, "' missing in new parser"@);
        }
        if (a + b).contains(d) {
            let w = choose|w: int| 0 <= w < (a + b).len() && (a + b)[w] == d;
            if w < a.len() {
                assert((a + b)[w] == a[w]);
            } else {
                assert((a + b)[w] == b[w - a.len()]);
            }
        }
        lemma_occurs_once_join(a + b, c, d);
    }
    assert forall|n: Seq<char>| names(nd).contains(n) && !names(od).contains(n) implies occurs_once(
        (a + b) + c,
        #[trigger] data_only(nd, n),
    ) by {
        let d = data_only(nd, n);
        if a.contains(d) {
            let m = choose|m: Seq<char>| d == #[trigger] public_only(np, m);
            lemma_symbol_kinds_differ(m, n, "' only in new parser"@, "' only in new parser"@);
        }
        if b.contains(d) {
            let m = choose|m: Seq<char>| d == #[trigger] procedure_only(nq, m);
            lemma_symbol_kinds_differ(m, n, "' only in new parser"@, "' only in new parser"@);
        }
        if (a + b).contains(d) {
            let w = choose|w: int| 0 <= w < (a + b).len() && (a + b)[w] == d;
            if w < a.len() {
                assert((a + b)[w] == a[w]);
            } else {
                assert((a + b)[w] == b[w - a.len()]);
            }
        }
        lemma_occurs_once_join(a + b, c, d);
    }
    let all = (a + b) + c;
    assert forall|j: int| 0 <= j < all.len() implies (#[trigger] all[j]) == if j < a.len() {
        a[j]
    } else if j < a.len() + b.len() {
        b[j - a.len()]
    } else {
        c[j - a.len() - b.len()]
    } by {
        if j < a.len() + b.len() {
            assert(all[j] == (a + b)[j]);
        }
    }
}

} // verus!
