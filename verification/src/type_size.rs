//! Sizes of types, and the completion of the type arena once all types are parsed.
use vstd::prelude::*;

use crate::error::Error;
use crate::symbol_types::{ParsedPdb, TypeRef};
use crate::type_info::{Array, PrimitiveKind, Type};

verus! {

/// The text of an optional string.
pub open spec fn opt_text(s: Option<String>) -> Option<Seq<char>> {
    match s {
        Some(t) => Some(t@),
        None => None,
    }
}

/// Whether node `t` is a complete (not forward-referencing) definition of the
/// kind sought (a class when `class`, else a union) with the given unique name;
/// if so, its recorded size.
pub open spec fn complete_definition_size(t: Type, class: bool, unique: Option<Seq<char>>) -> Option<
    usize,
> {
    match t {
        Type::Class(c) => if class && !c.properties.forward_reference && opt_text(c.unique_name)
            == unique {
            Some(c.size)
        } else {
            None
        },
        Type::Union(u) => if !class && !u.properties.forward_reference && opt_text(u.unique_name)
            == unique {
            Some(u.size)
        } else {
            None
        },
        _ => None,
    }
}

/// The size of the first complete definition, among the TPI types listed in
/// `order` from position `j` on, of the kind sought with the given unique name.
pub open spec fn find_definition_size(
    pdb: ParsedPdb,
    order: Seq<u32>,
    class: bool,
    unique: Option<Seq<char>>,
    j: int,
) -> Option<usize>
    decreases order.len() - j,
{
    if j < 0 || j >= order.len() {
        None
    } else {
        let k = order[j];
        let found = if pdb.types@.contains_key(k) && 0 <= pdb.types@[k].0 < pdb.nodes@.len() {
            complete_definition_size(pdb.nodes@[pdb.types@[k].0 as int], class, unique)
        } else {
            None
        };
        match found {
            Some(s) => Some(s),
            None => find_definition_size(pdb, order, class, unique, j + 1),
        }
    }
}

/// The size of a forward-referenced class or union: that of its first complete
/// definition among the TPI types when `resolve`, else (or where there is none)
/// the size recorded in the reference itself.
pub open spec fn forward_size(
    pdb: ParsedPdb,
    resolve: bool,
    class: bool,
    unique: Option<Seq<char>>,
    own: usize,
) -> usize {
    if !resolve {
        own
    } else {
        match find_definition_size(pdb, pdb.type_order@, class, unique, 0) {
            Some(s) => s,
            None => own,
        }
    }
}

/// The size in bytes of the type at node `r`, or none where the type has no
/// size (members, procedures, lists and the like) or a sum overflows.
///
/// Classes and unions have their recorded size; a forward reference takes that
/// of its definition (see [`forward_size`]). Bitfields, enumerations, modifiers
/// and aliases have the size of their underlying type; pointers the size of
/// their kind; primitives theirs; arrays their recorded size; a field list the
/// sum of its fields' sizes; the IPI kinds size 0.
pub open spec fn spec_type_size(pdb: ParsedPdb, resolve: bool, r: int) -> Option<usize>
    decreases r, 1int, 0int,
{
    if r < 0 || r >= pdb.nodes@.len() {
        None
    } else {
        match pdb.nodes@[r] {
            Type::Class(c) => Some(
                if c.properties.forward_reference {
                    forward_size(pdb, resolve, true, opt_text(c.unique_name), c.size)
                } else {
                    c.size
                },
            ),
            Type::Union(u) => Some(
                if u.properties.forward_reference {
                    forward_size(pdb, resolve, false, opt_text(u.unique_name), u.size)
                } else {
                    u.size
                },
            ),
            Type::Bitfield(b) => if 0 <= b.underlying_type.0 < r {
                spec_type_size(pdb, resolve, b.underlying_type.0 as int)
            } else {
                None
            },
            Type::Enumeration(e) => if 0 <= e.underlying_type.0 < r {
                spec_type_size(pdb, resolve, e.underlying_type.0 as int)
            } else {
                None
            },
            Type::Modifier(m) => if 0 <= m.underlying_type.0 < r {
                spec_type_size(pdb, resolve, m.underlying_type.0 as int)
            } else {
                None
            },
            Type::Alias(a) => if 0 <= a.underlying_type.0 < r {
                spec_type_size(pdb, resolve, a.underlying_type.0 as int)
            } else {
                None
            },
            Type::Pointer(p) => Some(p.attributes.kind.spec_type_size()),
            Type::Primitive(p) => Some(p.spec_size()),
            Type::Array(a) => Some(a.size),
            Type::FieldList(f) => spec_sum_sizes(pdb, resolve, r, f.0@, f.0@.len() as int),
            Type::FuncId(_) | Type::MFuncId(_) | Type::StringId(_) | Type::SubStrList(_)
            | Type::BuildInfoType(_) | Type::UdtSrcLineType(_) => Some(0),
            _ => None,
        }
    }
}

/// The sum of the sizes of the first `k` of `fields` (the fields of node
/// `parent`), taken left to right; none as soon as a field has no size or the
/// sum overflows.
pub open spec fn spec_sum_sizes(
    pdb: ParsedPdb,
    resolve: bool,
    parent: int,
    fields: Seq<TypeRef>,
    k: int,
) -> Option<usize>
    decreases parent, 0int, k,
{
    if k <= 0 || k > fields.len() {
        Some(0)
    } else {
        match spec_sum_sizes(pdb, resolve, parent, fields, k - 1) {
            None => None,
            Some(acc) => if 0 <= fields[k - 1].0 < parent {
                match spec_type_size(pdb, resolve, fields[k - 1].0 as int) {
                    None => None,
                    Some(s) => if acc + s > usize::MAX {
                        None
                    } else {
                        Some((acc + s) as usize)
                    },
                }
            } else {
                None
            },
        }
    }
}

/// Once the running sum has no value, no longer prefix has one either.
proof fn lemma_sum_none_stays(
    pdb: ParsedPdb,
    resolve: bool,
    parent: int,
    fields: Seq<TypeRef>,
    k: int,
    m: int,
)
    requires
        0 <= k <= m <= fields.len(),
        spec_sum_sizes(pdb, resolve, parent, fields, k) is None,
    ensures
        spec_sum_sizes(pdb, resolve, parent, fields, m) is None,
    decreases m - k,
{
    if k < m {
        lemma_sum_none_stays(pdb, resolve, parent, fields, k, m - 1);
    }
}

pub(crate) fn same_text(a: &Option<String>, b: &Option<String>) -> (r: bool)
    ensures
        r == (opt_text(*a) == opt_text(*b)),
{
    match (a, b) {
        (Some(x), Some(y)) => *x == *y,
        (None, None) => true,
        _ => false,
    }
}

fn find_definition(pdb: &ParsedPdb, class: bool, unique: &Option<String>) -> (r: Option<usize>)
    requires
        pdb.wf(),
    ensures
        r == find_definition_size(*pdb, pdb.type_order@, class, opt_text(*unique), 0),
{
    let mut j: usize = 0;
    while j < pdb.type_order.len()
        invariant
            pdb.wf(),
            0 <= j <= pdb.type_order@.len(),
            find_definition_size(*pdb, pdb.type_order@, class, opt_text(*unique), 0)
                == find_definition_size(*pdb, pdb.type_order@, class, opt_text(*unique), j as int),
        decreases pdb.type_order@.len() - j,
    {
        let k = pdb.type_order[j];
        let ghost found_spec = if pdb.types@.contains_key(k) && 0 <= pdb.types@[k].0
            < pdb.nodes@.len() {
            complete_definition_size(pdb.nodes@[pdb.types@[k].0 as int], class, opt_text(*unique))
        } else {
            None
        };
        match pdb.types.get(&k) {
            Some(r) => {
                let found: Option<usize> = match &pdb.nodes[r.0] {
                    Type::Class(c) => {
                        if class && !c.properties.forward_reference && same_text(&c.unique_name, unique) {
                            Some(c.size)
                        } else {
                            None
                        }
                    },
                    Type::Union(u) => {
                        if !class && !u.properties.forward_reference && same_text(&u.unique_name, unique) {
                            Some(u.size)
                        } else {
                            None
                        }
                    },
                    _ => None,
                };
                assert(found == found_spec);
                if found.is_some() {
                    return found;
                }
            },
            None => {
                assert(found_spec is None);
            },
        }
        j = j + 1;
    }
    None
}

/// The size of a forward-referenced class or union (see [`forward_size`]).
fn resolved_size(pdb: &ParsedPdb, resolve: bool, class: bool, unique: &Option<String>, own: usize) -> (r:
    usize)
    requires
        pdb.wf(),
    ensures
        r == forward_size(*pdb, resolve, class, opt_text(*unique), own),
{
    if !resolve {
        return own;
    }
    match find_definition(pdb, class, unique) {
        Some(s) => s,
        None => own,
    }
}

/// A node that is a 64-bit integer (`__int64` or `unsigned __int64`, type
/// indices 0x76 and 0x77, or `quad`, 0x13 and 0x23) without indirection is 8
/// bytes large, twice a 32-bit integer of either sign, and a node that is a
/// 32-bit integer 4, resolved or not.
pub proof fn lemma_integer_node_sizes(pdb: ParsedPdb, resolve: bool, r: int)
    requires
        0 <= r < pdb.nodes@.len(),
    ensures
        pdb.nodes@[r] matches Type::Primitive(p) && p.indirection is None && (p.kind is I64 || p.kind is U64
            || p.kind is Quad || p.kind is UQuad) ==> spec_type_size(pdb, resolve, r) == Some(8usize),
        pdb.nodes@[r] matches Type::Primitive(p) && p.indirection is None && (p.kind is I32 || p.kind is U32
            || p.kind is Long || p.kind is ULong) ==> spec_type_size(pdb, resolve, r) == Some(4usize),
        PrimitiveKind::I64.spec_size() == 2 * PrimitiveKind::U32.spec_size(),
        PrimitiveKind::U64.spec_size() == 2 * PrimitiveKind::I32.spec_size(),
{
}

/// The size in bytes of the type at node `r` (see [`spec_type_size`]); with
/// `resolve` false, forward references keep their own recorded size.
pub fn node_size(pdb: &ParsedPdb, r: TypeRef, resolve: bool) -> (s: Option<usize>)
    requires
        pdb.wf(),
        r.0 < pdb.nodes@.len(),
    ensures
        s == spec_type_size(*pdb, resolve, r.0 as int),
    decreases r.0,
{
    let ghost n = r.0 as int;
    assert(pdb.nodes@[n].refs_below(n));
    match &pdb.nodes[r.0] {
        Type::Class(c) => {
            if c.properties.forward_reference {
                Some(resolved_size(pdb, resolve, true, &c.unique_name, c.size))
            } else {
                Some(c.size)
            }
        },
        Type::Union(u) => {
            if u.properties.forward_reference {
                Some(resolved_size(pdb, resolve, false, &u.unique_name, u.size))
            } else {
                Some(u.size)
            }
        },
        Type::Bitfield(b) => node_size(pdb, b.underlying_type, resolve),
        Type::Enumeration(e) => node_size(pdb, e.underlying_type, resolve),
        Type::Modifier(m) => node_size(pdb, m.underlying_type, resolve),
        Type::Alias(a) => node_size(pdb, a.underlying_type, resolve),
        Type::Pointer(p) => Some(p.attributes.kind.type_size()),
        Type::Primitive(p) => Some(p.size()),
        Type::Array(a) => Some(a.size),
        Type::FieldList(f) => {
            let fields = &f.0;
            let mut acc: usize = 0;
            let mut k: usize = 0;
            while k < fields.len()
                invariant
                    pdb.wf(),
                    n == r.0,
                    0 <= n < pdb.nodes@.len(),
                    pdb.nodes@[n] == Type::FieldList(*f),
                    fields == f.0,
                    0 <= k <= fields@.len(),
                    forall|i: int| 0 <= i < fields@.len() ==> (#[trigger] fields@[i]).0 < n,
                    spec_sum_sizes(*pdb, resolve, n, fields@, k as int) == Some(acc),
                decreases fields@.len() - k,
            {
                let field = fields[k];
                let s = match node_size(pdb, field, resolve) {
                    Some(s) => s,
                    None => {
                        proof {
                            lemma_sum_none_stays(*pdb, resolve, n, fields@, k + 1, fields@.len() as int);
                        }
                        return None;
                    },
                };
                if acc > usize::MAX - s {
                    proof {
                        lemma_sum_none_stays(*pdb, resolve, n, fields@, k + 1, fields@.len() as int);
                    }
                    return None;
                }
                acc = acc + s;
                k = k + 1;
            }
            Some(acc)
        },
        Type::FuncId(_) | Type::MFuncId(_) | Type::StringId(_) | Type::SubStrList(_)
        | Type::BuildInfoType(_) | Type::UdtSrcLineType(_) => Some(0),
        _ => None,
    }
}


// ---------------------------------------------------------------------------
// Completing arrays once every type is known
// ---------------------------------------------------------------------------

/// Whether `u` is `t`, up to the element counts of an array.
pub open spec fn same_but_dims(t: Type, u: Type) -> bool {
    match (t, u) {
        (Type::Array(a), Type::Array(b)) => a.element_type == b.element_type && a.indexing_type
            == b.indexing_type && a.stride == b.stride && a.size == b.size && a.dimensions_bytes@
            == b.dimensions_bytes@,
        _ => t == u,
    }
}

/// Whether `q` is `p` with, at most, the element counts of arrays changed.
pub open spec fn dims_changed_only(p: ParsedPdb, q: ParsedPdb) -> bool {
    &&& p.nodes@.len() == q.nodes@.len()
    &&& forall|i: int| 0 <= i < p.nodes@.len() ==> same_but_dims(#[trigger] p.nodes@[i], q.nodes@[i])
    &&& p.types == q.types
    &&& p.ipi_types == q.ipi_types
    &&& p.type_order == q.type_order
    &&& p.path == q.path
    &&& p.public_symbols == q.public_symbols
    &&& p.procedures == q.procedures
    &&& p.global_data == q.global_data
    &&& p.debug_modules == q.debug_modules
    &&& p.version == q.version
    &&& p.guid == q.guid
    &&& p.age == q.age
    &&& p.timestamp == q.timestamp
    &&& p.machine_type == q.machine_type
    &&& p.assembly_info == q.assembly_info
}

proof fn lemma_find_ignores_dims(
    p: ParsedPdb,
    q: ParsedPdb,
    order: Seq<u32>,
    class: bool,
    unique: Option<Seq<char>>,
    j: int,
)
    requires
        dims_changed_only(p, q),
    ensures
        find_definition_size(p, order, class, unique, j) == find_definition_size(q, order, class, unique, j),
    decreases order.len() - j,
{
    if 0 <= j < order.len() {
        let k = order[j];
        if p.types@.contains_key(k) && 0 <= p.types@[k].0 < p.nodes@.len() {
            let i = p.types@[k].0 as int;
            assert(same_but_dims(p.nodes@[i], q.nodes@[i]));
        }
        lemma_find_ignores_dims(p, q, order, class, unique, j + 1);
    }
}

proof fn lemma_size_ignores_dims(p: ParsedPdb, q: ParsedPdb, resolve: bool, r: int)
    requires
        dims_changed_only(p, q),
    ensures
        spec_type_size(p, resolve, r) == spec_type_size(q, resolve, r),
    decreases r, 1int, 0int,
{
    if 0 <= r < p.nodes@.len() {
        assert(same_but_dims(p.nodes@[r], q.nodes@[r]));
        match p.nodes@[r] {
            Type::Class(c) => {
                lemma_find_ignores_dims(p, q, p.type_order@, true, opt_text(c.unique_name), 0);
            },
            Type::Union(u) => {
                lemma_find_ignores_dims(p, q, p.type_order@, false, opt_text(u.unique_name), 0);
            },
            Type::Bitfield(b) => {
                if 0 <= b.underlying_type.0 < r {
                    lemma_size_ignores_dims(p, q, resolve, b.underlying_type.0 as int);
                }
            },
            Type::Enumeration(e) => {
                if 0 <= e.underlying_type.0 < r {
                    lemma_size_ignores_dims(p, q, resolve, e.underlying_type.0 as int);
                }
            },
            Type::Modifier(m) => {
                if 0 <= m.underlying_type.0 < r {
                    lemma_size_ignores_dims(p, q, resolve, m.underlying_type.0 as int);
                }
            },
            Type::Alias(a) => {
                if 0 <= a.underlying_type.0 < r {
                    lemma_size_ignores_dims(p, q, resolve, a.underlying_type.0 as int);
                }
            },
            Type::FieldList(f) => {
                lemma_sum_ignores_dims(p, q, resolve, r, f.0@, f.0@.len() as int);
            },
            _ => {},
        }
    }
}

proof fn lemma_sum_ignores_dims(
    p: ParsedPdb,
    q: ParsedPdb,
    resolve: bool,
    parent: int,
    fields: Seq<TypeRef>,
    k: int,
)
    requires
        dims_changed_only(p, q),
    ensures
        spec_sum_sizes(p, resolve, parent, fields, k) == spec_sum_sizes(q, resolve, parent, fields, k),
    decreases parent, 0int, k,
{
    if 0 < k <= fields.len() {
        lemma_sum_ignores_dims(p, q, resolve, parent, fields, k - 1);
        if 0 <= fields[k - 1].0 < parent {
            lemma_size_ignores_dims(p, q, resolve, fields[k - 1].0 as int);
        }
    }
}

/// Without the resolution of forward references, the size of a node depends
/// only on the nodes up to it: it is kept when nodes are appended.
pub proof fn lemma_size_kept_by_append(p: ParsedPdb, q: ParsedPdb, r: int)
    requires
        p.nodes@.len() <= q.nodes@.len(),
        forall|i: int| 0 <= i < p.nodes@.len() ==> q.nodes@[i] == #[trigger] p.nodes@[i],
        0 <= r < p.nodes@.len(),
    ensures
        spec_type_size(q, false, r) == spec_type_size(p, false, r),
    decreases r, 1int, 0int,
{
    assert(q.nodes@[r] == p.nodes@[r]);
    match p.nodes@[r] {
        Type::Bitfield(b) => {
            if 0 <= b.underlying_type.0 < r {
                lemma_size_kept_by_append(p, q, b.underlying_type.0 as int);
            }
        },
        Type::Enumeration(e) => {
            if 0 <= e.underlying_type.0 < r {
                lemma_size_kept_by_append(p, q, e.underlying_type.0 as int);
            }
        },
        Type::Modifier(m) => {
            if 0 <= m.underlying_type.0 < r {
                lemma_size_kept_by_append(p, q, m.underlying_type.0 as int);
            }
        },
        Type::Alias(a) => {
            if 0 <= a.underlying_type.0 < r {
                lemma_size_kept_by_append(p, q, a.underlying_type.0 as int);
            }
        },
        Type::FieldList(f) => {
            lemma_sum_kept_by_append(p, q, r, f.0@, f.0@.len() as int);
        },
        _ => {},
    }
}

proof fn lemma_sum_kept_by_append(p: ParsedPdb, q: ParsedPdb, parent: int, fields: Seq<TypeRef>, k: int)
    requires
        p.nodes@.len() <= q.nodes@.len(),
        forall|i: int| 0 <= i < p.nodes@.len() ==> q.nodes@[i] == #[trigger] p.nodes@[i],
        0 <= parent < p.nodes@.len(),
    ensures
        spec_sum_sizes(q, false, parent, fields, k) == spec_sum_sizes(p, false, parent, fields, k),
    decreases parent, 0int, k,
{
    if 0 < k <= fields.len() {
        lemma_sum_kept_by_append(p, q, parent, fields, k - 1);
        if 0 <= fields[k - 1].0 < parent {
            lemma_size_kept_by_append(p, q, fields[k - 1].0 as int);
        }
    }
}

/// The element counts of array `a`, one per dimension: the dimension's byte
/// size divided by the element size; a single 0 for an empty array or an
/// element of size 0. None where the element type has no size.
pub open spec fn spec_dimensions(p: ParsedPdb, a: Array) -> Option<Seq<usize>> {
    if a.size == 0 {
        Some(seq![0usize])
    } else {
        match spec_type_size(p, true, a.element_type.0 as int) {
            None => None,
            Some(es) => if es == 0 {
                Some(seq![0usize])
            } else {
                Some(a.dimensions_bytes@.map_values(|b: usize| (b / es) as usize))
            },
        }
    }
}

/// Whether the node that TPI key `k` names in `q` has been completed from `p`:
/// an array of `p` has, in `q`, the element counts [`spec_dimensions`] gives.
pub open spec fn completed_key(p: ParsedPdb, q: ParsedPdb, k: u32) -> bool {
    p.types@.contains_key(k) ==> match p.nodes@[p.types@[k].0 as int] {
        Type::Array(a) => match (spec_dimensions(p, a), q.nodes@[p.types@[k].0 as int]) {
            (Some(dims), Type::Array(b)) => b.dimensions_elements@ == dims,
            _ => false,
        },
        _ => true,
    }
}

/// Computes, for every array among the TPI types, its element counts (see
/// [`spec_dimensions`]), once all types are known. An array whose element type
/// has no size is an error.
pub fn complete_types(pdb: &mut ParsedPdb) -> (r: Result<(), Error>)
    requires
        old(pdb).wf(),
    ensures
        final(pdb).wf(),
        dims_changed_only(*old(pdb), *final(pdb)),
        r is Ok ==> forall|j: int|
            0 <= j < old(pdb).type_order@.len() ==> completed_key(
                *old(pdb),
                *final(pdb),
                #[trigger] old(pdb).type_order@[j],
            ),
        r is Err ==> exists|j: int|
            0 <= j < old(pdb).type_order@.len() && match old(pdb).nodes@[old(pdb).types@[#[trigger] old(
                pdb,
            ).type_order@[j]].0 as int] {
                Type::Array(a) => spec_dimensions(*old(pdb), a) is None,
                _ => false,
            },
{
    let ghost start = *pdb;
    let mut j: usize = 0;
    while j < pdb.type_order.len()
        invariant
            start == *old(pdb),
            start.wf(),
            pdb.wf(),
            dims_changed_only(start, *pdb),
            0 <= j <= start.type_order@.len(),
            forall|jj: int|
                0 <= jj < j ==> completed_key(start, *pdb, #[trigger] start.type_order@[jj]),
        decreases start.type_order@.len() - j,
    {
        let k = pdb.type_order[j];
        let r = match pdb.types.get(&k) {
            Some(r) => *r,
            None => {
                j = j + 1;
                continue;
            },
        };
        let ghost before = *pdb;
        assert(same_but_dims(start.nodes@[r.0 as int], pdb.nodes@[r.0 as int]));
        let (element_type, indexing_type, stride, size) = match &pdb.nodes[r.0] {
            Type::Array(a) => (a.element_type, a.indexing_type, a.stride, a.size),
            _ => {
                j = j + 1;
                continue;
            },
        };
        proof {
            lemma_size_ignores_dims(start, *pdb, true, element_type.0 as int);
        }
        let mut dims: Vec<usize> = Vec::new();
        let mut bytes: Vec<usize> = Vec::new();
        let ghost a = match pdb.nodes@[r.0 as int] {
            Type::Array(a) => a,
            _ => arbitrary(),
        };
        let ghost a0 = match start.nodes@[r.0 as int] {
            Type::Array(a) => a,
            _ => arbitrary(),
        };
        let n = match &pdb.nodes[r.0] {
            Type::Array(x) => x.dimensions_bytes.len(),
            _ => 0,
        };
        let mut b: usize = 0;
        while b < n
            invariant
                start == *old(pdb),
                start.wf(),
                pdb.wf(),
                dims_changed_only(start, *pdb),
                *pdb == before,
                0 <= b <= n,
                n == a.dimensions_bytes@.len(),
                pdb.nodes@[r.0 as int] == Type::Array(a),
                r.0 < pdb.nodes@.len(),
                bytes@ == a.dimensions_bytes@.subrange(0, b as int),
            decreases n - b,
        {
            let v = match &pdb.nodes[r.0] {
                Type::Array(x) => x.dimensions_bytes[b],
                _ => 0,
            };
            bytes.push(v);
            b = b + 1;
            assert(bytes@ =~= a.dimensions_bytes@.subrange(0, b as int));
        }
        assert(bytes@ =~= a.dimensions_bytes@);
        if size == 0 {
            dims.push(0);
        } else {
            let es = match node_size(pdb, element_type, true) {
                Some(es) => es,
                None => {
                    proof {
                        assert(start.types@.contains_key(start.type_order@[j as int]));
                        assert(match start.nodes@[start.types@[start.type_order@[j as int]].0 as int] {
                            Type::Array(a) => spec_dimensions(start, a) is None,
                            _ => false,
                        });
                    }
                    return Err(Error::Unsupported("array element type has no size"));
                },
            };
            if es == 0 {
                dims.push(0);
            } else {
                let mut d: usize = 0;
                while d < bytes.len()
                    invariant
                        es > 0,
                        0 <= d <= bytes@.len(),
                        dims@ == bytes@.subrange(0, d as int).map_values(|x: usize| (x / es) as usize),
                    decreases bytes@.len() - d,
                {
                    dims.push(bytes[d] / es);
                    d = d + 1;
                    assert(dims@ =~= bytes@.subrange(0, d as int).map_values(|x: usize| (x / es) as usize));
                }
                assert(bytes@.subrange(0, bytes@.len() as int) =~= bytes@);
            }
        }
        assert(dims@ =~= spec_dimensions(start, a0)->Some_0);
        let new_node = Type::Array(
            Array {
                element_type,
                indexing_type,
                stride,
                size,
                dimensions_bytes: bytes,
                dimensions_elements: dims,
            },
        );
        pdb.nodes.set(r.0, new_node);
        proof {
            assert(pdb.nodes@[r.0 as int].refs_below(r.0 as int));
            assert forall|jj: int| 0 <= jj < j + 1 implies completed_key(
                start,
                *pdb,
                #[trigger] start.type_order@[jj],
            ) by {
                let kk = start.type_order@[jj];
                if jj < j && start.types@.contains_key(kk) && start.types@[kk] != r {
                    assert(pdb.nodes@[start.types@[kk].0 as int] == before.nodes@[start.types@[kk].0 as int]);
                }
            }
        }
        j = j + 1;
    }
    Ok(())
}

} // verus!
