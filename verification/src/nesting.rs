//! How deep the structs of a property table nest.
//!
//! A struct names its members by their indices in the table, and nothing in the
//! table keeps it from naming itself. A walk through such a table does not end.

use vstd::prelude::*;
use vstd::set_lib::{lemma_int_range, lemma_len_subset, set_int_range};

use crate::flatten::{flatten, members_end, members_start, qualified};
use crate::info::{text_at, PropertyInfo};
use crate::intype::{is_struct, PROPERTY_STRUCT};

verus! {

/// How a walk through the properties from `lo` to before `hi` ends, where
/// structs may nest to the given depth: `Some(true)` where it comes through,
/// `Some(false)` where it meets an index past the end of the table, and `None`
/// where the structs nest deeper.
pub open spec fn nesting(
    properties: Seq<PropertyInfo>,
    lo: int,
    hi: int,
    depth: nat,
) -> Option<bool>
    decreases depth, hi - lo,
{
    if lo >= hi {
        Some(true)
    } else if lo >= properties.len() {
        Some(false)
    } else {
        let first = if !is_struct(properties[lo]) {
            Some(true)
        } else if depth == 0 {
            None
        } else {
            nesting(
                properties,
                members_start(properties[lo]),
                members_end(properties[lo]),
                (depth - 1) as nat,
            )
        };
        if first == Some(true) {
            nesting(properties, lo + 1, hi, depth)
        } else {
            first
        }
    }
}

/// How a walk through the members of the `j`-th property ends.
pub open spec fn members_nesting(properties: Seq<PropertyInfo>, j: int, depth: nat) -> Option<bool> {
    nesting(properties, members_start(properties[j]), members_end(properties[j]), depth)
}

/// Flattening and the walk agree on whether structs nest too deep and on whether
/// an index lies past the end of the table; names have no part in it.
pub proof fn lemma_flatten_nesting(
    info: Seq<u8>,
    properties: Seq<PropertyInfo>,
    lo: int,
    hi: int,
    prefix: Seq<char>,
    is_32bit: bool,
    depth: nat,
)
    ensures
        match flatten(info, properties, lo, hi, prefix, is_32bit, depth) {
            Some(walk) => nesting(properties, lo, hi, depth) == Some(walk.status is Ok),
            None => nesting(properties, lo, hi, depth) is None,
        },
    decreases depth, hi - lo,
{
    if lo < hi && lo < properties.len() {
        let property = properties[lo];
        let name = qualified(prefix, text_at(info, property.name_offset as int));
        if is_struct(property) && depth > 0 {
            lemma_flatten_nesting(
                info,
                properties,
                members_start(property),
                members_end(property),
                name,
                is_32bit,
                (depth - 1) as nat,
            );
        }
        lemma_flatten_nesting(info, properties, lo + 1, hi, prefix, is_32bit, depth);
    }
}

/// A walk that ends at some depth ends in the same way at every greater one.
pub proof fn lemma_nesting_stable(
    properties: Seq<PropertyInfo>,
    lo: int,
    hi: int,
    depth: nat,
    deeper: nat,
)
    requires
        nesting(properties, lo, hi, depth) is Some,
        depth <= deeper,
    ensures
        nesting(properties, lo, hi, deeper) == nesting(properties, lo, hi, depth),
    decreases depth, hi - lo,
{
    if lo < hi && lo < properties.len() {
        if is_struct(properties[lo]) {
            lemma_nesting_stable(
                properties,
                members_start(properties[lo]),
                members_end(properties[lo]),
                (depth - 1) as nat,
                (deeper - 1) as nat,
            );
        }
        if !is_struct(properties[lo]) || members_nesting(properties, lo, (depth - 1) as nat)
            == Some(true) {
            lemma_nesting_stable(properties, lo + 1, hi, depth, deeper);
        }
    }
}

/// The members of the `j`-th property need exactly the given depth.
spec fn needs_exactly(properties: Seq<PropertyInfo>, j: int, depth: nat) -> bool {
    &&& 0 <= j < properties.len()
    &&& members_nesting(properties, j, depth) is Some
    &&& depth > 0 ==> members_nesting(properties, j, (depth - 1) as nat) is None
}

/// Where a range needs depth `depth + 1`, the members of one of its structs need
/// one less.
proof fn lemma_some_members_need(
    properties: Seq<PropertyInfo>,
    lo: int,
    hi: int,
    depth: nat,
) -> (j: int)
    requires
        0 <= lo,
        nesting(properties, lo, hi, depth) is None,
        nesting(properties, lo, hi, depth + 1) is Some,
    ensures
        needs_exactly(properties, j, depth),
    decreases hi - lo,
{
    if is_struct(properties[lo]) && (depth == 0 || members_nesting(
        properties,
        lo,
        (depth - 1) as nat,
    ) is None) {
        lo
    } else {
        if is_struct(properties[lo]) {
            lemma_nesting_stable(
                properties,
                members_start(properties[lo]),
                members_end(properties[lo]),
                (depth - 1) as nat,
                depth,
            );
        }
        lemma_some_members_need(properties, lo + 1, hi, depth)
    }
}

/// Where a range needs depth `depth + 1`, there is a chain of properties whose
/// members need `depth`, `depth - 1` and so on down to 0.
proof fn lemma_chain(properties: Seq<PropertyInfo>, lo: int, hi: int, depth: nat) -> (chain: Seq<
    int,
>)
    requires
        0 <= lo,
        nesting(properties, lo, hi, depth) is None,
        nesting(properties, lo, hi, depth + 1) is Some,
    ensures
        chain.len() == depth + 1,
        forall|k: int| 0 <= k <= depth ==> needs_exactly(properties, #[trigger] chain[k], k as nat),
    decreases depth,
{
    let j = lemma_some_members_need(properties, lo, hi, depth);
    if depth == 0 {
        seq![j]
    } else {
        let shorter = lemma_chain(
            properties,
            members_start(properties[j]),
            members_end(properties[j]),
            (depth - 1) as nat,
        );
        shorter.push(j)
    }
}

/// A range that needs depth `depth + 1` lies in a table of more than `depth`
/// properties: the properties of the chain differ from one another.
proof fn lemma_depth_needs_properties(
    properties: Seq<PropertyInfo>,
    lo: int,
    hi: int,
    depth: nat,
)
    requires
        0 <= lo,
        nesting(properties, lo, hi, depth) is None,
        nesting(properties, lo, hi, depth + 1) is Some,
    ensures
        depth < properties.len(),
{
    let chain = lemma_chain(properties, lo, hi, depth);
    assert forall|a: int, b: int| 0 <= a < b < chain.len() implies chain[a] != chain[b] by {
        assert(needs_exactly(properties, chain[a], a as nat));
        assert(needs_exactly(properties, chain[b], b as nat));
        if chain[a] == chain[b] {
            let property = properties[chain[a]];
            lemma_nesting_stable(
                properties,
                members_start(property),
                members_end(property),
                a as nat,
                (b - 1) as nat,
            );
        }
    }
    assert(chain.no_duplicates());
    chain.unique_seq_to_set();
    let indices = set_int_range(0, properties.len() as int);
    lemma_int_range(0, properties.len() as int);
    assert(chain.to_set().subset_of(indices)) by {
        assert forall|j: int| chain.to_set().contains(j) implies indices.contains(j) by {
            let k = choose|k: int| 0 <= k < chain.len() && chain[k] == j;
            assert(needs_exactly(properties, chain[k], k as nat));
        }
    }
    lemma_len_subset(chain.to_set(), indices);
}

/// A walk through a property table that ends at all, however deep it goes, ends
/// within as many levels as the table has properties. So that depth tells a
/// table that can be flattened from one whose structs contain themselves.
pub proof fn law_depth_bounded_by_table(
    properties: Seq<PropertyInfo>,
    lo: int,
    hi: int,
    depth: nat,
)
    requires
        0 <= lo,
        nesting(properties, lo, hi, depth) is Some,
    ensures
        nesting(properties, lo, hi, properties.len()) == nesting(properties, lo, hi, depth),
    decreases depth,
{
    if depth <= properties.len() {
        lemma_nesting_stable(properties, lo, hi, depth, properties.len());
    } else {
        if nesting(properties, lo, hi, (depth - 1) as nat) is None {
            lemma_depth_needs_properties(properties, lo, hi, (depth - 1) as nat);
        } else {
            lemma_nesting_stable(properties, lo, hi, (depth - 1) as nat, depth);
            law_depth_bounded_by_table(properties, lo, hi, (depth - 1) as nat);
        }
    }
}

/// A flattening that stays within some depth is the same at every greater one.
pub proof fn lemma_flatten_stable(
    info: Seq<u8>,
    properties: Seq<PropertyInfo>,
    lo: int,
    hi: int,
    prefix: Seq<char>,
    is_32bit: bool,
    depth: nat,
    deeper: nat,
)
    requires
        flatten(info, properties, lo, hi, prefix, is_32bit, depth) is Some,
        depth <= deeper,
    ensures
        flatten(info, properties, lo, hi, prefix, is_32bit, deeper) == flatten(
            info,
            properties,
            lo,
            hi,
            prefix,
            is_32bit,
            depth,
        ),
    decreases depth, hi - lo,
{
    if lo < hi && lo < properties.len() {
        let property = properties[lo];
        let name = qualified(prefix, text_at(info, property.name_offset as int));
        if is_struct(property) {
            lemma_flatten_stable(
                info,
                properties,
                members_start(property),
                members_end(property),
                name,
                is_32bit,
                (depth - 1) as nat,
                (deeper - 1) as nat,
            );
        }
        if !is_struct(property) || flatten(
            info,
            properties,
            members_start(property),
            members_end(property),
            name,
            is_32bit,
            (depth - 1) as nat,
        )->0.status is Ok {
            lemma_flatten_stable(info, properties, lo + 1, hi, prefix, is_32bit, depth, deeper);
        }
    }
}

/// A property table that can be flattened at all, however deep its structs
/// nest, is flattened within as many levels as it has properties, and to the
/// same leaves or the same error.
pub proof fn law_flatten_depth_bounded_by_table(
    info: Seq<u8>,
    properties: Seq<PropertyInfo>,
    lo: int,
    hi: int,
    prefix: Seq<char>,
    is_32bit: bool,
    depth: nat,
)
    requires
        0 <= lo,
        flatten(info, properties, lo, hi, prefix, is_32bit, depth) is Some,
    ensures
        flatten(info, properties, lo, hi, prefix, is_32bit, properties.len()) == flatten(
            info,
            properties,
            lo,
            hi,
            prefix,
            is_32bit,
            depth,
        ),
{
    let bound = properties.len();
    lemma_flatten_nesting(info, properties, lo, hi, prefix, is_32bit, depth);
    lemma_flatten_nesting(info, properties, lo, hi, prefix, is_32bit, bound);
    law_depth_bounded_by_table(properties, lo, hi, depth);
    if depth <= bound {
        lemma_flatten_stable(info, properties, lo, hi, prefix, is_32bit, depth, bound);
    } else {
        lemma_flatten_stable(info, properties, lo, hi, prefix, is_32bit, bound, depth);
    }
}

/// Walks the properties from `lo` to before `hi` and returns how that ends,
/// where structs may nest to the given depth.
pub(crate) fn check_nesting(properties: &[PropertyInfo], lo: usize, hi: usize, depth: usize) -> (ended:
    Option<bool>)
    ensures
        ended == nesting(properties@, lo as int, hi as int, depth as nat),
    decreases depth,
{
    let mut i: usize = lo;
    while i < hi
        invariant
            nesting(properties@, i as int, hi as int, depth as nat) == nesting(
                properties@,
                lo as int,
                hi as int,
                depth as nat,
            ),
        decreases hi - i,
    {
        if i >= properties.len() {
            return Some(false);
        }
        let property = &properties[i];
        if property.flags & PROPERTY_STRUCT != 0 {
            if depth == 0 {
                return None;
            }
            let start: usize = property.struct_start as usize;
            let end: usize = start + property.struct_members as usize;
            match check_nesting(properties, start, end, depth - 1) {
                Some(true) => {},
                stopped => {
                    return stopped;
                },
            }
        }
        i += 1;
    }
    Some(true)
}

} // verus!
