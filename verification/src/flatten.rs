//! Flattening of the property table: structs are replaced by their members,
//! whose names are qualified in dot notation.

use vstd::prelude::*;

use crate::error::TdhDecodeError;
use crate::info::{
    law_encoded_text_is_read_back, read_property_name, text_at, unit_bytes, utf16_units, PropertyInfo,
};
use crate::intype::{
    cached_kind, explicit_length, intype_kind, intype_to_cached_info, intype_to_type_name, is_array,
    is_param_driven, is_struct, law_flags_are_single_bits, law_given_length_is_the_size,
    literal_length, type_label_of, PropertyKind, PROPERTY_HAS_COUNT, PROPERTY_HAS_LENGTH,
    PROPERTY_PARAM_LENGTH, PROPERTY_STRUCT,
};
use crate::nesting::lemma_flatten_stable;
use crate::schema::{models, CachedProperty, PropertyModel};

verus! {

/// A name within the struct `prefix`; at the top level the prefix is empty.
pub open spec fn qualified(prefix: Seq<char>, name: Seq<char>) -> Seq<char> {
    if prefix.len() == 0 {
        name
    } else {
        prefix + "."@ + name
    }
}

/// The leaf that stands for a property that is no struct. An array is a
/// placeholder: it takes the length that the table gives, if it gives one, and
/// the rest of the payload otherwise. A property whose length another one holds
/// is a placeholder too, which keeps the name of its type and takes the rest of
/// the payload.
pub open spec fn leaf(property: PropertyInfo, name: Seq<char>, is_32bit: bool) -> PropertyModel {
    if is_array(property) {
        PropertyModel {
            name,
            type_label: "unsupported_array"@,
            kind: match explicit_length(property) {
                Some(length) => PropertyKind::Fixed(length),
                None => PropertyKind::Unsupported,
            },
        }
    } else {
        PropertyModel {
            name,
            type_label: type_label_of(property.in_type as i32),
            kind: if is_param_driven(property) {
                PropertyKind::Unsupported
            } else {
                cached_kind(property.in_type as i32, is_32bit, property)
            },
        }
    }
}

/// Index of the first member of a struct.
pub open spec fn members_start(property: PropertyInfo) -> int {
    property.struct_start as int
}

/// Index behind the last member of a struct.
pub open spec fn members_end(property: PropertyInfo) -> int {
    property.struct_start + property.struct_members
}

/// What a walk through properties gives.
pub struct Walk {
    /// The leaves that the walk comes by, in order.
    pub leaves: Seq<PropertyModel>,
    /// Whether it comes through, or why it stops.
    pub status: Result<(), TdhDecodeError>,
}

/// A walk that first comes by `leaves` and then goes on with `rest`.
pub open spec fn followed(leaves: Seq<PropertyModel>, rest: Option<Walk>) -> Option<Walk> {
    match rest {
        Some(walk) => Some(Walk { leaves: leaves + walk.leaves, status: walk.status }),
        None => None,
    }
}

/// The walk through the properties from `lo` to before `hi`, where structs nest
/// no deeper than `depth`. `None` where they do. The walk goes into a struct
/// and through its members. It stops with an error at an index past the end of
/// the table, with the leaves that it came by before.
pub open spec fn flatten(
    info: Seq<u8>,
    properties: Seq<PropertyInfo>,
    lo: int,
    hi: int,
    prefix: Seq<char>,
    is_32bit: bool,
    depth: nat,
) -> Option<Walk>
    decreases depth, hi - lo,
{
    if lo >= hi {
        Some(Walk { leaves: Seq::empty(), status: Ok(()) })
    } else if lo >= properties.len() {
        Some(
            Walk {
                leaves: Seq::empty(),
                status: Err(TdhDecodeError::Malformed("property index out of bounds")),
            },
        )
    } else {
        let property = properties[lo];
        let name = qualified(prefix, text_at(info, property.name_offset as int));
        let first = if !is_struct(property) {
            Some(Walk { leaves: seq![leaf(property, name, is_32bit)], status: Ok(()) })
        } else if depth == 0 {
            None
        } else {
            flatten(
                info,
                properties,
                members_start(property),
                members_end(property),
                name,
                is_32bit,
                (depth - 1) as nat,
            )
        };
        match first {
            Some(walk) if walk.status is Ok => followed(
                walk.leaves,
                flatten(info, properties, lo + 1, hi, prefix, is_32bit, depth),
            ),
            stopped => stopped,
        }
    }
}

/// A walk took a list from `had` to `has` and ended with `status`: it added the
/// leaves that it came by, also where it stopped, and kept what was there.
pub open spec fn walk_adds(
    walk: Walk,
    had: Seq<CachedProperty>,
    has: Seq<CachedProperty>,
    status: Result<(), TdhDecodeError>,
) -> bool {
    &&& status == walk.status
    &&& had.is_prefix_of(has)
    &&& models(has) == models(had) + walk.leaves
}

/// Puts the struct's name before that of a member.
fn qualify(prefix: &str, name: String) -> (qualified_name: String)
    ensures
        qualified_name@ == qualified(prefix@, name@),
{
    if prefix.is_empty() {
        name
    } else {
        let mut text = String::new();
        text.append(prefix);
        text.append(".");
        text.append(name.as_str());
        assert(text@ =~= prefix@ + "."@ + name@);
        text
    }
}

/// Makes the leaf that stands for a property that is no struct.
fn make_leaf(property: &PropertyInfo, name: String, is_32bit: bool) -> (made: CachedProperty)
    ensures
        made@ == leaf(*property, name@, is_32bit),
{
    if property.flags & PROPERTY_HAS_COUNT != 0 && property.count != 1 {
        let kind = match literal_length(property) {
            Some(length) => PropertyKind::Fixed(length),
            None => PropertyKind::Unsupported,
        };
        return CachedProperty { name, type_label: "unsupported_array", kind };
    }
    let in_type: i32 = property.in_type as i32;
    if property.flags & PROPERTY_HAS_LENGTH != 0 && property.flags & PROPERTY_PARAM_LENGTH != 0 {
        return CachedProperty {
            name,
            type_label: intype_to_type_name(in_type),
            kind: PropertyKind::Unsupported,
        };
    }
    let (type_label, kind) = intype_to_cached_info(in_type, is_32bit, property);
    CachedProperty { name, type_label, kind }
}

/// Walks the properties from `lo` to before `hi` and adds their leaves to `out`.
/// Where an index lies past the end of the table the walk stops with an error,
/// and `out` has got the leaves before it.
pub(crate) fn walk_properties_to_cache(
    info: &[u8],
    properties: &[PropertyInfo],
    lo: usize,
    hi: usize,
    prefix: &str,
    out: &mut Vec<CachedProperty>,
    is_32bit: bool,
    Ghost(depth): Ghost<nat>,
) -> (walked: Result<(), TdhDecodeError>)
    requires
        flatten(
            info@,
            properties@,
            lo as int,
            hi as int,
            prefix@,
            is_32bit,
            depth,
        ) is Some,
    ensures
        walk_adds(
            flatten(
                info@,
                properties@,
                lo as int,
                hi as int,
                prefix@,
                is_32bit,
                depth,
            )->0,
            old(out)@,
            final(out)@,
            walked,
        ),
    decreases depth,
{
    let ghost whole = flatten(
        info@,
        properties@,
        lo as int,
        hi as int,
        prefix@,
        is_32bit,
        depth,
    );
    let ghost had = models(out@);
    let ghost mut done: Seq<PropertyModel> = Seq::empty();
    assert(models(out@) =~= had + done);
    assert(done + whole->0.leaves =~= whole->0.leaves);
    let mut i: usize = lo;
    while i < hi
        invariant
            lo <= i,
            whole is Some,
            had == models(old(out)@),
            whole == flatten(
                info@,
                properties@,
                lo as int,
                hi as int,
                prefix@,
                is_32bit,
                depth,
            ),
            old(out)@.is_prefix_of(out@),
            models(out@) == had + done,
            whole == followed(
                done,
                flatten(
                    info@,
                    properties@,
                    i as int,
                    hi as int,
                    prefix@,
                    is_32bit,
                    depth,
                ),
            ),
        decreases hi - i,
    {
        if i >= properties.len() {
            assert(done + Seq::<PropertyModel>::empty() =~= done);
            return Err(TdhDecodeError::Malformed("property index out of bounds"));
        }
        let property = &properties[i];
        let name = qualify(prefix, read_property_name(info, property));
        let ghost before = out@;
        let ghost leaves: Seq<PropertyModel>;
        if property.flags & PROPERTY_STRUCT != 0 {
            let start: usize = property.struct_start as usize;
            let end: usize = start + property.struct_members as usize;
            let walked = walk_properties_to_cache(
                info,
                properties,
                start,
                end,
                name.as_str(),
                out,
                is_32bit,
                Ghost((depth - 1) as nat),
            );
            proof {
                leaves = flatten(
                    info@,
                    properties@,
                    start as int,
                    end as int,
                    name@,
                    is_32bit,
                    (depth - 1) as nat,
                )->0.leaves;
                assert(old(out)@ =~= out@.subrange(0, old(out)@.len() as int)) by {
                    assert forall|j: int| 0 <= j < old(out)@.len() implies old(out)@[j] == out@[j] by {
                        assert(before[j] == before.subrange(0, old(out)@.len() as int)[j]);
                        assert(out@[j] == out@.subrange(0, before.len() as int)[j]);
                    }
                }
                assert(had + done + leaves =~= had + (done + leaves));
            }
            if walked.is_err() {
                return walked;
            }
        } else {
            let made = make_leaf(property, name, is_32bit);
            out.push(made);
            proof {
                leaves = seq![made@];
                assert(models(out@) =~= models(before) + leaves);
                assert(had + done + leaves =~= had + (done + leaves));
            }
        }
        i += 1;
        proof {
            let rest = flatten(
                info@,
                properties@,
                i as int,
                hi as int,
                prefix@,
                is_32bit,
                depth,
            );
            if let Some(walk) = rest {
                assert(done + (leaves + walk.leaves) =~= (done + leaves) + walk.leaves);
            }
            done = done + leaves;
        }
    }
    assert(done + Seq::<PropertyModel>::empty() =~= done);
    Ok(())
}

/// A walk is only ever added behind what a list held. What it adds and how it
/// ends does not depend on that, nor on the depth that is allowed for.
pub proof fn law_walk_ignores_what_the_list_held(
    info: Seq<u8>,
    properties: Seq<PropertyInfo>,
    lo: int,
    hi: int,
    prefix: Seq<char>,
    is_32bit: bool,
    depth: nat,
    had: Seq<CachedProperty>,
    has: Seq<CachedProperty>,
    status: Result<(), TdhDecodeError>,
    other_depth: nat,
    other_had: Seq<CachedProperty>,
    other_has: Seq<CachedProperty>,
    other_status: Result<(), TdhDecodeError>,
)
    requires
        flatten(info, properties, lo, hi, prefix, is_32bit, depth) matches Some(walk) && walk_adds(
            walk,
            had,
            has,
            status,
        ),
        flatten(info, properties, lo, hi, prefix, is_32bit, other_depth) matches Some(walk)
            && walk_adds(walk, other_had, other_has, other_status),
    ensures
        has.take(had.len() as int) == had,
        other_has.take(other_had.len() as int) == other_had,
        models(has.skip(had.len() as int)) == models(other_has.skip(other_had.len() as int)),
        status == other_status,
{
    if depth <= other_depth {
        lemma_flatten_stable(info, properties, lo, hi, prefix, is_32bit, depth, other_depth);
    } else {
        lemma_flatten_stable(info, properties, lo, hi, prefix, is_32bit, other_depth, depth);
    }
    let walk = flatten(info, properties, lo, hi, prefix, is_32bit, depth)->0;
    lemma_added_leaves(walk, had, has, status);
    lemma_added_leaves(walk, other_had, other_has, other_status);
}

/// What a walk added to a list is what it came by.
proof fn lemma_added_leaves(
    walk: Walk,
    had: Seq<CachedProperty>,
    has: Seq<CachedProperty>,
    status: Result<(), TdhDecodeError>,
)
    requires
        walk_adds(walk, had, has, status),
    ensures
        models(has.skip(had.len() as int)) == walk.leaves,
{
    let added = models(has.skip(had.len() as int));
    assert(models(has).len() == has.len());
    assert(added =~= walk.leaves) by {
        assert forall|i: int| 0 <= i < walk.leaves.len() implies added[i] == walk.leaves[i] by {
            assert(models(has)[had.len() + i] == walk.leaves[i]);
        }
    }
}

/// A walk through a struct is the walk through its members under its qualified
/// name: it ends in the same way and comes by the same leaves, and there is
/// none for the struct itself.
pub proof fn law_struct_is_walked_as_its_members(
    info: Seq<u8>,
    properties: Seq<PropertyInfo>,
    i: int,
    prefix: Seq<char>,
    is_32bit: bool,
    depth: nat,
)
    requires
        0 <= i < properties.len(),
        is_struct(properties[i]),
    ensures
        flatten(info, properties, i, i + 1, prefix, is_32bit, depth + 1) == flatten(
            info,
            properties,
            members_start(properties[i]),
            members_end(properties[i]),
            qualified(prefix, text_at(info, properties[i].name_offset as int)),
            is_32bit,
            depth,
        ),
{
    let members = flatten(
        info,
        properties,
        members_start(properties[i]),
        members_end(properties[i]),
        qualified(prefix, text_at(info, properties[i].name_offset as int)),
        is_32bit,
        depth,
    );
    let nothing = flatten(info, properties, i + 1, i + 1, prefix, is_32bit, depth + 1);
    assert(nothing == Some(Walk { leaves: Seq::empty(), status: Ok(()) }));
    if let Some(walk) = members {
        assert(walk.leaves + Seq::<PropertyModel>::empty() =~= walk.leaves);
        if let Ok(unit) = walk.status {
            assert(unit == ());
        }
    }
}

/// The leaves of a struct, however deep they stand in it, have names that begin
/// with the struct's own name and a dot.
pub proof fn law_members_carry_the_struct_name(
    info: Seq<u8>,
    properties: Seq<PropertyInfo>,
    lo: int,
    hi: int,
    prefix: Seq<char>,
    is_32bit: bool,
    depth: nat,
    walk: Walk,
    i: int,
)
    requires
        prefix.len() > 0,
        flatten(info, properties, lo, hi, prefix, is_32bit, depth) == Some(walk),
        0 <= i < walk.leaves.len(),
    ensures
        (prefix + "."@).is_prefix_of(walk.leaves[i].name),
    decreases depth, hi - lo,
{
    let property = properties[lo];
    let own = qualified(prefix, text_at(info, property.name_offset as int));
    reveal_strlit(".");
    assert(prefix + "."@ =~= own.subrange(0, (prefix + "."@).len() as int));
    let rest = flatten(info, properties, lo + 1, hi, prefix, is_32bit, depth);
    if !is_struct(property) {
        if i > 0 {
            law_members_carry_the_struct_name(
                info,
                properties,
                lo + 1,
                hi,
                prefix,
                is_32bit,
                depth,
                rest->0,
                i - 1,
            );
            assert(walk.leaves[i] == rest->0.leaves[i - 1]);
        }
    } else {
        let members = flatten(
            info,
            properties,
            members_start(property),
            members_end(property),
            own,
            is_32bit,
            (depth - 1) as nat,
        )->0;
        if i < members.leaves.len() {
            law_members_carry_the_struct_name(
                info,
                properties,
                members_start(property),
                members_end(property),
                own,
                is_32bit,
                (depth - 1) as nat,
                members,
                i,
            );
            let text = walk.leaves[i].name;
            assert(text == members.leaves[i].name);
            assert(prefix + "."@ =~= text.subrange(0, (prefix + "."@).len() as int)) by {
                assert forall|c: int| 0 <= c < (prefix + "."@).len() implies (prefix + "."@)[c]
                    == text[c] by {
                    assert(own[c] == (prefix + "."@)[c]);
                    assert((own + "."@)[c] == own[c]);
                    assert(text.subrange(0, (own + "."@).len() as int)[c] == (own + "."@)[c]);
                }
            }
        } else {
            let k = i - members.leaves.len();
            law_members_carry_the_struct_name(
                info,
                properties,
                lo + 1,
                hi,
                prefix,
                is_32bit,
                depth,
                rest->0,
                k,
            );
            assert(walk.leaves[i] == rest->0.leaves[k]);
        }
    }
}

/// The walk through properties among which there is no struct: one leaf for
/// each of them that is in the table, in order, and an error where not all are.
pub open spec fn plain_walk(
    info: Seq<u8>,
    properties: Seq<PropertyInfo>,
    lo: int,
    hi: int,
    prefix: Seq<char>,
    is_32bit: bool,
) -> Walk {
    let end = if hi <= properties.len() {
        hi
    } else if lo <= properties.len() {
        properties.len() as int
    } else {
        lo
    };
    Walk {
        leaves: Seq::new(
            (end - lo) as nat,
            |i: int|
                leaf(
                    properties[lo + i],
                    qualified(prefix, text_at(info, properties[lo + i].name_offset as int)),
                    is_32bit,
                ),
        ),
        status: if hi <= properties.len() {
            Ok(())
        } else {
            Err(TdhDecodeError::Malformed("property index out of bounds"))
        },
    }
}

/// Properties among which there is no struct keep their order and their number,
/// and each is its own leaf. Where the range passes the end of the table, those
/// before the end do.
pub proof fn law_plain_properties_keep_their_order(
    info: Seq<u8>,
    properties: Seq<PropertyInfo>,
    lo: int,
    hi: int,
    prefix: Seq<char>,
    is_32bit: bool,
    depth: nat,
)
    requires
        0 <= lo < hi,
        forall|i: int|
            lo <= i < hi && i < properties.len() ==> !is_struct(#[trigger] properties[i]),
    ensures
        flatten(info, properties, lo, hi, prefix, is_32bit, depth) == Some(
            plain_walk(info, properties, lo, hi, prefix, is_32bit),
        ),
    decreases hi - lo,
{
    let wanted = plain_walk(info, properties, lo, hi, prefix, is_32bit);
    let found = flatten(info, properties, lo, hi, prefix, is_32bit, depth);
    if lo < properties.len() {
        assert(!is_struct(properties[lo]));
        if lo + 1 < hi {
            law_plain_properties_keep_their_order(
                info,
                properties,
                lo + 1,
                hi,
                prefix,
                is_32bit,
                depth,
            );
        }
    }
    assert(found->0.leaves =~= wanted.leaves);
}

/// A range is walked piece by piece: where its first part comes through, the
/// second follows, and its leaves stand behind those of the first; where the
/// first part stops, so does the whole.
pub proof fn law_ranges_are_flattened_in_order(
    info: Seq<u8>,
    properties: Seq<PropertyInfo>,
    lo: int,
    mid: int,
    hi: int,
    prefix: Seq<char>,
    is_32bit: bool,
    depth: nat,
)
    requires
        lo <= mid <= hi,
    ensures
        flatten(info, properties, lo, hi, prefix, is_32bit, depth) == match flatten(
            info,
            properties,
            lo,
            mid,
            prefix,
            is_32bit,
            depth,
        ) {
            Some(front) if front.status is Ok => followed(
                front.leaves,
                flatten(info, properties, mid, hi, prefix, is_32bit, depth),
            ),
            stopped => stopped,
        },
    decreases mid - lo,
{
    let back = flatten(info, properties, mid, hi, prefix, is_32bit, depth);
    if lo == mid {
        if let Some(walk) = back {
            assert(Seq::<PropertyModel>::empty() + walk.leaves =~= walk.leaves);
        }
    } else if lo < properties.len() {
        law_ranges_are_flattened_in_order(
            info,
            properties,
            lo + 1,
            mid,
            hi,
            prefix,
            is_32bit,
            depth,
        );
        let property = properties[lo];
        let name = qualified(prefix, text_at(info, property.name_offset as int));
        let first = if is_struct(property) {
            flatten(
                info,
                properties,
                members_start(property),
                members_end(property),
                name,
                is_32bit,
                (depth - 1) as nat,
            )->0.leaves
        } else {
            seq![leaf(property, name, is_32bit)]
        };
        let others = flatten(info, properties, lo + 1, mid, prefix, is_32bit, depth);
        if let (Some(walk), Some(rest)) = (others, back) {
            assert(first + (walk.leaves + rest.leaves) =~= (first + walk.leaves) + rest.leaves);
        }
    }
}

/// A qualified name is the prefix, a dot and the name, character by character;
/// without a prefix it is the name.
pub proof fn law_qualified_name_has_all_its_parts(prefix: Seq<char>, name: Seq<char>)
    ensures
        prefix.len() == 0 ==> qualified(prefix, name) == name,
        prefix.len() > 0 ==> {
            &&& qualified(prefix, name).len() == prefix.len() + 1 + name.len()
            &&& forall|i: int|
                0 <= i < prefix.len() ==> #[trigger] qualified(prefix, name)[i] == prefix[i]
            &&& qualified(prefix, name)[prefix.len() as int] == '.'
            &&& qualified(prefix, name).skip(1 + prefix.len() as int) == name
        },
{
    reveal_strlit(".");
    if prefix.len() > 0 {
        assert(qualified(prefix, name).skip(1 + prefix.len() as int) =~= name);
    }
}

/// What a leaf is, by the bits of the property's flags: it keeps its name, and
/// an array and a property whose length another one holds are placeholders.
pub proof fn law_leaf_by_flags(property: PropertyInfo, name: Seq<char>, is_32bit: bool)
    ensures
        ({
            let made = leaf(property, name, is_32bit);
            let array = (property.flags >> 3i32) & 1i32 == 1i32 && property.count != 1;
            let has_length = (property.flags >> 2i32) & 1i32 == 1i32;
            let held_elsewhere = (property.flags >> 4i32) & 1i32 == 1i32;
            let given = has_length && !held_elsewhere && property.length != 0;
            &&& made.name == name
            &&& array ==> made.type_label == "unsupported_array"@
            &&& !array ==> made.type_label == type_label_of(property.in_type as i32)
            &&& given ==> made.kind == PropertyKind::Fixed(property.length as usize)
            &&& !given && (array || (has_length && held_elsewhere)) ==> made.kind
                == PropertyKind::Unsupported
            &&& !given && !array && !(has_length && held_elsewhere) ==> made.kind == intype_kind(
                property.in_type as i32,
                is_32bit,
            )
        }),
{
    law_flags_are_single_bits(property);
    law_given_length_is_the_size(property.in_type as i32, is_32bit, property, property);
    let flags = property.flags;
    assert((flags >> 4i32) & 1i32 == 0i32 || (flags >> 4i32) & 1i32 == 1i32) by (bit_vector);
}

/// Flags other than bits 0, 2, 3 and 4 have no part in what a property becomes.
pub proof fn law_other_flags_have_no_part(
    property: PropertyInfo,
    other: PropertyInfo,
    name: Seq<char>,
    is_32bit: bool,
)
    requires
        other == (PropertyInfo { flags: other.flags, ..property }),
        property.flags & 0x1di32 == other.flags & 0x1di32,
    ensures
        is_struct(property) == is_struct(other),
        leaf(property, name, is_32bit) == leaf(other, name, is_32bit),
{
    let a = property.flags;
    let b = other.flags;
    assert(a & 1i32 == b & 1i32 && a & 4i32 == b & 4i32 && a & 8i32 == b & 8i32 && a & 0x10i32 == b
        & 0x10i32) by (bit_vector)
        requires
            a & 0x1di32 == b & 0x1di32,
    ;
}

/// A property that is no struct is walked as one leaf, whose name is the text
/// that stands at the property's name offset, in full, behind the prefix and a
/// dot where there is a prefix.
pub proof fn law_plain_property_is_one_named_leaf(
    before: Seq<u8>,
    text: Seq<char>,
    tail: Seq<u8>,
    properties: Seq<PropertyInfo>,
    i: int,
    prefix: Seq<char>,
    is_32bit: bool,
    depth: nat,
)
    requires
        before.len() > 0,
        !text.contains('\0'),
        0 <= i < properties.len(),
        properties[i].name_offset == before.len(),
        properties[i].flags & 1i32 == 0i32,
    ensures
        ({
            let info = before + unit_bytes(utf16_units(text)) + seq![0u8, 0u8] + tail;
            &&& flatten(info, properties, i, i + 1, prefix, is_32bit, depth) matches Some(walk)
            &&& walk.status is Ok
            &&& walk.leaves.len() == 1
            &&& prefix.len() == 0 ==> walk.leaves[0].name == text
            &&& prefix.len() > 0 ==> walk.leaves[0].name == prefix + "."@ + text
            &&& walk.leaves[0] == leaf(properties[i], walk.leaves[0].name, is_32bit)
        }),
{
    let info = before + unit_bytes(utf16_units(text)) + seq![0u8, 0u8] + tail;
    law_encoded_text_is_read_back(before, text, tail);
    law_flags_are_single_bits(properties[i]);
    let nothing = flatten(info, properties, i + 1, i + 1, prefix, is_32bit, depth);
    assert(nothing == Some(Walk { leaves: Seq::empty(), status: Ok(()) }));
    let made = leaf(properties[i], qualified(prefix, text), is_32bit);
    assert(seq![made] + Seq::<PropertyModel>::empty() =~= seq![made]);
}

/// A struct is walked as the table entries from its start index on, as many as
/// it has members, under the text that stands at its name offset.
pub proof fn law_struct_is_its_table_entries(
    before: Seq<u8>,
    text: Seq<char>,
    tail: Seq<u8>,
    properties: Seq<PropertyInfo>,
    i: int,
    prefix: Seq<char>,
    is_32bit: bool,
    depth: nat,
)
    requires
        before.len() > 0,
        !text.contains('\0'),
        0 <= i < properties.len(),
        properties[i].name_offset == before.len(),
        properties[i].flags & 1i32 == 1i32,
    ensures
        ({
            let info = before + unit_bytes(utf16_units(text)) + seq![0u8, 0u8] + tail;
            let start = properties[i].struct_start as int;
            let inner = if prefix.len() == 0 {
                text
            } else {
                prefix + "."@ + text
            };
            &&& flatten(info, properties, i, i + 1, prefix, is_32bit, depth + 1) == flatten(
                info,
                properties,
                start,
                start + properties[i].struct_members,
                inner,
                is_32bit,
                depth,
            )
            &&& flatten(info, properties, i, i + 1, prefix, is_32bit, 0) is None
        }),
{
    let info = before + unit_bytes(utf16_units(text)) + seq![0u8, 0u8] + tail;
    law_encoded_text_is_read_back(before, text, tail);
    law_flags_are_single_bits(properties[i]);
    law_struct_is_walked_as_its_members(info, properties, i, prefix, is_32bit, depth);
}

/// A struct whose members lie in the table and are no structs gives exactly as
/// many leaves as it has members. The leaf of each is that of the table entry as
/// far behind the struct's start index, and its name is qualified twice.
pub proof fn law_struct_gives_each_of_its_members(
    info: Seq<u8>,
    properties: Seq<PropertyInfo>,
    i: int,
    prefix: Seq<char>,
    is_32bit: bool,
    depth: nat,
)
    requires
        0 <= i < properties.len(),
        depth > 0,
        properties[i].flags & 1i32 == 1i32,
        properties[i].struct_start + properties[i].struct_members <= properties.len(),
        forall|j: int|
            properties[i].struct_start <= j < properties[i].struct_start
                + properties[i].struct_members ==> (#[trigger] properties[j]).flags & 1i32 == 0i32,
    ensures
        flatten(info, properties, i, i + 1, prefix, is_32bit, depth) matches Some(walk) && {
            &&& walk.status is Ok
            &&& walk.leaves.len() == properties[i].struct_members
            &&& forall|j: int|
                0 <= j < properties[i].struct_members ==> #[trigger] walk.leaves[j] == leaf(
                    properties[properties[i].struct_start + j],
                    qualified(
                        qualified(prefix, text_at(info, properties[i].name_offset as int)),
                        text_at(
                            info,
                            properties[properties[i].struct_start + j].name_offset as int,
                        ),
                    ),
                    is_32bit,
                )
        },
{
    let start = properties[i].struct_start as int;
    let end = start + properties[i].struct_members;
    let own = qualified(prefix, text_at(info, properties[i].name_offset as int));
    law_flags_are_single_bits(properties[i]);
    law_struct_is_walked_as_its_members(
        info,
        properties,
        i,
        prefix,
        is_32bit,
        (depth - 1) as nat,
    );
    if start < end {
        assert forall|j: int| start <= j < end && j < properties.len() implies !is_struct(
            #[trigger] properties[j],
        ) by {
            law_flags_are_single_bits(properties[j]);
            assert(properties[j].flags & 1i32 == 0i32);
        }
        law_plain_properties_keep_their_order(
            info,
            properties,
            start,
            end,
            own,
            is_32bit,
            (depth - 1) as nat,
        );
    }
}

/// An empty range comes through without a leaf. A range that begins past the end
/// of the table stops at once, with the error for that.
pub proof fn law_where_a_walk_ends(
    info: Seq<u8>,
    properties: Seq<PropertyInfo>,
    lo: int,
    hi: int,
    prefix: Seq<char>,
    is_32bit: bool,
    depth: nat,
)
    requires
        lo >= hi || lo >= properties.len(),
    ensures
        flatten(info, properties, lo, hi, prefix, is_32bit, depth) matches Some(walk) && {
            &&& walk.leaves.len() == 0
            &&& lo >= hi ==> walk.status is Ok
            &&& lo < hi ==> walk.status == Err::<(), TdhDecodeError>(
                TdhDecodeError::Malformed("property index out of bounds"),
            )
        },
{
}

/// A range is walked in two parts: where the first stops, so does the whole, at
/// the same place; where it comes through, the leaves are those of the first
/// part and then those of the second, and the second decides how it ends.
pub proof fn law_second_part_follows_the_first(
    info: Seq<u8>,
    properties: Seq<PropertyInfo>,
    lo: int,
    mid: int,
    hi: int,
    prefix: Seq<char>,
    is_32bit: bool,
    depth: nat,
)
    requires
        lo <= mid <= hi,
    ensures
        ({
            let front = flatten(info, properties, lo, mid, prefix, is_32bit, depth);
            let back = flatten(info, properties, mid, hi, prefix, is_32bit, depth);
            let whole = flatten(info, properties, lo, hi, prefix, is_32bit, depth);
            &&& front is None ==> whole is None
            &&& front is Some && front->0.status is Err ==> whole == front
            &&& front is Some && front->0.status is Ok && back is None ==> whole is None
            &&& front is Some && front->0.status is Ok && back is Some ==> {
                &&& whole is Some
                &&& whole->0.leaves == front->0.leaves + back->0.leaves
                &&& whole->0.status == back->0.status
            }
        }),
{
    law_ranges_are_flattened_in_order(info, properties, lo, mid, hi, prefix, is_32bit, depth);
}

/// What stands before the names of a struct's leaves changes nothing but that:
/// under two prefixes a range gives the same leaves with the same types and
/// sizes, ends in the same way, and behind the prefixes the names are the same.
pub proof fn law_prefix_changes_only_what_names_begin_with(
    info: Seq<u8>,
    properties: Seq<PropertyInfo>,
    lo: int,
    hi: int,
    prefix: Seq<char>,
    other: Seq<char>,
    is_32bit: bool,
    depth: nat,
)
    requires
        prefix.len() > 0,
        other.len() > 0,
    ensures
        ({
            let walked = flatten(info, properties, lo, hi, prefix, is_32bit, depth);
            let again = flatten(info, properties, lo, hi, other, is_32bit, depth);
            &&& walked is Some == again is Some
            &&& walked is Some ==> {
                &&& walked->0.status == again->0.status
                &&& walked->0.leaves.len() == again->0.leaves.len()
                &&& forall|i: int|
                    0 <= i < walked->0.leaves.len() ==> same_behind(
                        #[trigger] walked->0.leaves[i],
                        prefix.len() as int,
                        again->0.leaves[i],
                        other.len() as int,
                    )
            }
        }),
    decreases depth, hi - lo,
{
    if lo < hi && lo < properties.len() {
        let property = properties[lo];
        let text = text_at(info, property.name_offset as int);
        let own = qualified(prefix, text);
        let others = qualified(other, text);
        reveal_strlit(".");
        assert(own.skip(prefix.len() as int) =~= "."@ + text);
        assert(others.skip(other.len() as int) =~= "."@ + text);
        let walked = flatten(info, properties, lo, hi, prefix, is_32bit, depth);
        let again = flatten(info, properties, lo, hi, other, is_32bit, depth);
        law_prefix_changes_only_what_names_begin_with(
            info,
            properties,
            lo + 1,
            hi,
            prefix,
            other,
            is_32bit,
            depth,
        );
        let rest = flatten(info, properties, lo + 1, hi, prefix, is_32bit, depth);
        let rest_again = flatten(info, properties, lo + 1, hi, other, is_32bit, depth);
        if !is_struct(property) {
            if walked is Some {
                assert forall|i: int| 0 <= i < walked->0.leaves.len() implies same_behind(
                    #[trigger] walked->0.leaves[i],
                    prefix.len() as int,
                    again->0.leaves[i],
                    other.len() as int,
                ) by {
                    if i > 0 {
                        assert(walked->0.leaves[i] == rest->0.leaves[i - 1]);
                        assert(again->0.leaves[i] == rest_again->0.leaves[i - 1]);
                    }
                }
            }
        } else if depth > 0 {
            let start = members_start(property);
            let end = members_end(property);
            let below = (depth - 1) as nat;
            law_prefix_changes_only_what_names_begin_with(
                info,
                properties,
                start,
                end,
                own,
                others,
                is_32bit,
                below,
            );
            let members = flatten(info, properties, start, end, own, is_32bit, below);
            let members_again = flatten(info, properties, start, end, others, is_32bit, below);
            if walked is Some {
                let n = members->0.leaves.len();
                assert forall|i: int| 0 <= i < walked->0.leaves.len() implies same_behind(
                    #[trigger] walked->0.leaves[i],
                    prefix.len() as int,
                    again->0.leaves[i],
                    other.len() as int,
                ) by {
                    if i < n {
                        let leaf_own = members->0.leaves[i];
                        let leaf_other = members_again->0.leaves[i];
                        assert(walked->0.leaves[i] == leaf_own);
                        assert(again->0.leaves[i] == leaf_other);
                        law_members_carry_the_struct_name(
                            info,
                            properties,
                            start,
                            end,
                            own,
                            is_32bit,
                            below,
                            members->0,
                            i,
                        );
                        law_members_carry_the_struct_name(
                            info,
                            properties,
                            start,
                            end,
                            others,
                            is_32bit,
                            below,
                            members_again->0,
                            i,
                        );
                        lemma_same_behind_shorter(
                            leaf_own.name,
                            own,
                            prefix.len() as int,
                            leaf_other.name,
                            others,
                            other.len() as int,
                        );
                    } else {
                        assert(walked->0.leaves[i] == rest->0.leaves[i - n]);
                        assert(again->0.leaves[i] == rest_again->0.leaves[i - n]);
                    }
                }
            }
        }
    }
}

/// Two leaves have the same type and size, and from the given positions on the
/// same name.
pub open spec fn same_behind(one: PropertyModel, at: int, two: PropertyModel, other_at: int) -> bool {
    &&& one.type_label == two.type_label
    &&& one.kind == two.kind
    &&& one.name.skip(at) == two.name.skip(other_at)
}

/// Texts that are the same behind what they begin with, and begin with what is
/// the same behind shorter beginnings, are the same behind those.
proof fn lemma_same_behind_shorter(
    one: Seq<char>,
    own: Seq<char>,
    at: int,
    two: Seq<char>,
    others: Seq<char>,
    other_at: int,
)
    requires
        0 <= at <= own.len(),
        0 <= other_at <= others.len(),
        (own + "."@).is_prefix_of(one),
        (others + "."@).is_prefix_of(two),
        own.skip(at) == others.skip(other_at),
        one.skip(own.len() as int) == two.skip(others.len() as int),
    ensures
        one.skip(at) == two.skip(other_at),
{
    assert(one.skip(at) =~= own.skip(at) + one.skip(own.len() as int)) by {
        assert forall|c: int| at <= c < own.len() implies one[c] == own[c] by {
            assert((own + "."@)[c] == one.subrange(0, (own + "."@).len() as int)[c]);
        }
    }
    assert(two.skip(other_at) =~= others.skip(other_at) + two.skip(others.len() as int)) by {
        assert forall|c: int| other_at <= c < others.len() implies two[c] == others[c] by {
            assert((others + "."@)[c] == two.subrange(0, (others + "."@).len() as int)[c]);
        }
    }
}

/// What a walk added to a list is the leaves that it came by, no more and no
/// fewer, behind what the list held.
pub proof fn law_walk_adds_its_leaves(
    walk: Walk,
    had: Seq<CachedProperty>,
    has: Seq<CachedProperty>,
    status: Result<(), TdhDecodeError>,
)
    requires
        walk_adds(walk, had, has, status),
    ensures
        status == walk.status,
        has.len() == had.len() + walk.leaves.len(),
        forall|i: int| 0 <= i < had.len() ==> #[trigger] has[i] == had[i],
        forall|i: int|
            0 <= i < walk.leaves.len() ==> {
                &&& has[had.len() + i].name@ == (#[trigger] walk.leaves[i]).name
                &&& has[had.len() + i].type_label@ == walk.leaves[i].type_label
                &&& has[had.len() + i].kind == walk.leaves[i].kind
            },
{
    assert(models(has).len() == has.len());
    assert forall|i: int| 0 <= i < had.len() implies #[trigger] has[i] == had[i] by {
        assert(had[i] == has.subrange(0, had.len() as int)[i]);
    }
    assert forall|i: int| 0 <= i < walk.leaves.len() implies has[had.len() + i]@
        == #[trigger] walk.leaves[i] by {
        assert(models(has)[had.len() + i] == walk.leaves[i]);
    }
}

/// The pointer width of the event has no part in which leaves a walk comes by,
/// in their names and types, and in how it ends. It has one only in the sizes of
/// pointers: four bytes or eight.
pub proof fn law_width_changes_only_pointers(
    info: Seq<u8>,
    properties: Seq<PropertyInfo>,
    lo: int,
    hi: int,
    prefix: Seq<char>,
    depth: nat,
)
    ensures
        ({
            let narrow = flatten(info, properties, lo, hi, prefix, true, depth);
            let wide = flatten(info, properties, lo, hi, prefix, false, depth);
            &&& narrow is Some == wide is Some
            &&& narrow is Some ==> {
                &&& narrow->0.status == wide->0.status
                &&& narrow->0.leaves.len() == wide->0.leaves.len()
                &&& forall|i: int|
                    0 <= i < narrow->0.leaves.len() ==> same_but_pointers(
                        #[trigger] narrow->0.leaves[i],
                        wide->0.leaves[i],
                    )
            }
        }),
    decreases depth, hi - lo,
{
    if lo < hi && lo < properties.len() {
        let property = properties[lo];
        let name = qualified(prefix, text_at(info, property.name_offset as int));
        let narrow = flatten(info, properties, lo, hi, prefix, true, depth);
        let wide = flatten(info, properties, lo, hi, prefix, false, depth);
        law_width_changes_only_pointers(info, properties, lo + 1, hi, prefix, depth);
        let narrow_rest = flatten(info, properties, lo + 1, hi, prefix, true, depth);
        let wide_rest = flatten(info, properties, lo + 1, hi, prefix, false, depth);
        if !is_struct(property) {
            if narrow is Some {
                assert forall|i: int| 0 <= i < narrow->0.leaves.len() implies same_but_pointers(
                    #[trigger] narrow->0.leaves[i],
                    wide->0.leaves[i],
                ) by {
                    if i > 0 {
                        assert(narrow->0.leaves[i] == narrow_rest->0.leaves[i - 1]);
                        assert(wide->0.leaves[i] == wide_rest->0.leaves[i - 1]);
                    }
                }
            }
        } else if depth > 0 {
            let start = members_start(property);
            let end = members_end(property);
            let below = (depth - 1) as nat;
            law_width_changes_only_pointers(info, properties, start, end, name, below);
            let narrow_members = flatten(info, properties, start, end, name, true, below);
            let wide_members = flatten(info, properties, start, end, name, false, below);
            if narrow is Some {
                let n = narrow_members->0.leaves.len();
                assert forall|i: int| 0 <= i < narrow->0.leaves.len() implies same_but_pointers(
                    #[trigger] narrow->0.leaves[i],
                    wide->0.leaves[i],
                ) by {
                    if i < n {
                        assert(narrow->0.leaves[i] == narrow_members->0.leaves[i]);
                        assert(wide->0.leaves[i] == wide_members->0.leaves[i]);
                    } else {
                        assert(narrow->0.leaves[i] == narrow_rest->0.leaves[i - n]);
                        assert(wide->0.leaves[i] == wide_rest->0.leaves[i - n]);
                    }
                }
            }
        }
    }
}

/// Two leaves are the same, or the same pointer in events of 32-bit and of
/// 64-bit pointers.
pub open spec fn same_but_pointers(narrow: PropertyModel, wide: PropertyModel) -> bool {
    &&& narrow.name == wide.name
    &&& narrow.type_label == wide.type_label
    &&& narrow.kind == wide.kind || (narrow.type_label == "pointer"@ && narrow.kind
        == PropertyKind::Fixed(4) && wide.kind == PropertyKind::Fixed(8))
}

} // verus!
