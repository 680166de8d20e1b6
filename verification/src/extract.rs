//! Schemas from the event information.

use vstd::prelude::*;

use crate::error::TdhDecodeError;
use crate::event::EventFormat;
use crate::flatten::{
    flatten, law_plain_properties_keep_their_order, law_width_changes_only_pointers, leaf,
    walk_properties_to_cache, Walk,
};
use crate::info::{
    event_name_of, law_counts_are_read_back, law_numbers_are_read_back, property_count,
    property_pos, property_table, read_event_name, read_properties, read_u32, text_at,
    top_level_count, u32_bytes, EVENT_PROPERTY_INFO_SIZE, PROPERTY_COUNT_POS,
    TOP_LEVEL_PROPERTY_COUNT_POS, TRACE_EVENT_INFO_SIZE,
};
use crate::intype::{is_struct, law_flags_are_single_bits, PropertyKind};
use crate::layout::{
    build_event_format_with_data, law_fixed_layout_ignores_payload, law_layout_ends_with_total_size,
    layout_end, layout_fits, payload_layout, total_size,
};
use crate::nesting::{check_nesting, law_flatten_depth_bounded_by_table, lemma_flatten_nesting};
use crate::schema::{
    all_fixed, law_all_fixed_means_each, models, CachedProperty, CachedSchema, PropertyModel,
    SchemaModel,
};

verus! {

/// The leaves of the whole property table, or the error in it. `None` where a
/// struct contains itself.
pub open spec fn table_leaves(info: Seq<u8>, is_32bit: bool) -> Option<
    Result<Seq<PropertyModel>, TdhDecodeError>,
> {
    match flatten(
        info,
        property_table(info),
        0,
        top_level_count(info),
        Seq::empty(),
        is_32bit,
        property_table(info).len(),
    ) {
        Some(walk) => match walk.status {
            Ok(_) => Some(Ok(walk.leaves)),
            Err(error) => Some(Err(error)),
        },
        None => None,
    }
}

/// The schema of the given name and leaves.
pub open spec fn schema_model(event_name: Seq<char>, properties: Seq<PropertyModel>) -> SchemaModel {
    SchemaModel {
        event_name,
        properties,
        fixed_format: if all_fixed(properties) {
            Some(payload_layout(properties, Seq::empty()))
        } else {
            None
        },
    }
}

/// The schema that the event information describes, or the error in it. `None`
/// where there is neither: a struct contains itself, or the offsets of a layout
/// of fixed sizes pass the range of a `usize`.
pub open spec fn schema_of(info: Seq<u8>, is_32bit: bool) -> Option<
    Result<SchemaModel, TdhDecodeError>,
> {
    if info.len() < TRACE_EVENT_INFO_SIZE {
        Some(Err(TdhDecodeError::Malformed("buffer smaller than TRACE_EVENT_INFO")))
    } else if property_count(info) == 0 {
        Some(Ok(schema_model(event_name_of(info), Seq::empty())))
    } else if info.len() < property_pos(property_count(info)) {
        Some(Err(TdhDecodeError::Malformed("buffer too small for declared property count")))
    } else {
        match table_leaves(info, is_32bit) {
            Some(Ok(properties)) => if all_fixed(properties) && layout_end(
                properties,
                Seq::empty(),
            ) > usize::MAX {
                None
            } else {
                Some(Ok(schema_model(event_name_of(info), properties)))
            },
            Some(Err(error)) => Some(Err(error)),
            None => None,
        }
    }
}

/// Tells whether every property has a fixed size.
fn is_all_fixed(properties: &[CachedProperty]) -> (fixed: bool)
    ensures
        fixed == all_fixed(models(properties@)),
{
    let mut k: usize = 0;
    while k < properties.len()
        invariant
            k <= properties@.len(),
            forall|i: int| 0 <= i < k ==> #[trigger] models(properties@)[i].kind is Fixed,
        decreases properties@.len() - k,
    {
        match properties[k].kind {
            PropertyKind::Fixed(_) => {},
            _ => {
                assert(!(models(properties@)[k as int].kind is Fixed));
                return false;
            },
        }
        k += 1;
    }
    true
}

/// Tells whether the property table lies within the event information.
fn table_lies_within(info: &[u8]) -> (within: bool)
    requires
        TRACE_EVENT_INFO_SIZE <= info@.len(),
    ensures
        within == (property_pos(property_count(info@)) <= info@.len()),
{
    let count: u64 = read_u32(info, PROPERTY_COUNT_POS) as u64;
    let end: u64 = TRACE_EVENT_INFO_SIZE as u64 + EVENT_PROPERTY_INFO_SIZE as u64 * count;
    end <= info.len() as u64
}

/// Builds the schema that the event information describes.
///
/// Not for information in which a struct contains itself, nor for a layout of
/// fixed sizes whose offsets pass the range of a `usize`: `can_build_schema`
/// tells these apart.
pub fn build_cached_schema(info: &[u8], is_32bit: bool) -> (built: Result<
    CachedSchema,
    TdhDecodeError,
>)
    requires
        schema_of(info@, is_32bit) is Some,
    ensures
        match schema_of(info@, is_32bit)->0 {
            Ok(schema) => built matches Ok(cached) && cached@ == schema,
            Err(error) => built matches Err(failed) && failed == error,
        },
{
    if info.len() < TRACE_EVENT_INFO_SIZE {
        return Err(TdhDecodeError::Malformed("buffer smaller than TRACE_EVENT_INFO"));
    }
    let event_name = read_event_name(info);
    let mut properties: Vec<CachedProperty> = Vec::new();
    if read_u32(info, PROPERTY_COUNT_POS) == 0 {
        let format = EventFormat::new();
        assert(models(properties@) =~= Seq::empty());
        assert(format@ =~= payload_layout(models(properties@), Seq::empty()));
        return Ok(CachedSchema { event_name, properties, fixed_format: Some(format) });
    }
    if !table_lies_within(info) {
        return Err(TdhDecodeError::Malformed("buffer too small for declared property count"));
    }
    let table = read_properties(info);
    let top_level: usize = read_u32(info, TOP_LEVEL_PROPERTY_COUNT_POS) as usize;
    proof {
        reveal_strlit("");
        assert(""@ =~= Seq::<char>::empty());
    }
    walk_properties_to_cache(
        info,
        table.as_slice(),
        0,
        top_level,
        "",
        &mut properties,
        is_32bit,
        Ghost(table@.len()),
    )?;
    assert(models(properties@) =~= table_leaves(info@, is_32bit)->0->Ok_0);
    let nothing: &[u8] = &[];
    assert(nothing@ =~= Seq::empty());
    let fixed_format = if is_all_fixed(properties.as_slice()) {
        Some(build_event_format_with_data(properties.as_slice(), nothing))
    } else {
        None
    };
    Ok(CachedSchema { event_name, properties, fixed_format })
}

/// Flattens the property table; `None` where a struct contains itself.
fn flatten_table(info: &[u8], is_32bit: bool) -> (flattened: Option<
    Result<Vec<CachedProperty>, TdhDecodeError>,
>)
    requires
        TRACE_EVENT_INFO_SIZE <= info@.len(),
        property_pos(property_count(info@)) <= info@.len(),
    ensures
        match table_leaves(info@, is_32bit) {
            Some(Ok(leaves)) => flattened matches Some(Ok(properties)) && models(properties@)
                == leaves,
            Some(Err(error)) => flattened matches Some(Err(failed)) && failed == error,
            None => flattened is None,
        },
{
    let table = read_properties(info);
    let top_level: usize = read_u32(info, TOP_LEVEL_PROPERTY_COUNT_POS) as usize;
    let mut properties: Vec<CachedProperty> = Vec::new();
    proof {
        reveal_strlit("");
        assert(""@ =~= Seq::<char>::empty());
        lemma_flatten_nesting(
            info@,
            table@,
            0,
            top_level as int,
            Seq::empty(),
            is_32bit,
            table@.len(),
        );
    }
    if check_nesting(table.as_slice(), 0, top_level, table.len()).is_none() {
        return None;
    }
    match walk_properties_to_cache(
        info,
        table.as_slice(),
        0,
        top_level,
        "",
        &mut properties,
        is_32bit,
        Ghost(table@.len()),
    ) {
        Ok(()) => {
            assert(models(properties@) =~= table_leaves(info@, is_32bit)->0->Ok_0);
            Some(Ok(properties))
        },
        Err(error) => Some(Err(error)),
    }
}

/// Tells whether the event information describes a schema or holds an error:
/// no struct contains itself, and the offsets of a layout of fixed sizes fit in
/// a `usize`.
pub fn can_build_schema(info: &[u8], is_32bit: bool) -> (can: bool)
    ensures
        can == (schema_of(info@, is_32bit) is Some),
{
    if info.len() < TRACE_EVENT_INFO_SIZE || read_u32(info, PROPERTY_COUNT_POS) == 0
        || !table_lies_within(info) {
        return true;
    }
    match flatten_table(info, is_32bit) {
        Some(Ok(properties)) => {
            let nothing: &[u8] = &[];
            assert(nothing@ =~= Seq::empty());
            !is_all_fixed(properties.as_slice()) || layout_fits(properties.as_slice(), nothing)
        },
        Some(Err(_)) => true,
        None => false,
    }
}

/// Information that ends before its header does, or before the property table
/// that the header announces, is malformed. Information that announces no
/// property has a schema without properties, whose format has no fields.
pub proof fn law_size_of_information_is_checked(info: Seq<u8>, is_32bit: bool, count: u32)
    ensures
        info.len() < 136 ==> schema_of(info, is_32bit) == Some(
            Err::<SchemaModel, TdhDecodeError>(
                TdhDecodeError::Malformed("buffer smaller than TRACE_EVENT_INFO"),
            ),
        ),
        136 <= info.len() < 136 + 24 * count && info.subrange(100, 104) == u32_bytes(count)
            ==> schema_of(info, is_32bit) == Some(
            Err::<SchemaModel, TdhDecodeError>(
                TdhDecodeError::Malformed("buffer too small for declared property count"),
            ),
        ),
        info.len() >= 136 && info.subrange(100, 104) == u32_bytes(0) ==> {
            &&& schema_of(info, is_32bit) matches Some(Ok(schema))
            &&& schema.event_name == event_name_of(info)
            &&& schema.properties.len() == 0
            &&& schema.fixed_format matches Some(fields)
            &&& fields.len() == 0
        },
{
    if info.len() >= 136 {
        if info.subrange(100, 104) == u32_bytes(count) {
            law_numbers_are_read_back(info, 100, 0, count);
        }
        if info.subrange(100, 104) == u32_bytes(0) {
            law_numbers_are_read_back(info, 100, 0, 0);
        }
    }
}

/// The header announces that many entries of the property table and that many
/// of them in no struct, and the table lies within the information.
pub open spec fn announces(info: Seq<u8>, count: u32, top_level: u32) -> bool {
    &&& 0 < count
    &&& 136 + 24 * count <= info.len()
    &&& info.subrange(100, 104) == u32_bytes(count)
    &&& info.subrange(104, 108) == u32_bytes(top_level)
}

/// The properties of the schema are all the leaves that a walk through the
/// entries in no struct comes by, whatever depth that takes, and the schema has
/// the name that the information holds. Where the walk stops, its error is that
/// of the schema. There is neither only where the offsets of a layout of fixed
/// sizes pass the range of a `usize`.
pub proof fn law_schema_is_what_the_walk_gives(
    info: Seq<u8>,
    is_32bit: bool,
    count: u32,
    top_level: u32,
    depth: nat,
    walk: Walk,
)
    requires
        announces(info, count, top_level),
        flatten(
            info,
            property_table(info),
            0,
            top_level as int,
            Seq::empty(),
            is_32bit,
            depth,
        ) == Some(walk),
    ensures
        ({
            let fixed = forall|i: int|
                0 <= i < walk.leaves.len() ==> (#[trigger] walk.leaves[i]).kind is Fixed;
            let fits = total_size(payload_layout(walk.leaves, Seq::empty())) <= usize::MAX;
            &&& walk.status matches Err(error) ==> schema_of(info, is_32bit) == Some(
                Err::<SchemaModel, TdhDecodeError>(error),
            )
            &&& walk.status is Ok && (fits || !fixed) ==> {
                &&& schema_of(info, is_32bit) matches Some(Ok(schema))
                &&& schema.event_name == event_name_of(info)
                &&& schema.properties == walk.leaves
            }
            &&& walk.status is Ok && fixed && !fits ==> schema_of(info, is_32bit) is None
        }),
{
    law_counts_are_read_back(info, count, top_level);
    law_flatten_depth_bounded_by_table(
        info,
        property_table(info),
        0,
        top_level as int,
        Seq::empty(),
        is_32bit,
        depth,
    );
    law_all_fixed_means_each(walk.leaves);
    law_layout_ends_with_total_size(walk.leaves, Seq::empty());
}

/// Where no walk through the table ends, however deep it may go, there is no
/// schema.
pub proof fn law_no_schema_where_no_walk_ends(
    info: Seq<u8>,
    is_32bit: bool,
    count: u32,
    top_level: u32,
)
    requires
        announces(info, count, top_level),
        forall|depth: nat| #[trigger]
            flatten(
                info,
                property_table(info),
                0,
                top_level as int,
                Seq::empty(),
                is_32bit,
                depth,
            ) is None,
    ensures
        schema_of(info, is_32bit) is None,
{
    law_counts_are_read_back(info, count, top_level);
}

/// A table whose entries in no struct are no structs themselves gives a schema
/// of exactly as many properties, one for each entry, in order, each with the
/// text at its own name offset for its name. Where the header announces more of
/// them than the table has entries, the information is malformed.
pub proof fn law_plain_table_is_listed_in_full(
    info: Seq<u8>,
    is_32bit: bool,
    count: u32,
    top_level: u32,
)
    requires
        announces(info, count, top_level),
        forall|i: int|
            0 <= i < top_level && i < count ==> (#[trigger] property_table(info)[i]).flags & 1i32
                == 0i32,
    ensures
        top_level > count ==> schema_of(info, is_32bit) == Some(
            Err::<SchemaModel, TdhDecodeError>(
                TdhDecodeError::Malformed("property index out of bounds"),
            ),
        ),
        top_level <= count && schema_of(info, is_32bit) is Some ==> {
            &&& schema_of(info, is_32bit) matches Some(Ok(schema))
            &&& schema.properties.len() == top_level
            &&& forall|i: int|
                0 <= i < top_level ==> #[trigger] schema.properties[i] == leaf(
                    property_table(info)[i],
                    text_at(info, property_table(info)[i].name_offset as int),
                    is_32bit,
                )
        },
{
    let table = property_table(info);
    law_counts_are_read_back(info, count, top_level);
    assert forall|i: int| 0 <= i < top_level && i < table.len() implies !is_struct(
        #[trigger] table[i],
    ) by {
        law_flags_are_single_bits(table[i]);
        assert(table[i].flags & 1i32 == 0i32);
    }
    if top_level > 0 {
        law_plain_properties_keep_their_order(
            info,
            table,
            0,
            top_level as int,
            Seq::empty(),
            is_32bit,
            table.len(),
        );
    }
}

/// A schema has a fixed format if and only if each of its properties has a fixed
/// size, and the format is the layout of every payload.
pub proof fn law_fixed_format_serves_every_payload(
    info: Seq<u8>,
    is_32bit: bool,
    schema: SchemaModel,
    data: Seq<u8>,
)
    requires
        schema_of(info, is_32bit) == Some(Ok::<SchemaModel, TdhDecodeError>(schema)),
    ensures
        (forall|i: int|
            0 <= i < schema.properties.len() ==> (#[trigger] schema.properties[i]).kind is Fixed)
            ==> schema.fixed_format == Some(payload_layout(schema.properties, data)),
        (exists|i: int|
            0 <= i < schema.properties.len() && !((#[trigger] schema.properties[i]).kind is Fixed))
            ==> schema.fixed_format is None,
{
    law_all_fixed_means_each(schema.properties);
    if all_fixed(schema.properties) {
        law_fixed_layout_ignores_payload(schema.properties, Seq::empty(), data);
    }
}

/// The pointer width of the event has a part only in the sizes: for both widths
/// the schema has the same name and properties of the same names and types.
pub proof fn law_width_has_a_part_only_in_sizes(
    info: Seq<u8>,
    narrow: SchemaModel,
    wide: SchemaModel,
    i: int,
)
    requires
        schema_of(info, true) == Some(Ok::<SchemaModel, TdhDecodeError>(narrow)),
        schema_of(info, false) == Some(Ok::<SchemaModel, TdhDecodeError>(wide)),
        0 <= i < narrow.properties.len(),
    ensures
        narrow.event_name == wide.event_name,
        narrow.properties.len() == wide.properties.len(),
        narrow.properties[i].name == wide.properties[i].name,
        narrow.properties[i].type_label == wide.properties[i].type_label,
        narrow.properties[i].kind == wide.properties[i].kind || (narrow.properties[i].type_label
            == "pointer"@ && narrow.properties[i].kind == PropertyKind::Fixed(4)
            && wide.properties[i].kind == PropertyKind::Fixed(8)),
{
    let table = property_table(info);
    law_width_changes_only_pointers(
        info,
        table,
        0,
        top_level_count(info),
        Seq::empty(),
        table.len(),
    );
}

} // verus!
