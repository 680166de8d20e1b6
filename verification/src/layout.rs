//! Where the fields of a payload begin and how long they are.

use vstd::prelude::*;
use vstd::slice::slice_subrange;

use crate::event::{EventField, EventFormat, FieldModel, LocationType};
use crate::info::{law_utf16_string_takes_its_units, unit_bytes};
use crate::intype::PropertyKind;
use crate::scan::{
    ansi_extent, counted_extent, law_ansi_string_takes_its_bytes,
    law_counted_string_takes_what_it_announces, law_cut_off_counted_string_takes_all,
    lemma_ansi_extent_bounds, lemma_counted_extent_bounds, lemma_utf16_extent_bounds,
    scan_ansi_string, scan_counted_string, scan_utf16_string, utf16_extent,
};
use crate::schema::{all_fixed, models, CachedProperty, PropertyModel};

verus! {

/// The bytes of the payload from `offset` on; none past its end.
pub open spec fn rest_from(data: Seq<u8>, offset: int) -> Seq<u8> {
    if offset < data.len() {
        data.skip(offset)
    } else {
        Seq::empty()
    }
}

/// How many bytes a field of the given kind takes that begins at `offset`.
pub open spec fn field_size(kind: PropertyKind, data: Seq<u8>, offset: int) -> int {
    let rest = rest_from(data, offset);
    match kind {
        PropertyKind::Fixed(size) => size as int,
        PropertyKind::AnsiString => ansi_extent(rest),
        PropertyKind::Utf16String => utf16_extent(rest),
        PropertyKind::CountedString => counted_extent(rest),
        PropertyKind::VariableBlob => rest.len() as int,
        PropertyKind::Unsupported => rest.len() as int,
    }
}

/// Where the `k`-th field begins: behind those before it. With the number of
/// properties for `k`, where the last field ends.
pub open spec fn field_start(properties: Seq<PropertyModel>, data: Seq<u8>, k: int) -> int
    decreases k,
{
    if k <= 0 {
        0
    } else {
        let before = field_start(properties, data, k - 1);
        before + field_size(properties[k - 1].kind, data, before)
    }
}

/// Where the last field ends.
pub open spec fn layout_end(properties: Seq<PropertyModel>, data: Seq<u8>) -> int {
    field_start(properties, data, properties.len() as int)
}

/// The `k`-th field of a payload.
pub open spec fn field_at(properties: Seq<PropertyModel>, data: Seq<u8>, k: int) -> FieldModel {
    let offset = field_start(properties, data, k);
    FieldModel {
        name: properties[k].name,
        type_label: properties[k].type_label,
        location: LocationType::Static,
        offset,
        size: field_size(properties[k].kind, data, offset),
    }
}

/// The fields of a payload: one for each property, each behind the other.
pub open spec fn payload_layout(properties: Seq<PropertyModel>, data: Seq<u8>) -> Seq<FieldModel> {
    Seq::new(properties.len(), |k: int| field_at(properties, data, k))
}

/// No field takes less than no bytes, and none of variable length passes the end
/// of the payload.
pub proof fn lemma_field_size_bounds(kind: PropertyKind, data: Seq<u8>, offset: int)
    requires
        0 <= offset,
    ensures
        0 <= field_size(kind, data, offset),
        !(kind is Fixed) ==> field_size(kind, data, offset) <= rest_from(data, offset).len(),
{
    let rest = rest_from(data, offset);
    lemma_ansi_extent_bounds(rest);
    lemma_utf16_extent_bounds(rest);
    lemma_counted_extent_bounds(rest);
}

/// Fields begin in the order of their properties.
pub proof fn lemma_field_start_ordered(
    properties: Seq<PropertyModel>,
    data: Seq<u8>,
    j: int,
    k: int,
)
    requires
        0 <= j <= k,
    ensures
        0 <= field_start(properties, data, j) <= field_start(properties, data, k),
    decreases k,
{
    if k > 0 {
        lemma_field_start_ordered(properties, data, 0, k - 1);
        let before = field_start(properties, data, k - 1);
        lemma_field_size_bounds(properties[k - 1].kind, data, before);
        if j < k {
            lemma_field_start_ordered(properties, data, j, k - 1);
        }
    }
}

/// Returns how many bytes a field of the given kind takes that begins at
/// `offset`.
fn measure_field(kind: &PropertyKind, user_data: &[u8], offset: usize) -> (size: usize)
    ensures
        size == field_size(*kind, user_data@, offset as int),
{
    let start: usize = if offset < user_data.len() { offset } else { user_data.len() };
    let rest = slice_subrange(user_data, start, user_data.len());
    assert(rest@ =~= rest_from(user_data@, offset as int));
    match kind {
        PropertyKind::Fixed(size) => *size,
        PropertyKind::AnsiString => scan_ansi_string(rest),
        PropertyKind::Utf16String => scan_utf16_string(rest),
        PropertyKind::CountedString => scan_counted_string(rest),
        PropertyKind::VariableBlob => rest.len(),
        PropertyKind::Unsupported => rest.len(),
    }
}

/// Lays the payload out: walks it property by property and gives each its field
/// with its offset in the payload. Offsets must fit in a `usize`.
pub fn build_event_format_with_data(properties: &[CachedProperty], user_data: &[u8]) -> (format:
    EventFormat)
    requires
        layout_end(models(properties@), user_data@) <= usize::MAX,
    ensures
        format@ == payload_layout(models(properties@), user_data@),
{
    let ghost wanted = models(properties@);
    let mut format = EventFormat::new();
    let mut offset: usize = 0;
    let mut k: usize = 0;
    while k < properties.len()
        invariant
            k <= properties@.len(),
            wanted == models(properties@),
            layout_end(wanted, user_data@) <= usize::MAX,
            offset == field_start(wanted, user_data@, k as int),
            format@ == payload_layout(wanted, user_data@).take(k as int),
        decreases properties@.len() - k,
    {
        let property = &properties[k];
        let size: usize = measure_field(&property.kind, user_data, offset);
        proof {
            lemma_field_start_ordered(wanted, user_data@, k + 1, properties@.len() as int);
        }
        format.add_field(
            EventField::new(
                property.name.clone(),
                property.type_label.to_string(),
                LocationType::Static,
                offset,
                size,
            ),
        );
        offset += size;
        k += 1;
        assert(format@ =~= payload_layout(wanted, user_data@).take(k as int));
    }
    assert(format@ =~= payload_layout(wanted, user_data@));
    format
}

/// Tells whether all offsets of the payload's layout fit in a `usize`.
pub fn layout_fits(properties: &[CachedProperty], user_data: &[u8]) -> (fits: bool)
    ensures
        fits == (layout_end(models(properties@), user_data@) <= usize::MAX),
{
    let ghost wanted = models(properties@);
    let mut offset: usize = 0;
    let mut k: usize = 0;
    while k < properties.len()
        invariant
            k <= properties@.len(),
            wanted == models(properties@),
            offset == field_start(wanted, user_data@, k as int),
        decreases properties@.len() - k,
    {
        let size: usize = measure_field(&properties[k].kind, user_data, offset);
        proof {
            lemma_field_start_ordered(wanted, user_data@, k + 1, properties@.len() as int);
        }
        match offset.checked_add(size) {
            Some(next) => {
                offset = next;
            },
            None => {
                return false;
            },
        }
        k += 1;
    }
    true
}

/// Fields follow one another without gaps: the first begins with the payload,
/// and each of the others where the one before it ends.
pub proof fn law_fields_are_contiguous(properties: Seq<PropertyModel>, data: Seq<u8>)
    ensures
        payload_layout(properties, data).len() == properties.len(),
        properties.len() > 0 ==> payload_layout(properties, data)[0].offset == 0,
        forall|k: int|
            0 <= k < properties.len() - 1 ==> (#[trigger] payload_layout(properties, data)[k]).offset
                + payload_layout(properties, data)[k].size == payload_layout(properties, data)[k
                + 1].offset,
        properties.len() > 0 ==> payload_layout(properties, data).last().offset + payload_layout(
            properties,
            data,
        ).last().size == layout_end(properties, data),
{
}

/// Where every property has a fixed size the layout is the same for all
/// payloads, so one computed once serves each event.
pub proof fn law_fixed_layout_ignores_payload(
    properties: Seq<PropertyModel>,
    data: Seq<u8>,
    other: Seq<u8>,
)
    requires
        all_fixed(properties),
    ensures
        payload_layout(properties, data) == payload_layout(properties, other),
        layout_end(properties, data) == layout_end(properties, other),
{
    assert forall|k: int| 0 <= k <= properties.len() implies field_start(properties, data, k)
        == #[trigger] field_start(properties, other, k) by {
        lemma_fixed_start_ignores_payload(properties, data, other, k);
    }
    assert(payload_layout(properties, data) =~= payload_layout(properties, other));
}

/// Where every property has a fixed size the fields of all payloads begin at the
/// same offsets.
proof fn lemma_fixed_start_ignores_payload(
    properties: Seq<PropertyModel>,
    data: Seq<u8>,
    other: Seq<u8>,
    k: int,
)
    requires
        all_fixed(properties),
        0 <= k <= properties.len(),
    ensures
        field_start(properties, data, k) == field_start(properties, other, k),
    decreases k,
{
    if k > 0 {
        lemma_fixed_start_ignores_payload(properties, data, other, k - 1);
        assert(properties[k - 1].kind is Fixed);
    }
}

/// A field of variable length that begins within the payload ends within it.
pub proof fn law_variable_field_stays_inside(
    properties: Seq<PropertyModel>,
    data: Seq<u8>,
    k: int,
)
    requires
        0 <= k < properties.len(),
        !(properties[k].kind is Fixed),
        payload_layout(properties, data)[k].offset <= data.len(),
    ensures
        payload_layout(properties, data)[k].offset + payload_layout(properties, data)[k].size
            <= data.len(),
{
    lemma_field_start_ordered(properties, data, 0, k);
    lemma_field_size_bounds(properties[k].kind, data, field_start(properties, data, k));
}

/// A blob, and the placeholder of an array without a length, takes all that is
/// left of the payload: fields of variable length behind it are empty.
pub proof fn law_blob_takes_rest(
    properties: Seq<PropertyModel>,
    data: Seq<u8>,
    k: int,
    later: int,
)
    requires
        0 <= k < later < properties.len(),
        properties[k].kind is VariableBlob || properties[k].kind is Unsupported,
        !(properties[later].kind is Fixed),
    ensures
        payload_layout(properties, data)[k].offset + payload_layout(properties, data)[k].size
            >= data.len(),
        payload_layout(properties, data)[later].size == 0,
{
    lemma_field_start_ordered(properties, data, 0, k);
    lemma_field_start_ordered(properties, data, k + 1, later);
    lemma_field_size_bounds(properties[later].kind, data, field_start(properties, data, later));
}

/// How many bytes the fields take together.
pub open spec fn total_size(fields: Seq<FieldModel>) -> int
    decreases fields.len(),
{
    if fields.len() == 0 {
        0
    } else {
        total_size(fields.drop_last()) + fields.last().size
    }
}

/// The fields, each by `by` bytes further back and otherwise the same.
pub open spec fn shifted(fields: Seq<FieldModel>, by: int) -> Seq<FieldModel> {
    fields.map_values(|field: FieldModel| FieldModel { offset: field.offset + by, ..field })
}

/// The last field ends where the sizes of all fields add up to.
pub proof fn law_layout_ends_with_total_size(properties: Seq<PropertyModel>, data: Seq<u8>)
    ensures
        total_size(payload_layout(properties, data)) == layout_end(properties, data),
{
    let fields = payload_layout(properties, data);
    lemma_total_size_of_first(properties, data, properties.len() as int);
    assert(fields.take(properties.len() as int) =~= fields);
}

/// The sizes of the fields before the `k`-th add up to where it begins.
proof fn lemma_total_size_of_first(properties: Seq<PropertyModel>, data: Seq<u8>, k: int)
    requires
        0 <= k <= properties.len(),
    ensures
        total_size(payload_layout(properties, data).take(k)) == field_start(properties, data, k),
    decreases k,
{
    let fields = payload_layout(properties, data);
    if k > 0 {
        lemma_total_size_of_first(properties, data, k - 1);
        assert(fields.take(k).drop_last() =~= fields.take(k - 1));
    }
}

/// The layout of a joined list of properties is the layout of the first part,
/// and behind it that of the second part on what the first leaves of the
/// payload, by as much further back as the first takes. So later properties do
/// not alter earlier fields, and what stands before a field matters only by its
/// total size.
pub proof fn law_joined_layout_is_made_of_its_parts(
    front: Seq<PropertyModel>,
    back: Seq<PropertyModel>,
    data: Seq<u8>,
)
    ensures
        ({
            let end = total_size(payload_layout(front, data));
            payload_layout(front + back, data) == payload_layout(front, data) + shifted(
                payload_layout(back, rest_from(data, end)),
                end,
            )
        }),
        layout_end(front + back, data) == layout_end(front, data) + layout_end(
            back,
            rest_from(data, layout_end(front, data)),
        ),
{
    law_layout_ends_with_total_size(front, data);
    let end = layout_end(front, data);
    let rest = rest_from(data, end);
    let joined = front + back;
    let parts = payload_layout(front, data) + shifted(payload_layout(back, rest), end);
    assert forall|k: int| 0 <= k < joined.len() implies payload_layout(joined, data)[k]
        == parts[k] by {
        if k < front.len() {
            lemma_front_start(front, back, data, k);
        } else {
            let j = k - front.len();
            lemma_back_start(front, back, data, j);
            lemma_field_start_ordered(front, data, 0, front.len() as int);
            lemma_field_start_ordered(back, rest, 0, j);
            lemma_rest_of_rest(data, end, field_start(back, rest, j));
        }
    }
    assert(payload_layout(joined, data) =~= parts);
    lemma_back_start(front, back, data, back.len() as int);
}

/// What is left of what is left.
proof fn lemma_rest_of_rest(data: Seq<u8>, first: int, then_by: int)
    requires
        0 <= first,
        0 <= then_by,
    ensures
        rest_from(data, first + then_by) == rest_from(rest_from(data, first), then_by),
{
    assert(rest_from(data, first + then_by) =~= rest_from(rest_from(data, first), then_by));
}

/// The fields of the first part begin where they do without the second.
proof fn lemma_front_start(
    front: Seq<PropertyModel>,
    back: Seq<PropertyModel>,
    data: Seq<u8>,
    k: int,
)
    requires
        0 <= k <= front.len(),
    ensures
        field_start(front + back, data, k) == field_start(front, data, k),
    decreases k,
{
    if k > 0 {
        lemma_front_start(front, back, data, k - 1);
        assert((front + back)[k - 1] == front[k - 1]);
    }
}

/// The fields of the second part begin where they do on the rest of the payload,
/// by as much further back as the first part takes.
proof fn lemma_back_start(
    front: Seq<PropertyModel>,
    back: Seq<PropertyModel>,
    data: Seq<u8>,
    k: int,
)
    requires
        0 <= k <= back.len(),
    ensures
        field_start(front + back, data, front.len() + k) == layout_end(front, data) + field_start(
            back,
            rest_from(data, layout_end(front, data)),
            k,
        ),
    decreases k,
{
    let end = layout_end(front, data);
    let rest = rest_from(data, end);
    if k == 0 {
        lemma_front_start(front, back, data, front.len() as int);
    } else {
        lemma_back_start(front, back, data, k - 1);
        lemma_field_start_ordered(front, data, 0, front.len() as int);
        lemma_field_start_ordered(back, rest, 0, k - 1);
        lemma_rest_of_rest(data, end, field_start(back, rest, k - 1));
        assert((front + back)[front.len() + k - 1] == back[k - 1]);
    }
}

/// A field has the name and the type name of its property, in full, and stands
/// at its offset in the payload.
pub proof fn law_field_carries_its_property(properties: Seq<PropertyModel>, data: Seq<u8>, k: int)
    requires
        0 <= k < properties.len(),
    ensures
        payload_layout(properties, data)[k].name == properties[k].name,
        payload_layout(properties, data)[k].type_label == properties[k].type_label,
        payload_layout(properties, data)[k].location == LocationType::Static,
{
}

/// In every layout the field of a property of fixed size has that size, for
/// every size, wherever it stands and whatever the payload.
pub proof fn law_fixed_field_has_its_size(
    properties: Seq<PropertyModel>,
    data: Seq<u8>,
    k: int,
    size: usize,
)
    requires
        0 <= k < properties.len(),
        properties[k].kind == PropertyKind::Fixed(size),
    ensures
        payload_layout(properties, data)[k].size == size,
{
}

/// The sum of the first `k` numbers.
pub open spec fn sum_of_first(sizes: Seq<usize>, k: int) -> int
    decreases k,
{
    if k <= 0 {
        0
    } else {
        sum_of_first(sizes, k - 1) + sizes[k - 1]
    }
}

/// Behind properties of fixed sizes a field begins where those sizes add up to,
/// whatever the payload.
pub proof fn law_fixed_sizes_add_up(
    properties: Seq<PropertyModel>,
    data: Seq<u8>,
    sizes: Seq<usize>,
    k: int,
)
    requires
        0 <= k < properties.len(),
        k <= sizes.len(),
        forall|i: int| 0 <= i < k ==> (#[trigger] properties[i]).kind == PropertyKind::Fixed(sizes[i]),
    ensures
        payload_layout(properties, data)[k].offset == sum_of_first(sizes, k),
    decreases k,
{
    if k > 0 {
        law_fixed_sizes_add_up(properties, data, sizes, k - 1);
        law_fixed_field_has_its_size(properties, data, k - 1, sizes[k - 1]);
        law_fields_are_contiguous(properties, data);
        assert(payload_layout(properties, data)[k - 1].offset + payload_layout(properties, data)[k
            - 1].size == payload_layout(properties, data)[k].offset);
    }
}

/// The field of an ANSI string takes the bytes of the string and its terminator,
/// whatever its length and whatever stands before and behind it. Without a
/// terminator it takes what is left.
pub proof fn law_ansi_field_takes_its_string(
    properties: Seq<PropertyModel>,
    k: int,
    before: Seq<u8>,
    text: Seq<u8>,
    tail: Seq<u8>,
)
    requires
        0 <= k < properties.len(),
        properties[k].kind == PropertyKind::AnsiString,
        forall|i: int| 0 <= i < text.len() ==> text[i] != 0,
    ensures
        payload_layout(properties, before + text + seq![0u8] + tail)[k].offset == before.len()
            ==> payload_layout(properties, before + text + seq![0u8] + tail)[k].size == text.len()
            + 1,
        payload_layout(properties, before + text)[k].offset == before.len() ==> payload_layout(
            properties,
            before + text,
        )[k].size == text.len(),
{
    law_ansi_string_takes_its_bytes(text, tail);
    let whole = before + text + seq![0u8] + tail;
    assert(rest_from(whole, before.len() as int) =~= text + seq![0u8] + tail);
    assert(rest_from(before + text, before.len() as int) =~= text);
}

/// The field of a UTF-16 string takes two bytes for each code unit and two for
/// the terminator, whatever stands before and behind it. Without a terminator it
/// takes what is left.
pub proof fn law_utf16_field_takes_its_string(
    properties: Seq<PropertyModel>,
    k: int,
    before: Seq<u8>,
    units: Seq<u16>,
    tail: Seq<u8>,
    half: Seq<u8>,
)
    requires
        0 <= k < properties.len(),
        properties[k].kind == PropertyKind::Utf16String,
        forall|i: int| 0 <= i < units.len() ==> units[i] != 0,
        half.len() <= 1,
    ensures
        payload_layout(properties, before + unit_bytes(units) + seq![0u8, 0u8] + tail)[k].offset
            == before.len() ==> payload_layout(
            properties,
            before + unit_bytes(units) + seq![0u8, 0u8] + tail,
        )[k].size == 2 * units.len() + 2,
        payload_layout(properties, before + unit_bytes(units) + half)[k].offset == before.len()
            ==> payload_layout(properties, before + unit_bytes(units) + half)[k].size == 2
            * units.len() + half.len(),
{
    law_utf16_string_takes_its_units(units, tail, half);
    let whole = before + unit_bytes(units) + seq![0u8, 0u8] + tail;
    let open_ended = before + unit_bytes(units) + half;
    assert(rest_from(whole, before.len() as int) =~= unit_bytes(units) + seq![0u8, 0u8] + tail);
    assert(rest_from(open_ended, before.len() as int) =~= unit_bytes(units) + half);
}

/// The field of a counted string takes its two length bytes and as many bytes as
/// they announce, whatever stands before and behind it. Where it is cut off it
/// takes what is left.
pub proof fn law_counted_field_takes_its_string(
    properties: Seq<PropertyModel>,
    k: int,
    before: Seq<u8>,
    n: u16,
    text: Seq<u8>,
    tail: Seq<u8>,
)
    requires
        0 <= k < properties.len(),
        properties[k].kind == PropertyKind::CountedString,
        text.len() <= n,
        text.len() < n ==> tail.len() == 0,
    ensures
        ({
            let data = before + seq![(n % 256) as u8, (n / 256) as u8] + text + tail;
            payload_layout(properties, data)[k].offset == before.len() ==> payload_layout(
                properties,
                data,
            )[k].size == 2 + text.len()
        }),
{
    let head = seq![(n % 256) as u8, (n / 256) as u8];
    let data = before + head + text + tail;
    assert(rest_from(data, before.len() as int) =~= head + text + tail);
    if text.len() == n {
        law_counted_string_takes_what_it_announces(n, text, tail);
    } else {
        law_cut_off_counted_string_takes_all(n, text, Seq::empty());
        assert(head + text + tail =~= head + text);
    }
}

/// A blob, and a placeholder without a length, ends where the payload does. A
/// field of variable length that begins there or behind it is empty. A counted
/// string takes the last byte where its length would need two.
pub proof fn law_rest_is_what_is_left(properties: Seq<PropertyModel>, data: Seq<u8>, k: int)
    requires
        0 <= k < properties.len(),
        !(properties[k].kind is Fixed),
    ensures
        payload_layout(properties, data)[k].offset >= data.len() ==> payload_layout(
            properties,
            data,
        )[k].size == 0,
        payload_layout(properties, data)[k].offset <= data.len() && (properties[k].kind
            is VariableBlob || properties[k].kind is Unsupported) ==> payload_layout(
            properties,
            data,
        )[k].offset + payload_layout(properties, data)[k].size == data.len(),
        payload_layout(properties, data)[k].offset == data.len() - 1 && properties[k].kind
            is CountedString ==> payload_layout(properties, data)[k].size == 1,
{
    lemma_field_start_ordered(properties, data, 0, k);
    lemma_field_size_bounds(properties[k].kind, data, field_start(properties, data, k));
}

} // verus!
