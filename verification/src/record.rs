//! Event records, as far as decoding reads them.

use vstd::prelude::*;

use crate::error::TdhDecodeError;

verus! {

/// Flag of an event that was written with 32-bit pointers.
pub const EVENT_HEADER_FLAG_32_BIT_HEADER: u16 = 0x0020;

/// Type of the extended-data item that holds an event's schema.
pub const EVENT_HEADER_EXT_TYPE_EVENT_SCHEMA_TL: u16 = 11;

/// An extended-data item of an event.
#[derive(Clone, Copy, Debug)]
pub struct ExtendedDataItem<'a> {
    /// Type of the item.
    pub ext_type: u16,
    /// Bytes of the item; `None` where it refers to none.
    pub data: Option<&'a [u8]>,
}

/// An event as it was traced.
#[derive(Debug)]
pub struct EventRecord<'a> {
    /// Flags of the event's header.
    pub flags: u16,
    /// The payload; `None` where the record refers to none.
    pub user_data: Option<&'a [u8]>,
    /// The extended data; `None` where the record refers to none.
    pub extended_data: Option<Vec<ExtendedDataItem<'a>>>,
}

/// The event was written with 32-bit pointers.
pub open spec fn has_32bit_pointers(record: EventRecord) -> bool {
    record.flags & EVENT_HEADER_FLAG_32_BIT_HEADER != 0
}

/// The payload of an event.
pub open spec fn payload_of(record: EventRecord) -> Seq<u8> {
    match record.user_data {
        Some(data) => data@,
        None => Seq::empty(),
    }
}

/// The item holds a schema.
pub open spec fn is_schema_item(item: ExtendedDataItem) -> bool {
    &&& item.ext_type == EVENT_HEADER_EXT_TYPE_EVENT_SCHEMA_TL
    &&& item.data matches Some(data) && data@.len() > 0
}

/// The `n`-th item is the first that holds a schema.
pub open spec fn is_first_schema_item(items: Seq<ExtendedDataItem>, n: int) -> bool {
    &&& 0 <= n < items.len()
    &&& is_schema_item(items[n])
    &&& forall|i: int| 0 <= i < n ==> !is_schema_item(#[trigger] items[i])
}

/// The bytes of the first schema item among `items`.
pub open spec fn first_schema_bytes(items: Seq<ExtendedDataItem>) -> Option<Seq<u8>> {
    if exists|n: int| is_first_schema_item(items, n) {
        let n = choose|n: int| is_first_schema_item(items, n);
        Some(items[n].data->0@)
    } else {
        None
    }
}

/// The key of the event's schema: the bytes of its first schema item.
pub open spec fn schema_key(record: EventRecord) -> Option<Seq<u8>> {
    match record.extended_data {
        Some(items) => first_schema_bytes(items@),
        None => None,
    }
}

/// Tells whether the event was written with 32-bit pointers.
pub fn is_32bit_event(record: &EventRecord) -> (is_32bit: bool)
    ensures
        is_32bit == has_32bit_pointers(*record),
{
    record.flags & EVENT_HEADER_FLAG_32_BIT_HEADER != 0
}

/// The payload of an event.
pub fn event_user_data<'a>(record: &EventRecord<'a>) -> (data: &'a [u8])
    ensures
        data@ == payload_of(*record),
{
    match record.user_data {
        Some(data) => data,
        None => {
            let nothing: &'a [u8] = &[];
            assert(nothing@ =~= Seq::empty());
            nothing
        },
    }
}

/// Finds the bytes of the event's first schema item.
pub fn find_schema_tl<'a>(record: &EventRecord<'a>) -> (found: Result<&'a [u8], TdhDecodeError>)
    ensures
        match schema_key(*record) {
            Some(key) => found matches Ok(bytes) && bytes@ == key,
            None => found matches Err(error) && error is NotFound,
        },
{
    let items = match &record.extended_data {
        Some(items) => items,
        None => {
            return Err(TdhDecodeError::NotFound);
        },
    };
    let mut i: usize = 0;
    while i < items.len()
        invariant
            i <= items@.len(),
            record.extended_data == Some(*items),
            forall|n: int| 0 <= n < i ==> !is_schema_item(#[trigger] items@[n]),
        decreases items@.len() - i,
    {
        if items[i].ext_type == EVENT_HEADER_EXT_TYPE_EVENT_SCHEMA_TL {
            if let Some(data) = items[i].data {
                if data.len() > 0 {
                    assert(is_first_schema_item(items@, i as int));
                    return Ok(data);
                }
            }
        }
        i += 1;
    }
    Err(TdhDecodeError::NotFound)
}

/// The pointer width is bit 5 of the flags, and the other flags have no part in
/// it: setting or clearing them changes nothing, and bit 5 alone decides.
pub proof fn law_pointer_width_is_bit_five(record: EventRecord, other: EventRecord, flags: u16)
    ensures
        has_32bit_pointers(record) == ((record.flags >> 5u16) & 1u16 == 1u16),
        (record.flags >> 5u16) & 1u16 == (other.flags >> 5u16) & 1u16 ==> has_32bit_pointers(record)
            == has_32bit_pointers(other),
        record.flags == flags | 0x20u16 ==> has_32bit_pointers(record),
        record.flags == flags & !0x20u16 ==> !has_32bit_pointers(record),
{
    let own = record.flags;
    let others = other.flags;
    assert((own & 0x20u16 != 0) == ((own >> 5u16) & 1u16 == 1u16)) by (bit_vector);
    assert((others & 0x20u16 != 0) == ((others >> 5u16) & 1u16 == 1u16)) by (bit_vector);
    assert((own >> 5u16) & 1u16 < 2 && (others >> 5u16) & 1u16 < 2) by (bit_vector);
    assert((flags | 0x20u16) & 0x20u16 != 0) by (bit_vector);
    assert((flags & !0x20u16) & 0x20u16 == 0) by (bit_vector);
}

/// The payload is all of what the record refers to, byte by byte, and nothing
/// where it refers to nothing.
pub proof fn law_payload_is_whole(record: EventRecord)
    ensures
        record.user_data matches Some(data) ==> payload_of(record).len() == data@.len() && (
        forall|i: int| 0 <= i < data@.len() ==> payload_of(record)[i] == data@[i]),
        record.user_data is None ==> payload_of(record).len() == 0,
{
}

/// An item does not hold a schema: it has another type, or no bytes.
spec fn holds_no_schema(item: ExtendedDataItem) -> bool {
    ||| item.ext_type != 11
    ||| item.data is None
    ||| item.data->0@.len() == 0
}

/// The key of an event is the whole content of its first schema item, wherever
/// that stands among the items: as long, and the same byte by byte.
pub proof fn law_key_is_the_whole_first_schema_item(record: EventRecord, n: int)
    requires
        record.extended_data matches Some(items) && {
            &&& 0 <= n < items@.len()
            &&& items@[n].ext_type == 11
            &&& items@[n].data matches Some(data) && data@.len() > 0
            &&& forall|i: int|
                0 <= i < n ==> (#[trigger] items@[i]).ext_type != 11 || items@[i].data is None
                    || items@[i].data->0@.len() == 0
        },
    ensures
        schema_key(record) matches Some(key) && {
            &&& key.len() == record.extended_data->0@[n].data->0@.len()
            &&& forall|i: int|
                0 <= i < key.len() ==> key[i] == record.extended_data->0@[n].data->0@[i]
        },
{
    let items = record.extended_data->0@;
    assert forall|i: int| 0 <= i < n implies !is_schema_item(#[trigger] items[i]) by {
        assert(holds_no_schema(items[i]));
    }
    assert(is_first_schema_item(items, n));
    let found = choose|m: int| is_first_schema_item(items, m);
    assert(is_first_schema_item(items, found));
    if found < n {
        assert(!is_schema_item(items[found]));
    } else if n < found {
        assert(!is_schema_item(items[n]));
    }
}

/// Two events whose first schema items differ, in any byte or in length, have
/// different keys.
pub proof fn law_different_schema_items_give_different_keys(
    record: EventRecord,
    n: int,
    other: EventRecord,
    m: int,
)
    requires
        record.extended_data matches Some(items) && {
            &&& 0 <= n < items@.len()
            &&& items@[n].ext_type == 11
            &&& items@[n].data matches Some(data) && data@.len() > 0
            &&& forall|i: int|
                0 <= i < n ==> (#[trigger] items@[i]).ext_type != 11 || items@[i].data is None
                    || items@[i].data->0@.len() == 0
        },
        other.extended_data matches Some(items) && {
            &&& 0 <= m < items@.len()
            &&& items@[m].ext_type == 11
            &&& items@[m].data matches Some(data) && data@.len() > 0
            &&& forall|i: int|
                0 <= i < m ==> (#[trigger] items@[i]).ext_type != 11 || items@[i].data is None
                    || items@[i].data->0@.len() == 0
        },
        record.extended_data->0@[n].data->0@ != other.extended_data->0@[m].data->0@,
    ensures
        schema_key(record) != schema_key(other),
{
    law_key_is_the_whole_first_schema_item(record, n);
    law_key_is_the_whole_first_schema_item(other, m);
    assert(schema_key(record)->0 =~= record.extended_data->0@[n].data->0@);
    assert(schema_key(other)->0 =~= other.extended_data->0@[m].data->0@);
}

/// An event has no key where none of its items holds a schema.
pub proof fn law_no_key_without_schema_item(record: EventRecord)
    requires
        record.extended_data matches Some(items) ==> forall|i: int|
            0 <= i < items@.len() ==> (#[trigger] items@[i]).ext_type != 11 || items@[i].data is None
                || items@[i].data->0@.len() == 0,
    ensures
        schema_key(record) is None,
{
    if let Some(list) = record.extended_data {
        let items = list@;
        assert forall|n: int| !is_first_schema_item(items, n) by {
            if is_first_schema_item(items, n) {
                assert(holds_no_schema(items[n]));
            }
        }
    }
}

} // verus!
