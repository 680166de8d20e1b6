//! Whole events: from records and event information to fields.

use tdh_decoder::cache::SchemaLayoutCache;
use tdh_decoder::decoder::{Information, TdhDecoder};
use tdh_decoder::error::TdhDecodeError;
use tdh_decoder::extract::{build_cached_schema, can_build_schema};
use tdh_decoder::info::{EVENT_PROPERTY_INFO_SIZE, TRACE_EVENT_INFO_SIZE};
use tdh_decoder::intype::{
    PropertyKind, PROPERTY_HAS_COUNT, PROPERTY_HAS_LENGTH, PROPERTY_PARAM_LENGTH, PROPERTY_STRUCT,
    TDH_INTYPE_ANSISTRING, TDH_INTYPE_BINARY, TDH_INTYPE_COUNTEDSTRING, TDH_INTYPE_INT32,
    TDH_INTYPE_POINTER, TDH_INTYPE_SID, TDH_INTYPE_UINT16, TDH_INTYPE_UINT32, TDH_INTYPE_UINT64,
    TDH_INTYPE_UNICODESTRING,
};
use tdh_decoder::layout::build_event_format_with_data;
use tdh_decoder::query::{accept_information, words_for_information, ERROR_INSUFFICIENT_BUFFER};
use tdh_decoder::record::{
    event_user_data, find_schema_tl, EventRecord, ExtendedDataItem,
    EVENT_HEADER_EXT_TYPE_EVENT_SCHEMA_TL, EVENT_HEADER_FLAG_32_BIT_HEADER,
};
use tdh_decoder::schema::{CachedProperty, CachedSchema};

struct Entry {
    flags: i32,
    name: &'static str,
    first: u16,
    second: u16,
    count: u16,
    length: u16,
}

fn typed(name: &'static str, in_type: i32) -> Entry {
    Entry { flags: 0, name, first: in_type as u16, second: 0, count: 0, length: 0 }
}

fn structure(name: &'static str, start: u16, members: u16) -> Entry {
    Entry { flags: PROPERTY_STRUCT, name, first: start, second: members, count: 0, length: 0 }
}

fn put_u16(bytes: &mut [u8], at: usize, value: u16) {
    bytes[at..at + 2].copy_from_slice(&value.to_le_bytes());
}

fn put_u32(bytes: &mut [u8], at: usize, value: u32) {
    bytes[at..at + 4].copy_from_slice(&value.to_le_bytes());
}

fn put_text(bytes: &mut Vec<u8>, text: &str) -> u32 {
    let at = bytes.len() as u32;
    for unit in text.encode_utf16() {
        bytes.extend_from_slice(&unit.to_le_bytes());
    }
    bytes.extend_from_slice(&[0, 0]);
    at
}

fn information(event_name: &str, top_level: u32, entries: &[Entry]) -> Vec<u8> {
    let mut bytes = vec![0u8; TRACE_EVENT_INFO_SIZE + EVENT_PROPERTY_INFO_SIZE * entries.len()];
    put_u32(&mut bytes, 100, entries.len() as u32);
    put_u32(&mut bytes, 104, top_level);
    if !event_name.is_empty() {
        let at = put_text(&mut bytes, event_name);
        put_u32(&mut bytes, 92, at);
    }
    for (i, entry) in entries.iter().enumerate() {
        let name_at = put_text(&mut bytes, entry.name);
        let at = TRACE_EVENT_INFO_SIZE + EVENT_PROPERTY_INFO_SIZE * i;
        put_u32(&mut bytes, at, entry.flags as u32);
        put_u32(&mut bytes, at + 4, name_at);
        put_u16(&mut bytes, at + 8, entry.first);
        put_u16(&mut bytes, at + 10, entry.second);
        put_u16(&mut bytes, at + 16, entry.count);
        put_u16(&mut bytes, at + 18, entry.length);
    }
    bytes
}

fn reply(bytes: &[u8]) -> Information {
    let mut words = Vec::new();
    for chunk in bytes.chunks(8) {
        let mut word = [0u8; 8];
        word[..chunk.len()].copy_from_slice(chunk);
        words.push(u64::from_le_bytes(word));
    }
    Some(accept_information(0, words, bytes.len() as u32))
}

fn record<'a>(key: &'a [u8], flags: u16, user_data: &'a [u8]) -> EventRecord<'a> {
    EventRecord {
        flags,
        user_data: Some(user_data),
        extended_data: Some(vec![ExtendedDataItem {
            ext_type: EVENT_HEADER_EXT_TYPE_EVENT_SCHEMA_TL,
            data: Some(key),
        }]),
    }
}

fn leaves(schema: &CachedSchema) -> Vec<(&str, &'static str, PropertyKind)> {
    schema.properties.iter().map(|p| (p.name.as_str(), p.type_label, p.kind)).collect()
}

fn fields(
    decoder: &mut TdhDecoder,
    record: &EventRecord,
    information: Information,
) -> Vec<(String, String, usize, usize)> {
    assert!(decoder.can_decode(record, &information));
    let event = decoder.decode(record, information).unwrap();
    assert_eq!(event.full_data, event.event_data);
    event
        .format
        .fields()
        .iter()
        .map(|f| (f.name.clone(), f.type_label.clone(), f.offset, f.size))
        .collect()
}

fn field(name: &str, label: &str, offset: usize, size: usize) -> (String, String, usize, usize) {
    (name.to_string(), label.to_string(), offset, size)
}

#[test]
fn variable_fields_shift_the_ones_behind_them() {
    let info = information(
        "Started",
        4,
        &[
            typed("id", TDH_INTYPE_UINT32),
            typed("path", TDH_INTYPE_UNICODESTRING),
            typed("tag", TDH_INTYPE_ANSISTRING),
            typed("code", TDH_INTYPE_UINT16),
        ],
    );
    let mut decoder = TdhDecoder::new();
    let payload = [1, 0, 0, 0, b'A', 0, 0, 0, b'x', b'y', 0, 7, 0];
    let got = fields(&mut decoder, &record(b"k", 0, &payload), reply(&info));
    assert_eq!(
        got,
        vec![
            field("id", "u32", 0, 4),
            field("path", "wstring", 4, 4),
            field("tag", "string", 8, 3),
            field("code", "u16", 11, 2),
        ]
    );
    let shorter = [1, 0, 0, 0, 0, 0, 0, 7, 0];
    let got = fields(&mut decoder, &record(b"k", 0, &shorter), None);
    assert_eq!(got[1], field("path", "wstring", 4, 2));
    assert_eq!(got[2], field("tag", "string", 6, 1));
    assert_eq!(got[3], field("code", "u16", 7, 2));
}

#[test]
fn schema_is_queried_for_once() {
    let info = information("Once", 1, &[typed("n", TDH_INTYPE_UINT64)]);
    let mut decoder = TdhDecoder::default();
    let first = record(b"key", 0, &[0; 8]);
    assert!(matches!(decoder.needs_information(&first), Ok(true)));
    assert_eq!(decoder.event_name(&first), None);
    assert!(!decoder.can_decode(&first, &None));
    assert_eq!(fields(&mut decoder, &first, reply(&info)), vec![field("n", "u64", 0, 8)]);
    assert!(matches!(decoder.needs_information(&first), Ok(false)));
    assert_eq!(decoder.event_name(&first), Some("Once"));
    // A later reply is not looked at.
    let failed = Some(Err(TdhDecodeError::Win32(5)));
    assert_eq!(fields(&mut decoder, &first, failed), vec![field("n", "u64", 0, 8)]);
}

#[test]
fn pointer_widths_have_their_own_schemas() {
    let info = information("P", 1, &[typed("p", TDH_INTYPE_POINTER)]);
    let mut decoder = TdhDecoder::new();
    let wide = record(b"key", 0, &[0; 8]);
    let narrow = record(b"key", EVENT_HEADER_FLAG_32_BIT_HEADER, &[0; 4]);
    assert_eq!(fields(&mut decoder, &wide, reply(&info)), vec![field("p", "pointer", 0, 8)]);
    assert!(matches!(decoder.needs_information(&narrow), Ok(true)));
    assert_eq!(fields(&mut decoder, &narrow, reply(&info)), vec![field("p", "pointer", 0, 4)]);
    assert_eq!(fields(&mut decoder, &wide, None), vec![field("p", "pointer", 0, 8)]);
}

#[test]
fn failures_are_not_cached() {
    let mut decoder = TdhDecoder::new();
    let event = record(b"key", 0, &[]);
    let refused = decoder.decode(&event, Some(Err(TdhDecodeError::Win32(1168))));
    assert!(matches!(refused, Err(TdhDecodeError::Win32(1168))));
    assert!(matches!(decoder.needs_information(&event), Ok(true)));
    let refused = decoder.decode(&event, reply(&[0; 135]));
    assert!(matches!(
        refused,
        Err(TdhDecodeError::Malformed("buffer smaller than TRACE_EVENT_INFO"))
    ));
    assert!(matches!(decoder.needs_information(&event), Ok(true)));
    assert_eq!(fields(&mut decoder, &event, reply(&[0; 136])), vec![]);
    assert_eq!(decoder.event_name(&event), None);
}

#[test]
fn event_without_schema_item_is_not_found() {
    let mut decoder = TdhDecoder::new();
    let bare = EventRecord { flags: 0, user_data: None, extended_data: None };
    assert!(matches!(decoder.needs_information(&bare), Err(TdhDecodeError::NotFound)));
    assert!(decoder.can_decode(&bare, &None));
    assert!(matches!(decoder.decode(&bare, None), Err(TdhDecodeError::NotFound)));
    assert_eq!(decoder.event_name(&bare), None);
    assert_eq!(event_user_data(&bare), &[] as &[u8]);
    let none = EventRecord { flags: 0, user_data: None, extended_data: Some(vec![]) };
    assert!(matches!(find_schema_tl(&none), Err(TdhDecodeError::NotFound)));
}

#[test]
fn first_schema_item_with_bytes_counts() {
    let schema = EVENT_HEADER_EXT_TYPE_EVENT_SCHEMA_TL;
    let event = EventRecord {
        flags: 0,
        user_data: Some(&[9, 8]),
        extended_data: Some(vec![
            ExtendedDataItem { ext_type: 1, data: Some(b"other") },
            ExtendedDataItem { ext_type: schema, data: None },
            ExtendedDataItem { ext_type: schema, data: Some(b"") },
            ExtendedDataItem { ext_type: schema, data: Some(b"first") },
            ExtendedDataItem { ext_type: schema, data: Some(b"second") },
        ]),
    };
    assert_eq!(find_schema_tl(&event).unwrap(), b"first");
    assert_eq!(event_user_data(&event), &[9, 8]);
}

#[test]
fn structs_are_flattened_in_place() {
    let info = information(
        "Nested",
        3,
        &[
            typed("before", TDH_INTYPE_UINT32),
            structure("PartA", 3, 2),
            typed("after", TDH_INTYPE_INT32),
            typed("Name", TDH_INTYPE_ANSISTRING),
            structure("Inner", 5, 1),
            typed("Deep", TDH_INTYPE_UINT16),
        ],
    );
    assert!(can_build_schema(&info, false));
    let schema = build_cached_schema(&info, false).unwrap();
    assert_eq!(schema.event_name, "Nested");
    assert_eq!(
        leaves(&schema),
        vec![
            ("before", "u32", PropertyKind::Fixed(4)),
            ("PartA.Name", "string", PropertyKind::AnsiString),
            ("PartA.Inner.Deep", "u16", PropertyKind::Fixed(2)),
            ("after", "s32", PropertyKind::Fixed(4)),
        ]
    );
    assert!(schema.fixed_format.is_none());
}

#[test]
fn unnamed_struct_gives_no_prefix() {
    let info = information("", 1, &[structure("", 1, 1), typed("x", TDH_INTYPE_UINT16)]);
    let schema = build_cached_schema(&info, false).unwrap();
    assert_eq!(schema.event_name, "");
    assert_eq!(leaves(&schema), vec![("x", "u16", PropertyKind::Fixed(2))]);
}

#[test]
fn fixed_schema_has_its_format_ready() {
    let info = information(
        "F",
        2,
        &[typed("a", TDH_INTYPE_UINT32), typed("b", TDH_INTYPE_UINT64)],
    );
    let schema = build_cached_schema(&info, false).unwrap();
    let format = schema.fixed_format.unwrap();
    let places: Vec<(usize, usize)> =
        format.fields().iter().map(|f| (f.offset, f.size)).collect();
    assert_eq!(places, vec![(0, 4), (4, 8)]);
    // The payload has no part in it, not even one that is too short.
    let mut decoder = TdhDecoder::new();
    let got = fields(&mut decoder, &record(b"k", 0, &[1]), reply(&info));
    assert_eq!(got, vec![field("a", "u32", 0, 4), field("b", "u64", 4, 8)]);
}

#[test]
fn given_length_fixes_the_size() {
    let mut fixed = typed("name", TDH_INTYPE_UNICODESTRING);
    fixed.flags = PROPERTY_HAS_LENGTH;
    fixed.length = 12;
    let mut zero = typed("zero", TDH_INTYPE_ANSISTRING);
    zero.flags = PROPERTY_HAS_LENGTH;
    let mut unflagged = typed("unflagged", TDH_INTYPE_COUNTEDSTRING);
    unflagged.length = 9;
    let info = information("L", 3, &[fixed, zero, unflagged]);
    let schema = build_cached_schema(&info, false).unwrap();
    assert_eq!(
        leaves(&schema),
        vec![
            ("name", "wstring", PropertyKind::Fixed(12)),
            ("zero", "string", PropertyKind::AnsiString),
            ("unflagged", "counted_string", PropertyKind::CountedString),
        ]
    );
}

#[test]
fn length_held_by_another_property_makes_a_placeholder() {
    let mut text = typed("text", TDH_INTYPE_UNICODESTRING);
    text.flags = PROPERTY_HAS_LENGTH | PROPERTY_PARAM_LENGTH;
    let mut number = typed("number", TDH_INTYPE_UINT32);
    number.flags = PROPERTY_HAS_LENGTH | PROPERTY_PARAM_LENGTH;
    number.length = 3;
    let mut array = typed("array", TDH_INTYPE_UINT32);
    array.flags = PROPERTY_HAS_COUNT | PROPERTY_HAS_LENGTH | PROPERTY_PARAM_LENGTH;
    array.count = 2;
    array.length = 3;
    // Without the flag that a length is given, there is none to be held.
    let mut plain = typed("plain", TDH_INTYPE_BINARY);
    plain.flags = PROPERTY_PARAM_LENGTH;
    plain.length = 3;
    let info = information("P", 4, &[text, number, array, plain]);
    let schema = build_cached_schema(&info, false).unwrap();
    assert_eq!(
        leaves(&schema),
        vec![
            ("text", "wstring", PropertyKind::Unsupported),
            ("number", "u32", PropertyKind::Unsupported),
            ("array", "unsupported_array", PropertyKind::Unsupported),
            ("plain", "binary", PropertyKind::VariableBlob),
        ]
    );
    assert!(schema.fixed_format.is_none());
    // The placeholder takes the rest: it is not scanned for a terminator.
    let mut decoder = TdhDecoder::new();
    let got = fields(&mut decoder, &record(b"k", 0, &[b'A', 0, 0, 0, 1, 2]), reply(&info));
    assert_eq!(got[0], field("text", "wstring", 0, 6));
    assert_eq!(got[1], field("number", "u32", 6, 0));
}

#[test]
fn struct_gives_what_its_members_give() {
    let nested = information(
        "",
        1,
        &[
            structure("S", 1, 2),
            typed("a", TDH_INTYPE_UINT16),
            typed("b", TDH_INTYPE_ANSISTRING),
        ],
    );
    let flat =
        information("", 2, &[typed("S.a", TDH_INTYPE_UINT16), typed("S.b", TDH_INTYPE_ANSISTRING)]);
    assert_eq!(
        leaves(&build_cached_schema(&nested, false).unwrap()),
        leaves(&build_cached_schema(&flat, false).unwrap())
    );
}

#[test]
fn joined_layout_is_made_of_its_parts() {
    let data = [1, 2, b'a', b'b', 0, 2, 0, 7, 7, 9];
    let part = |names: &[(&str, PropertyKind)]| -> Vec<CachedProperty> {
        names
            .iter()
            .map(|(name, kind)| CachedProperty {
                name: name.to_string(),
                type_label: "t",
                kind: *kind,
            })
            .collect()
    };
    let front = [("n", PropertyKind::Fixed(2)), ("s", PropertyKind::AnsiString)];
    let back = [("c", PropertyKind::CountedString), ("b", PropertyKind::VariableBlob)];
    let places = |properties: &[CachedProperty], data: &[u8], by: usize| -> Vec<(String, usize, usize)> {
        build_event_format_with_data(properties, data)
            .fields()
            .iter()
            .map(|f| (f.name.clone(), f.offset + by, f.size))
            .collect()
    };
    let first = places(&part(&front), &data, 0);
    let end: usize = first.iter().map(|f| f.2).sum();
    assert_eq!(end, 5);
    let second = places(&part(&back), &data[end..], end);
    let whole = places(&part(&[front, back].concat()), &data, 0);
    assert_eq!(whole, [first, second].concat());
    assert_eq!(whole[2], ("c".to_string(), 5, 4));
    assert_eq!(whole[3], ("b".to_string(), 9, 1));
}

#[test]
fn arrays_are_placeholders() {
    let mut array = typed("array", TDH_INTYPE_UINT32);
    array.flags = PROPERTY_HAS_COUNT;
    array.count = 3;
    let mut sized = typed("sized", TDH_INTYPE_UINT32);
    sized.flags = PROPERTY_HAS_COUNT | PROPERTY_HAS_LENGTH;
    sized.count = 3;
    sized.length = 12;
    let mut single = typed("single", TDH_INTYPE_UINT32);
    single.flags = PROPERTY_HAS_COUNT;
    single.count = 1;
    let mut empty = typed("empty", TDH_INTYPE_UINT32);
    empty.flags = PROPERTY_HAS_COUNT;
    let info = information("A", 4, &[sized, single, array, empty]);
    let schema = build_cached_schema(&info, false).unwrap();
    assert_eq!(
        leaves(&schema),
        vec![
            ("sized", "unsupported_array", PropertyKind::Fixed(12)),
            ("single", "u32", PropertyKind::Fixed(4)),
            ("array", "unsupported_array", PropertyKind::Unsupported),
            ("empty", "unsupported_array", PropertyKind::Unsupported),
        ]
    );
    let mut decoder = TdhDecoder::new();
    let got = fields(&mut decoder, &record(b"k", 0, &[0; 20]), reply(&info));
    assert_eq!(got[2], field("array", "unsupported_array", 16, 4));
    assert_eq!(got[3], field("empty", "unsupported_array", 20, 0));
}

#[test]
fn blob_leaves_nothing_behind_it() {
    let info = information(
        "B",
        3,
        &[
            typed("sid", TDH_INTYPE_SID),
            typed("text", TDH_INTYPE_ANSISTRING),
            typed("n", TDH_INTYPE_UINT16),
        ],
    );
    let mut decoder = TdhDecoder::new();
    let got = fields(&mut decoder, &record(b"k", 0, &[1, 2, 3]), reply(&info));
    assert_eq!(
        got,
        vec![field("sid", "sid", 0, 3), field("text", "string", 3, 0), field("n", "u16", 3, 2)]
    );
}

#[test]
fn unknown_type_is_a_blob() {
    let info = information("U", 1, &[typed("odd", 999)]);
    let schema = build_cached_schema(&info, false).unwrap();
    assert_eq!(leaves(&schema), vec![("odd", "unsupported", PropertyKind::VariableBlob)]);
}

#[test]
fn malformed_information_is_refused() {
    assert!(matches!(
        build_cached_schema(&[], false),
        Err(TdhDecodeError::Malformed("buffer smaller than TRACE_EVENT_INFO"))
    ));
    let mut short = vec![0u8; TRACE_EVENT_INFO_SIZE + EVENT_PROPERTY_INFO_SIZE - 1];
    put_u32(&mut short, 100, 1);
    assert!(can_build_schema(&short, false));
    assert!(matches!(
        build_cached_schema(&short, false),
        Err(TdhDecodeError::Malformed("buffer too small for declared property count"))
    ));
    let many = information("", 2, &[typed("only", TDH_INTYPE_UINT16)]);
    assert!(matches!(
        build_cached_schema(&many, false),
        Err(TdhDecodeError::Malformed("property index out of bounds"))
    ));
    let astray = information("", 1, &[structure("s", 7, 1)]);
    assert!(can_build_schema(&astray, false));
    assert!(matches!(
        build_cached_schema(&astray, false),
        Err(TdhDecodeError::Malformed("property index out of bounds"))
    ));
}

#[test]
fn struct_that_contains_itself_is_told_apart() {
    let itself = information("", 1, &[structure("s", 0, 1)]);
    assert!(!can_build_schema(&itself, false));
    let ring = information("", 1, &[structure("a", 1, 1), structure("b", 0, 1)]);
    assert!(!can_build_schema(&ring, false));
    // The ring stands behind an index past the end: the error comes first.
    let late = information("", 1, &[structure("a", 5, 2), structure("b", 0, 1)]);
    assert!(can_build_schema(&late, false));
    // As deep as a table of this size can go.
    let deep = information(
        "",
        1,
        &[
            structure("a", 1, 1),
            structure("b", 2, 1),
            structure("c", 3, 1),
            typed("d", TDH_INTYPE_UINT16),
        ],
    );
    assert!(can_build_schema(&deep, false));
    assert_eq!(
        leaves(&build_cached_schema(&deep, false).unwrap()),
        vec![("a.b.c.d", "u16", PropertyKind::Fixed(2))]
    );
    let decoder = TdhDecoder::new();
    assert!(!decoder.can_decode(&record(b"k", 0, &[]), &reply(&itself)));
}

#[test]
fn cache_keeps_the_first_schema_of_a_key() {
    let first = information("First", 0, &[]);
    let second = information("Second", 0, &[]);
    let mut cache = SchemaLayoutCache::new();
    assert!(cache.get(b"k", false).is_none());
    cache.insert(b"k".to_vec(), false, build_cached_schema(&first, false).unwrap());
    cache.insert(b"k".to_vec(), false, build_cached_schema(&second, false).unwrap());
    assert_eq!(cache.get(b"k", false).unwrap().event_name, "First");
    assert!(cache.get(b"k", true).is_none());
    assert!(cache.get(b"kk", false).is_none());
    cache.insert(b"k".to_vec(), true, build_cached_schema(&second, true).unwrap());
    assert_eq!(cache.get(b"k", true).unwrap().event_name, "Second");
    assert_eq!(cache.get(b"k", false).unwrap().event_name, "First");
}

#[test]
fn cache_tells_many_keys_apart() {
    let mut cache = SchemaLayoutCache::new();
    for n in 0u32..1000 {
        let info = information(&n.to_string(), 0, &[]);
        let schema = build_cached_schema(&info, false).unwrap();
        cache.insert(n.to_le_bytes().to_vec(), n % 2 == 0, schema);
    }
    for n in 0u32..1000 {
        let key = n.to_le_bytes();
        assert_eq!(cache.get(&key, n % 2 == 0).unwrap().event_name, n.to_string());
        assert!(cache.get(&key, n % 2 != 0).is_none());
    }
}

#[test]
fn sizing_reply_is_judged() {
    assert_eq!(words_for_information(ERROR_INSUFFICIENT_BUFFER, 1).unwrap(), 1);
    assert_eq!(words_for_information(ERROR_INSUFFICIENT_BUFFER, 8).unwrap(), 1);
    assert_eq!(words_for_information(ERROR_INSUFFICIENT_BUFFER, 9).unwrap(), 2);
    assert_eq!(words_for_information(ERROR_INSUFFICIENT_BUFFER, u32::MAX).unwrap(), 0x2000_0000);
    assert!(matches!(
        words_for_information(ERROR_INSUFFICIENT_BUFFER, 0),
        Err(TdhDecodeError::Malformed("TDH returned zero buffer size"))
    ));
    assert!(matches!(words_for_information(0, 16), Err(TdhDecodeError::Win32(0))));
    assert!(matches!(words_for_information(1168, 16), Err(TdhDecodeError::Win32(1168))));
}

#[test]
fn filling_reply_is_judged() {
    let words = vec![0x0807_0605_0403_0201, 0x100f_0e0d_0c0b_0a09];
    let filled = accept_information(0, words, 11).unwrap();
    assert_eq!(filled.as_bytes(), vec![1, 2, 3, 4, 5, 6, 7, 8, 9, 10, 11]);
    assert!(matches!(accept_information(87, vec![0], 8), Err(TdhDecodeError::Win32(87))));
}

#[test]
fn errors_have_messages() {
    assert_eq!(
        TdhDecodeError::NotFound.message(),
        "no schema TL extended-data item found on event"
    );
    assert_eq!(
        TdhDecodeError::Win32(0).message(),
        "TdhGetEventInformation failed with Win32 error 0"
    );
    assert_eq!(
        TdhDecodeError::Win32(4294967295).message(),
        "TdhGetEventInformation failed with Win32 error 4294967295"
    );
    assert_eq!(
        TdhDecodeError::Malformed("property index out of bounds").message(),
        "malformed TRACE_EVENT_INFO: property index out of bounds"
    );
}
