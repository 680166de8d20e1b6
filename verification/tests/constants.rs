//! The numbers that the library shares with the Windows SDK, and the texts that
//! it reads from UTF-16.

use std::mem::size_of;

use tdh_decoder::info::{
    read_event_name, read_u16, read_u32, read_utf16_at, EVENT_PROPERTY_INFO_SIZE,
    TRACE_EVENT_INFO_SIZE,
};
use tdh_decoder::intype;
use tdh_decoder::intype::{intype_to_cached_info, intype_to_type_name, PropertyKind};
use tdh_decoder::info::PropertyInfo;
use tdh_decoder::query;
use tdh_decoder::record;
use tdh_decoder::scan::{scan_ansi_string, scan_counted_string, scan_utf16_string};
use windows_sys::Win32::Foundation::ERROR_INSUFFICIENT_BUFFER;
use windows_sys::Win32::System::Diagnostics::Etw;

#[test]
fn type_numbers_are_those_of_the_sdk() {
    let pairs = [
        (intype::TDH_INTYPE_UNICODESTRING, Etw::TDH_INTYPE_UNICODESTRING),
        (intype::TDH_INTYPE_ANSISTRING, Etw::TDH_INTYPE_ANSISTRING),
        (intype::TDH_INTYPE_INT8, Etw::TDH_INTYPE_INT8),
        (intype::TDH_INTYPE_UINT8, Etw::TDH_INTYPE_UINT8),
        (intype::TDH_INTYPE_INT16, Etw::TDH_INTYPE_INT16),
        (intype::TDH_INTYPE_UINT16, Etw::TDH_INTYPE_UINT16),
        (intype::TDH_INTYPE_INT32, Etw::TDH_INTYPE_INT32),
        (intype::TDH_INTYPE_UINT32, Etw::TDH_INTYPE_UINT32),
        (intype::TDH_INTYPE_INT64, Etw::TDH_INTYPE_INT64),
        (intype::TDH_INTYPE_UINT64, Etw::TDH_INTYPE_UINT64),
        (intype::TDH_INTYPE_FLOAT, Etw::TDH_INTYPE_FLOAT),
        (intype::TDH_INTYPE_DOUBLE, Etw::TDH_INTYPE_DOUBLE),
        (intype::TDH_INTYPE_BOOLEAN, Etw::TDH_INTYPE_BOOLEAN),
        (intype::TDH_INTYPE_BINARY, Etw::TDH_INTYPE_BINARY),
        (intype::TDH_INTYPE_GUID, Etw::TDH_INTYPE_GUID),
        (intype::TDH_INTYPE_POINTER, Etw::TDH_INTYPE_POINTER),
        (intype::TDH_INTYPE_FILETIME, Etw::TDH_INTYPE_FILETIME),
        (intype::TDH_INTYPE_SYSTEMTIME, Etw::TDH_INTYPE_SYSTEMTIME),
        (intype::TDH_INTYPE_SID, Etw::TDH_INTYPE_SID),
        (intype::TDH_INTYPE_HEXINT32, Etw::TDH_INTYPE_HEXINT32),
        (intype::TDH_INTYPE_HEXINT64, Etw::TDH_INTYPE_HEXINT64),
        (intype::TDH_INTYPE_COUNTEDSTRING, Etw::TDH_INTYPE_COUNTEDSTRING),
        (intype::TDH_INTYPE_REVERSEDCOUNTEDSTRING, Etw::TDH_INTYPE_REVERSEDCOUNTEDSTRING),
        (intype::TDH_INTYPE_NONNULLTERMINATEDSTRING, Etw::TDH_INTYPE_NONNULLTERMINATEDSTRING),
        (
            intype::TDH_INTYPE_NONNULLTERMINATEDANSISTRING,
            Etw::TDH_INTYPE_NONNULLTERMINATEDANSISTRING,
        ),
    ];
    for (ours, theirs) in pairs {
        assert_eq!(ours, theirs);
    }
}

#[test]
fn sizes_and_codes_are_those_of_the_sdk() {
    assert_eq!(TRACE_EVENT_INFO_SIZE, size_of::<Etw::TRACE_EVENT_INFO>());
    assert_eq!(EVENT_PROPERTY_INFO_SIZE, size_of::<Etw::EVENT_PROPERTY_INFO>());
    assert_eq!(query::ERROR_INSUFFICIENT_BUFFER, ERROR_INSUFFICIENT_BUFFER);
    assert_eq!(u32::from(record::EVENT_HEADER_FLAG_32_BIT_HEADER), Etw::EVENT_HEADER_FLAG_32_BIT_HEADER);
    assert_eq!(
        u32::from(record::EVENT_HEADER_EXT_TYPE_EVENT_SCHEMA_TL),
        Etw::EVENT_HEADER_EXT_TYPE_EVENT_SCHEMA_TL
    );
}

#[test]
fn every_type_has_its_name_and_size() {
    let plain = PropertyInfo {
        flags: 0,
        name_offset: 0,
        in_type: 0,
        struct_start: 0,
        struct_members: 0,
        count: 0,
        length: 0,
    };
    let table = [
        (3, "s8", PropertyKind::Fixed(1)),
        (4, "u8", PropertyKind::Fixed(1)),
        (13, "u8", PropertyKind::Fixed(1)),
        (5, "s16", PropertyKind::Fixed(2)),
        (6, "u16", PropertyKind::Fixed(2)),
        (7, "s32", PropertyKind::Fixed(4)),
        (20, "s32", PropertyKind::Fixed(4)),
        (8, "u32", PropertyKind::Fixed(4)),
        (9, "s64", PropertyKind::Fixed(8)),
        (21, "s64", PropertyKind::Fixed(8)),
        (10, "u64", PropertyKind::Fixed(8)),
        (11, "f32", PropertyKind::Fixed(4)),
        (12, "f64", PropertyKind::Fixed(8)),
        (16, "pointer", PropertyKind::Fixed(8)),
        (17, "filetime", PropertyKind::Fixed(8)),
        (18, "systemtime", PropertyKind::Fixed(16)),
        (15, "guid", PropertyKind::Fixed(16)),
        (2, "string", PropertyKind::AnsiString),
        (305, "string", PropertyKind::AnsiString),
        (1, "wstring", PropertyKind::Utf16String),
        (304, "wstring", PropertyKind::Utf16String),
        (19, "sid", PropertyKind::VariableBlob),
        (14, "binary", PropertyKind::VariableBlob),
        (300, "counted_string", PropertyKind::CountedString),
        (302, "counted_string", PropertyKind::CountedString),
        (0, "unsupported", PropertyKind::VariableBlob),
        (-1, "unsupported", PropertyKind::VariableBlob),
    ];
    for (in_type, label, kind) in table {
        assert_eq!(intype_to_cached_info(in_type, false, &plain), (label, kind));
        assert_eq!(intype_to_type_name(in_type), label);
    }
    assert_eq!(intype_to_cached_info(16, true, &plain), ("pointer", PropertyKind::Fixed(4)));
    let sized = PropertyInfo { flags: intype::PROPERTY_HAS_LENGTH, length: 6, ..plain };
    assert_eq!(intype_to_cached_info(16, true, &sized), ("pointer", PropertyKind::Fixed(6)));
}

fn utf16(units: &[u16]) -> Vec<u8> {
    let mut bytes = vec![0, 0];
    for unit in units {
        bytes.extend_from_slice(&unit.to_le_bytes());
    }
    bytes
}

#[test]
fn texts_keep_characters_beyond_16_bits() {
    assert_eq!(read_utf16_at(&utf16(&[0x41, 0xD83D, 0xDE00, 0x42, 0, 0x43]), 2), "A\u{1F600}B");
    assert_eq!(read_utf16_at(&utf16(&[0xE9, 0x4E2D]), 2), "\u{E9}\u{4E2D}");
}

#[test]
fn encoded_text_is_read_back_between_other_bytes() {
    for text in ["", "plain", "\u{E9}\u{FFFF}\u{10000}x\u{10FFFF}", "\u{D7FF}\u{E000}"] {
        for before in 1..5 {
            let mut bytes = vec![0xAB; before];
            for unit in text.encode_utf16() {
                bytes.extend_from_slice(&unit.to_le_bytes());
            }
            bytes.extend_from_slice(&[0, 0, 0x41, 0x42, 0x43]);
            assert_eq!(read_utf16_at(&bytes, before), text);
        }
    }
}

#[test]
fn lone_surrogates_are_replaced() {
    assert_eq!(read_utf16_at(&utf16(&[0xD83D, 0x41]), 2), "\u{FFFD}A");
    assert_eq!(read_utf16_at(&utf16(&[0xDE00, 0xD83D]), 2), "\u{FFFD}\u{FFFD}");
    assert_eq!(read_utf16_at(&utf16(&[0xD83D, 0xD83D, 0xDE00]), 2), "\u{FFFD}\u{1F600}");
}

#[test]
fn text_without_terminator_ends_with_the_last_whole_unit() {
    assert_eq!(read_utf16_at(&[9, b'A', 0, b'B', 0, b'C'], 1), "AB");
    assert_eq!(read_utf16_at(&[9, 9, b'A'], 2), "");
}

#[test]
fn event_name_takes_a_whole_offset() {
    assert_eq!(read_event_name(&[1; 95]), "");
    let mut bytes = vec![0u8; 96];
    bytes[92] = 96;
    bytes.extend_from_slice(&[b'N', 0, 0, 0]);
    assert_eq!(read_event_name(&bytes), "N");
}

#[test]
fn numbers_are_little_endian() {
    assert_eq!(read_u16(&[0xFF, 0x34, 0x12], 1), 0x1234);
    assert_eq!(read_u32(&[0x78, 0x56, 0x34, 0x92], 0), 0x9234_5678);
}

#[test]
fn bytes_behind_a_string_do_not_count() {
    assert_eq!(scan_ansi_string(b"ab\0"), scan_ansi_string(b"ab\0cd\0"));
    assert_eq!(scan_utf16_string(&[1, 0, 0, 0]), scan_utf16_string(&[1, 0, 0, 0, 5, 0, 0, 0]));
    assert_eq!(scan_counted_string(&[1, 0, 7]), scan_counted_string(&[1, 0, 7, 7, 7]));
}

#[test]
fn null_pair_counts_only_on_a_unit_boundary() {
    assert_eq!(scan_utf16_string(&[1, 0, 0, 1, 0, 0]), 6);
    assert_eq!(scan_utf16_string(&[1, 0, 0, 2]), 4);
}

#[test]
fn counted_length_uses_both_bytes() {
    let mut data = vec![0u8; 400];
    data[0] = 0x2C;
    data[1] = 0x01;
    assert_eq!(scan_counted_string(&data), 302);
}
