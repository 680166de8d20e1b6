//! Scanning, layout, texts and type names on fixed inputs.

use tdh_decoder::info::read_utf16_at;
use tdh_decoder::intype::{intype_to_type_name, PropertyKind};
use tdh_decoder::layout::build_event_format_with_data;
use tdh_decoder::scan::{scan_ansi_string, scan_counted_string, scan_utf16_string};
use tdh_decoder::schema::CachedProperty;
use windows_sys::Win32::System::Diagnostics::Etw::{
    TDH_INTYPE_ANSISTRING, TDH_INTYPE_BINARY, TDH_INTYPE_DOUBLE, TDH_INTYPE_GUID,
    TDH_INTYPE_INT8, TDH_INTYPE_UINT32, TDH_INTYPE_UNICODESTRING,
};

// scan_ansi_string

#[test]
fn scan_ansi_empty() {
    assert_eq!(scan_ansi_string(&[]), 0);
}

#[test]
fn scan_ansi_null_only() {
    assert_eq!(scan_ansi_string(&[0]), 1);
}

#[test]
fn scan_ansi_hello() {
    // "Hi\0rest"
    let data = b"Hi\0rest";
    assert_eq!(scan_ansi_string(data), 3); // 'H','i','\0'
}

#[test]
fn scan_ansi_unterminated() {
    let data = b"abc";
    assert_eq!(scan_ansi_string(data), 3);
}

// scan_utf16_string

#[test]
fn scan_utf16_empty() {
    assert_eq!(scan_utf16_string(&[]), 0);
}

#[test]
fn scan_utf16_null_only() {
    assert_eq!(scan_utf16_string(&[0, 0]), 2);
}

#[test]
fn scan_utf16_hello() {
    // "Hi" in UTF-16LE + null terminator
    let data: &[u8] = &[b'H', 0, b'i', 0, 0, 0, b'X', 0];
    assert_eq!(scan_utf16_string(data), 6); // 'H',0,'i',0,0,0
}

#[test]
fn scan_utf16_unterminated() {
    let data: &[u8] = &[b'A', 0, b'B', 0];
    assert_eq!(scan_utf16_string(data), 4);
}

#[test]
fn scan_utf16_odd_length() {
    // Odd byte count - no valid null terminator pair
    let data: &[u8] = &[b'A', 0, b'B'];
    assert_eq!(scan_utf16_string(data), 3);
}

// build_event_format_with_data

#[test]
fn format_all_fixed() {
    let props = vec![
        CachedProperty { name: "a".into(), type_label: "u32", kind: PropertyKind::Fixed(4) },
        CachedProperty { name: "b".into(), type_label: "u64", kind: PropertyKind::Fixed(8) },
    ];
    let data = [0u8; 12];
    let fmt = build_event_format_with_data(&props, &data);
    let fields = fmt.fields();
    assert_eq!(fields.len(), 2);
    assert_eq!(fields[0].name, "a");
    assert_eq!(fields[0].offset, 0);
    assert_eq!(fields[0].size, 4);
    assert_eq!(fields[1].name, "b");
    assert_eq!(fields[1].offset, 4);
    assert_eq!(fields[1].size, 8);
}

#[test]
fn format_with_ansi_string() {
    let props = vec![
        CachedProperty { name: "id".into(), type_label: "u32", kind: PropertyKind::Fixed(4) },
        CachedProperty { name: "msg".into(), type_label: "string", kind: PropertyKind::AnsiString },
        CachedProperty { name: "val".into(), type_label: "u16", kind: PropertyKind::Fixed(2) },
    ];
    // id=0x01020304, msg="Hi\0", val=0x0506
    let data: Vec<u8> = vec![
        0x01, 0x02, 0x03, 0x04,  // id
        b'H', b'i', 0x00,        // msg (null-terminated)
        0x05, 0x06,              // val
    ];
    let fmt = build_event_format_with_data(&props, &data);
    let fields = fmt.fields();
    assert_eq!(fields.len(), 3);
    assert_eq!(fields[0].offset, 0);
    assert_eq!(fields[0].size, 4);
    assert_eq!(fields[1].offset, 4);
    assert_eq!(fields[1].size, 3); // "Hi\0"
    assert_eq!(fields[2].offset, 7);
    assert_eq!(fields[2].size, 2);
}

#[test]
fn format_with_utf16_string() {
    let props = vec![
        CachedProperty { name: "name".into(), type_label: "wstring", kind: PropertyKind::Utf16String },
        CachedProperty { name: "code".into(), type_label: "u32", kind: PropertyKind::Fixed(4) },
    ];
    // name="A\0" in UTF-16LE (A=0x41,0x00 then null=0x00,0x00), code=0x01020304
    let data: Vec<u8> = vec![
        0x41, 0x00, 0x00, 0x00,  // "A\0" in UTF-16LE
        0x01, 0x02, 0x03, 0x04,  // code
    ];
    let fmt = build_event_format_with_data(&props, &data);
    let fields = fmt.fields();
    assert_eq!(fields.len(), 2);
    assert_eq!(fields[0].offset, 0);
    assert_eq!(fields[0].size, 4); // 'A',0x00, 0x00,0x00
    assert_eq!(fields[1].offset, 4);
    assert_eq!(fields[1].size, 4);
}

#[test]
fn format_variable_blob_consumes_rest() {
    let props = vec![
        CachedProperty { name: "hdr".into(), type_label: "u8", kind: PropertyKind::Fixed(1) },
        CachedProperty { name: "blob".into(), type_label: "binary", kind: PropertyKind::VariableBlob },
    ];
    let data = [0u8; 10];
    let fmt = build_event_format_with_data(&props, &data);
    let fields = fmt.fields();
    assert_eq!(fields[0].size, 1);
    assert_eq!(fields[1].offset, 1);
    assert_eq!(fields[1].size, 9); // everything after hdr
}

// read_utf16_at

#[test]
fn read_utf16_at_basic() {
    // "AB\0" in UTF-16LE at offset 2
    let buf: Vec<u8> = vec![
        0xFF, 0xFF,              // junk before
        b'A', 0, b'B', 0, 0, 0, // "AB\0"
    ];
    assert_eq!(read_utf16_at(&buf, 2), "AB");
}

#[test]
fn read_utf16_at_zero_offset() {
    assert_eq!(read_utf16_at(&[0x41, 0x00, 0x00, 0x00], 0), "");
}

#[test]
fn read_utf16_at_out_of_bounds() {
    assert_eq!(read_utf16_at(&[0x41, 0x00], 100), "");
}

// scan_counted_string

#[test]
fn scan_counted_empty() {
    assert_eq!(scan_counted_string(&[]), 0);
}

#[test]
fn scan_counted_short() {
    // Only 1 byte - not enough for the u16 prefix
    assert_eq!(scan_counted_string(&[0x03]), 1);
}

#[test]
fn scan_counted_hello() {
    // len=5, data="Hello", trailing byte
    let data: &[u8] = &[0x05, 0x00, b'H', b'e', b'l', b'l', b'o', 0xFF];
    assert_eq!(scan_counted_string(data), 7); // 2 + 5
}

#[test]
fn scan_counted_zero_len() {
    // len=0, no data
    assert_eq!(scan_counted_string(&[0x00, 0x00, 0xFF]), 2);
}

#[test]
fn scan_counted_truncated() {
    // len=10 but only 4 bytes available after prefix
    let data: &[u8] = &[0x0A, 0x00, 0x01, 0x02, 0x03, 0x04];
    assert_eq!(scan_counted_string(data), 6); // clamped to data.len()
}

// format with counted string

#[test]
fn format_with_counted_string() {
    let props = vec![
        CachedProperty { name: "status".into(), type_label: "counted_string", kind: PropertyKind::CountedString },
        CachedProperty { name: "code".into(), type_label: "u32", kind: PropertyKind::Fixed(4) },
    ];
    // status: len=7 "Success", code: 0x01020304
    let data: Vec<u8> = vec![
        0x07, 0x00,                                     // u16 len = 7
        b'S', b'u', b'c', b'c', b'e', b's', b's',      // "Success"
        0x01, 0x02, 0x03, 0x04,                          // code
    ];
    let fmt = build_event_format_with_data(&props, &data);
    let fields = fmt.fields();
    assert_eq!(fields.len(), 2);
    assert_eq!(fields[0].offset, 0);
    assert_eq!(fields[0].size, 9);  // 2 + 7
    assert_eq!(fields[1].offset, 9);
    assert_eq!(fields[1].size, 4);
}

// intype_to_type_name

#[test]
fn type_name_scalars() {
    assert_eq!(intype_to_type_name(TDH_INTYPE_INT8), "s8");
    assert_eq!(intype_to_type_name(TDH_INTYPE_UINT32), "u32");
    assert_eq!(intype_to_type_name(TDH_INTYPE_DOUBLE), "f64");
    assert_eq!(intype_to_type_name(TDH_INTYPE_GUID), "guid");
    assert_eq!(intype_to_type_name(TDH_INTYPE_UNICODESTRING), "wstring");
    assert_eq!(intype_to_type_name(TDH_INTYPE_ANSISTRING), "string");
    assert_eq!(intype_to_type_name(TDH_INTYPE_BINARY), "binary");
    assert_eq!(intype_to_type_name(999), "unsupported");
}
