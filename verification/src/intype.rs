//! Property types: how they are called and how many bytes they take.

use vstd::prelude::*;

use crate::info::PropertyInfo;

verus! {

/// Null-terminated UTF-16 string.
pub const TDH_INTYPE_UNICODESTRING: i32 = 1;

/// Null-terminated ANSI string.
pub const TDH_INTYPE_ANSISTRING: i32 = 2;

/// Signed 8-bit integer.
pub const TDH_INTYPE_INT8: i32 = 3;

/// Unsigned 8-bit integer.
pub const TDH_INTYPE_UINT8: i32 = 4;

/// Signed 16-bit integer.
pub const TDH_INTYPE_INT16: i32 = 5;

/// Unsigned 16-bit integer.
pub const TDH_INTYPE_UINT16: i32 = 6;

/// Signed 32-bit integer.
pub const TDH_INTYPE_INT32: i32 = 7;

/// Unsigned 32-bit integer.
pub const TDH_INTYPE_UINT32: i32 = 8;

/// Signed 64-bit integer.
pub const TDH_INTYPE_INT64: i32 = 9;

/// Unsigned 64-bit integer.
pub const TDH_INTYPE_UINT64: i32 = 10;

/// 32-bit floating-point number.
pub const TDH_INTYPE_FLOAT: i32 = 11;

/// 64-bit floating-point number.
pub const TDH_INTYPE_DOUBLE: i32 = 12;

/// Truth value.
pub const TDH_INTYPE_BOOLEAN: i32 = 13;

/// Raw bytes.
pub const TDH_INTYPE_BINARY: i32 = 14;

/// Globally unique identifier.
pub const TDH_INTYPE_GUID: i32 = 15;

/// Pointer of the width that the event was written with.
pub const TDH_INTYPE_POINTER: i32 = 16;

/// Time as a count of 100-nanosecond intervals.
pub const TDH_INTYPE_FILETIME: i32 = 17;

/// Time as a calendar date.
pub const TDH_INTYPE_SYSTEMTIME: i32 = 18;

/// Security identifier.
pub const TDH_INTYPE_SID: i32 = 19;

/// 32-bit integer that is shown in hexadecimal.
pub const TDH_INTYPE_HEXINT32: i32 = 20;

/// 64-bit integer that is shown in hexadecimal.
pub const TDH_INTYPE_HEXINT64: i32 = 21;

/// UTF-16 string behind its length.
pub const TDH_INTYPE_COUNTEDSTRING: i32 = 300;

/// UTF-16 string behind its length, which is read like that of
/// `TDH_INTYPE_COUNTEDSTRING`.
pub const TDH_INTYPE_REVERSEDCOUNTEDSTRING: i32 = 302;

/// UTF-16 string without a terminator.
pub const TDH_INTYPE_NONNULLTERMINATEDSTRING: i32 = 304;

/// ANSI string without a terminator.
pub const TDH_INTYPE_NONNULLTERMINATEDANSISTRING: i32 = 305;

/// Flag of a property that is a struct.
pub const PROPERTY_STRUCT: i32 = 0x1;

/// Flag of a property whose length is given.
pub const PROPERTY_HAS_LENGTH: i32 = 0x4;

/// Flag of a property whose number of elements is given.
pub const PROPERTY_HAS_COUNT: i32 = 0x8;

/// Flag of a property whose length is the index of another property and no
/// number of bytes.
pub const PROPERTY_PARAM_LENGTH: i32 = 0x10;

/// What determines the number of payload bytes of a property.
#[derive(Clone, Copy, Debug, PartialEq, Eq, Structural)]
pub enum PropertyKind {
    /// A number of bytes that the schema gives.
    Fixed(usize),
    /// The terminator of an ANSI string.
    AnsiString,
    /// The terminator of a UTF-16 string.
    Utf16String,
    /// The two-byte length before the bytes of a string.
    CountedString,
    /// The end of the payload: the schema gives no length.
    VariableBlob,
    /// The end of the payload: a placeholder for an array whose length the
    /// schema does not give, or for a property whose length another one holds.
    Unsupported,
}

/// The property is a struct.
pub open spec fn is_struct(property: PropertyInfo) -> bool {
    property.flags & PROPERTY_STRUCT != 0
}

/// The property is an array: its number of elements is given, and is not one.
pub open spec fn is_array(property: PropertyInfo) -> bool {
    property.flags & PROPERTY_HAS_COUNT != 0 && property.count != 1
}

/// The property's length is held by another property.
pub open spec fn is_param_driven(property: PropertyInfo) -> bool {
    property.flags & PROPERTY_HAS_LENGTH != 0 && property.flags & PROPERTY_PARAM_LENGTH != 0
}

/// The length in bytes that the property table gives, if it gives one.
pub open spec fn explicit_length(property: PropertyInfo) -> Option<usize> {
    if property.flags & PROPERTY_HAS_LENGTH != 0 && property.flags & PROPERTY_PARAM_LENGTH == 0
        && property.length > 0 {
        Some(property.length as usize)
    } else {
        None
    }
}

/// What a property type is called.
pub open spec fn type_label_of(in_type: i32) -> Seq<char> {
    if in_type == TDH_INTYPE_INT8 {
        "s8"@
    } else if in_type == TDH_INTYPE_UINT8 || in_type == TDH_INTYPE_BOOLEAN {
        "u8"@
    } else if in_type == TDH_INTYPE_INT16 {
        "s16"@
    } else if in_type == TDH_INTYPE_UINT16 {
        "u16"@
    } else if in_type == TDH_INTYPE_INT32 || in_type == TDH_INTYPE_HEXINT32 {
        "s32"@
    } else if in_type == TDH_INTYPE_UINT32 {
        "u32"@
    } else if in_type == TDH_INTYPE_INT64 || in_type == TDH_INTYPE_HEXINT64 {
        "s64"@
    } else if in_type == TDH_INTYPE_UINT64 {
        "u64"@
    } else if in_type == TDH_INTYPE_FLOAT {
        "f32"@
    } else if in_type == TDH_INTYPE_DOUBLE {
        "f64"@
    } else if in_type == TDH_INTYPE_POINTER {
        "pointer"@
    } else if in_type == TDH_INTYPE_FILETIME {
        "filetime"@
    } else if in_type == TDH_INTYPE_SYSTEMTIME {
        "systemtime"@
    } else if in_type == TDH_INTYPE_GUID {
        "guid"@
    } else if in_type == TDH_INTYPE_ANSISTRING || in_type == TDH_INTYPE_NONNULLTERMINATEDANSISTRING {
        "string"@
    } else if in_type == TDH_INTYPE_UNICODESTRING || in_type == TDH_INTYPE_NONNULLTERMINATEDSTRING {
        "wstring"@
    } else if in_type == TDH_INTYPE_SID {
        "sid"@
    } else if in_type == TDH_INTYPE_BINARY {
        "binary"@
    } else if in_type == TDH_INTYPE_COUNTEDSTRING || in_type == TDH_INTYPE_REVERSEDCOUNTEDSTRING {
        "counted_string"@
    } else {
        "unsupported"@
    }
}

/// The number of bytes that a property type takes by itself, if that is always
/// the same for events of one pointer width.
pub open spec fn scalar_size(in_type: i32, is_32bit: bool) -> Option<usize> {
    if in_type == TDH_INTYPE_INT8 || in_type == TDH_INTYPE_UINT8 || in_type == TDH_INTYPE_BOOLEAN {
        Some(1)
    } else if in_type == TDH_INTYPE_INT16 || in_type == TDH_INTYPE_UINT16 {
        Some(2)
    } else if in_type == TDH_INTYPE_INT32 || in_type == TDH_INTYPE_HEXINT32 || in_type == TDH_INTYPE_UINT32 || in_type == TDH_INTYPE_FLOAT {
        Some(4)
    } else if in_type == TDH_INTYPE_INT64 || in_type == TDH_INTYPE_HEXINT64 || in_type == TDH_INTYPE_UINT64 || in_type == TDH_INTYPE_DOUBLE || in_type == TDH_INTYPE_FILETIME {
        Some(8)
    } else if in_type == TDH_INTYPE_SYSTEMTIME || in_type == TDH_INTYPE_GUID {
        Some(16)
    } else if in_type == TDH_INTYPE_POINTER {
        Some(if is_32bit { 4 } else { 8 })
    } else {
        None
    }
}

/// What determines the bytes of a property type whose length is not given.
pub open spec fn intype_kind(in_type: i32, is_32bit: bool) -> PropertyKind {
    match scalar_size(in_type, is_32bit) {
        Some(size) => PropertyKind::Fixed(size),
        None => if in_type == TDH_INTYPE_ANSISTRING || in_type == TDH_INTYPE_NONNULLTERMINATEDANSISTRING {
            PropertyKind::AnsiString
        } else if in_type == TDH_INTYPE_UNICODESTRING || in_type == TDH_INTYPE_NONNULLTERMINATEDSTRING {
            PropertyKind::Utf16String
        } else if in_type == TDH_INTYPE_COUNTEDSTRING || in_type == TDH_INTYPE_REVERSEDCOUNTEDSTRING {
            PropertyKind::CountedString
        } else {
            PropertyKind::VariableBlob
        },
    }
}

/// What determines the bytes of a property of the given type.
pub open spec fn cached_kind(in_type: i32, is_32bit: bool, property: PropertyInfo) -> PropertyKind {
    match explicit_length(property) {
        Some(length) => PropertyKind::Fixed(length),
        None => intype_kind(in_type, is_32bit),
    }
}

/// Returns the length in bytes that the property table gives, if it gives one.
pub(crate) fn literal_length(property: &PropertyInfo) -> (length: Option<usize>)
    ensures
        length == explicit_length(*property),
{
    if property.flags & PROPERTY_HAS_LENGTH != 0 && property.flags & PROPERTY_PARAM_LENGTH == 0
        && property.length > 0 {
        Some(property.length as usize)
    } else {
        None
    }
}

/// Returns what a property type is called and what determines the bytes of a
/// property of that type. A length that the property table gives makes the
/// property one of fixed size, whatever its type.
pub fn intype_to_cached_info(in_type: i32, is_32bit: bool, prop: &PropertyInfo) -> (cached: (
    &'static str,
    PropertyKind,
))
    ensures
        cached.0@ == type_label_of(in_type),
        cached.1 == cached_kind(in_type, is_32bit, *prop),
{
    if let Some(length) = literal_length(prop) {
        return (intype_to_type_name(in_type), PropertyKind::Fixed(length));
    }
    match in_type {
        TDH_INTYPE_INT8 => ("s8", PropertyKind::Fixed(1)),
        TDH_INTYPE_UINT8 | TDH_INTYPE_BOOLEAN => ("u8", PropertyKind::Fixed(1)),
        TDH_INTYPE_INT16 => ("s16", PropertyKind::Fixed(2)),
        TDH_INTYPE_UINT16 => ("u16", PropertyKind::Fixed(2)),
        TDH_INTYPE_INT32 | TDH_INTYPE_HEXINT32 => ("s32", PropertyKind::Fixed(4)),
        TDH_INTYPE_UINT32 => ("u32", PropertyKind::Fixed(4)),
        TDH_INTYPE_INT64 | TDH_INTYPE_HEXINT64 => ("s64", PropertyKind::Fixed(8)),
        TDH_INTYPE_UINT64 => ("u64", PropertyKind::Fixed(8)),
        TDH_INTYPE_FLOAT => ("f32", PropertyKind::Fixed(4)),
        TDH_INTYPE_DOUBLE => ("f64", PropertyKind::Fixed(8)),
        TDH_INTYPE_POINTER => {
            let size: usize = if is_32bit { 4 } else { 8 };
            ("pointer", PropertyKind::Fixed(size))
        },
        TDH_INTYPE_FILETIME => ("filetime", PropertyKind::Fixed(8)),
        TDH_INTYPE_SYSTEMTIME => ("systemtime", PropertyKind::Fixed(16)),
        TDH_INTYPE_GUID => ("guid", PropertyKind::Fixed(16)),
        TDH_INTYPE_ANSISTRING | TDH_INTYPE_NONNULLTERMINATEDANSISTRING => ("string", PropertyKind::AnsiString),
        TDH_INTYPE_UNICODESTRING | TDH_INTYPE_NONNULLTERMINATEDSTRING => ("wstring", PropertyKind::Utf16String),
        TDH_INTYPE_SID => ("sid", PropertyKind::VariableBlob),
        TDH_INTYPE_BINARY => ("binary", PropertyKind::VariableBlob),
        TDH_INTYPE_COUNTEDSTRING | TDH_INTYPE_REVERSEDCOUNTEDSTRING => ("counted_string", PropertyKind::CountedString),
        _ => ("unsupported", PropertyKind::VariableBlob),
    }
}

/// Returns what a property type is called.
pub fn intype_to_type_name(in_type: i32) -> (label: &'static str)
    ensures
        label@ == type_label_of(in_type),
{
    match in_type {
        TDH_INTYPE_INT8 => "s8",
        TDH_INTYPE_UINT8 | TDH_INTYPE_BOOLEAN => "u8",
        TDH_INTYPE_INT16 => "s16",
        TDH_INTYPE_UINT16 => "u16",
        TDH_INTYPE_INT32 | TDH_INTYPE_HEXINT32 => "s32",
        TDH_INTYPE_UINT32 => "u32",
        TDH_INTYPE_INT64 | TDH_INTYPE_HEXINT64 => "s64",
        TDH_INTYPE_UINT64 => "u64",
        TDH_INTYPE_FLOAT => "f32",
        TDH_INTYPE_DOUBLE => "f64",
        TDH_INTYPE_POINTER => "pointer",
        TDH_INTYPE_FILETIME => "filetime",
        TDH_INTYPE_SYSTEMTIME => "systemtime",
        TDH_INTYPE_GUID => "guid",
        TDH_INTYPE_ANSISTRING | TDH_INTYPE_NONNULLTERMINATEDANSISTRING => "string",
        TDH_INTYPE_UNICODESTRING | TDH_INTYPE_NONNULLTERMINATEDSTRING => "wstring",
        TDH_INTYPE_SID => "sid",
        TDH_INTYPE_BINARY => "binary",
        TDH_INTYPE_COUNTEDSTRING | TDH_INTYPE_REVERSEDCOUNTEDSTRING => "counted_string",
        _ => "unsupported",
    }
}

/// Pointers are the only properties whose bytes depend on the pointer width of
/// the event, and they only where the table gives them no length.
pub proof fn law_only_pointers_depend_on_width(in_type: i32, property: PropertyInfo)
    requires
        in_type != TDH_INTYPE_POINTER || explicit_length(property) is Some,
    ensures
        cached_kind(in_type, true, property) == cached_kind(in_type, false, property),
{
}

/// The flags are single bits of the number: whether a property is a struct, an
/// array, or one whose length another holds goes by bits 0, 2, 3 and 4, and the
/// other bits have no part in it.
pub proof fn law_flags_are_single_bits(property: PropertyInfo)
    ensures
        is_struct(property) == (property.flags & 1i32 == 1i32),
        is_array(property) == ((property.flags >> 3i32) & 1i32 == 1i32 && property.count != 1),
        is_param_driven(property) == ((property.flags >> 2i32) & 1i32 == 1i32 && (property.flags
            >> 4i32) & 1i32 == 1i32),
        explicit_length(property) is Some == ((property.flags >> 2i32) & 1i32 == 1i32 && (
        property.flags >> 4i32) & 1i32 == 0i32 && property.length != 0),
{
    let flags = property.flags;
    assert((flags & 1i32 != 0) == (flags & 1i32 == 1i32)) by (bit_vector);
    assert((flags & 4i32 != 0) == ((flags >> 2i32) & 1i32 == 1i32)) by (bit_vector);
    assert((flags & 8i32 != 0) == ((flags >> 3i32) & 1i32 == 1i32)) by (bit_vector);
    assert((flags & 0x10i32 != 0) == ((flags >> 4i32) & 1i32 == 1i32)) by (bit_vector);
    assert((flags & 0x10i32 == 0) == ((flags >> 4i32) & 1i32 == 0i32)) by (bit_vector);
}

/// A length that the table gives is the size of the property, whatever the
/// length, the type and the pointer width. Where it gives none, the type alone
/// decides.
pub proof fn law_given_length_is_the_size(
    in_type: i32,
    is_32bit: bool,
    property: PropertyInfo,
    other: PropertyInfo,
)
    ensures
        (property.flags >> 2i32) & 1i32 == 1i32 && (property.flags >> 4i32) & 1i32 == 0i32
            && property.length != 0 ==> cached_kind(in_type, is_32bit, property)
            == PropertyKind::Fixed(property.length as usize) && explicit_length(property) == Some(
            property.length as usize,
        ),
        explicit_length(property) is None && explicit_length(other) is None ==> cached_kind(
            in_type,
            is_32bit,
            property,
        ) == cached_kind(in_type, is_32bit, other),
        explicit_length(property) is None ==> cached_kind(in_type, is_32bit, property)
            == intype_kind(in_type, is_32bit),
{
    law_flags_are_single_bits(property);
}

/// The names and sizes of the types by their numbers, for each type and both
/// pointer widths. Every other number is an unsupported type, whose bytes go to
/// the end of the payload.
pub proof fn law_types_by_number(in_type: i32, is_32bit: bool)
    ensures
        in_type == 3 ==> type_label_of(in_type) == "s8"@ && intype_kind(in_type, is_32bit)
            == PropertyKind::Fixed(1),
        (in_type == 4 || in_type == 13) ==> type_label_of(in_type) == "u8"@ && intype_kind(in_type, is_32bit)
            == PropertyKind::Fixed(1),
        in_type == 5 ==> type_label_of(in_type) == "s16"@ && intype_kind(in_type, is_32bit)
            == PropertyKind::Fixed(2),
        in_type == 6 ==> type_label_of(in_type) == "u16"@ && intype_kind(in_type, is_32bit)
            == PropertyKind::Fixed(2),
        (in_type == 7 || in_type == 20) ==> type_label_of(in_type) == "s32"@ && intype_kind(in_type, is_32bit)
            == PropertyKind::Fixed(4),
        in_type == 8 ==> type_label_of(in_type) == "u32"@ && intype_kind(in_type, is_32bit)
            == PropertyKind::Fixed(4),
        (in_type == 9 || in_type == 21) ==> type_label_of(in_type) == "s64"@ && intype_kind(in_type, is_32bit)
            == PropertyKind::Fixed(8),
        in_type == 10 ==> type_label_of(in_type) == "u64"@ && intype_kind(in_type, is_32bit)
            == PropertyKind::Fixed(8),
        in_type == 11 ==> type_label_of(in_type) == "f32"@ && intype_kind(in_type, is_32bit)
            == PropertyKind::Fixed(4),
        in_type == 12 ==> type_label_of(in_type) == "f64"@ && intype_kind(in_type, is_32bit)
            == PropertyKind::Fixed(8),
        in_type == 16 ==> type_label_of(in_type) == "pointer"@ && intype_kind(in_type, is_32bit)
            == PropertyKind::Fixed(if is_32bit { 4 } else { 8 }),
        in_type == 17 ==> type_label_of(in_type) == "filetime"@ && intype_kind(in_type, is_32bit)
            == PropertyKind::Fixed(8),
        in_type == 18 ==> type_label_of(in_type) == "systemtime"@ && intype_kind(in_type, is_32bit)
            == PropertyKind::Fixed(16),
        in_type == 15 ==> type_label_of(in_type) == "guid"@ && intype_kind(in_type, is_32bit)
            == PropertyKind::Fixed(16),
        (in_type == 2 || in_type == 305) ==> type_label_of(in_type) == "string"@ && intype_kind(in_type, is_32bit)
            == PropertyKind::AnsiString,
        (in_type == 1 || in_type == 304) ==> type_label_of(in_type) == "wstring"@ && intype_kind(in_type, is_32bit)
            == PropertyKind::Utf16String,
        in_type == 19 ==> type_label_of(in_type) == "sid"@ && intype_kind(in_type, is_32bit)
            == PropertyKind::VariableBlob,
        in_type == 14 ==> type_label_of(in_type) == "binary"@ && intype_kind(in_type, is_32bit)
            == PropertyKind::VariableBlob,
        (in_type == 300 || in_type == 302) ==> type_label_of(in_type) == "counted_string"@ && intype_kind(in_type, is_32bit)
            == PropertyKind::CountedString,
        !(1 <= in_type <= 21) && in_type != 300 && in_type != 302 && in_type != 304 && in_type != 305
            ==> type_label_of(in_type) == "unsupported"@ && intype_kind(in_type, is_32bit)
            == PropertyKind::VariableBlob,
{
}

} // verus!
