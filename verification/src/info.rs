//! The event information: one block of bytes that describes the properties of
//! an event.
//!
//! A header stands first, then the property table, then the texts that header
//! and table refer to by their byte offset in the block. All numbers are
//! little-endian.

use vstd::prelude::*;
use vstd::slice::slice_subrange;

use crate::scan::{is_first_nul_pair, is_nul_pair, utf16_extent};

verus! {

/// Bytes of the header, which is `TRACE_EVENT_INFO` of the Windows SDK. They
/// count the room for one property with which that struct ends; the property
/// table is the one behind it.
pub const TRACE_EVENT_INFO_SIZE: usize = 136;

/// Bytes of one entry of the property table, which is `EVENT_PROPERTY_INFO` of
/// the Windows SDK.
pub const EVENT_PROPERTY_INFO_SIZE: usize = 24;

/// Where the header holds the offset of the event name.
pub const EVENT_NAME_OFFSET_POS: usize = 92;

/// Where the header holds the number of entries of the property table.
pub const PROPERTY_COUNT_POS: usize = 100;

/// Where the header holds the number of entries that stand in no struct.
pub const TOP_LEVEL_PROPERTY_COUNT_POS: usize = 104;

/// One entry of the property table.
#[derive(Clone, Copy, Debug, PartialEq, Eq, Structural)]
pub struct PropertyInfo {
    /// What kind of property it is and which of the numbers below count.
    pub flags: i32,
    /// Where the property's name stands.
    pub name_offset: u32,
    /// Type of a leaf property. Its bytes are those of `struct_start`.
    pub in_type: u16,
    /// Index of the first member of a struct property.
    pub struct_start: u16,
    /// Number of members of a struct property.
    pub struct_members: u16,
    /// Number of elements.
    pub count: u16,
    /// Length in bytes, or index of the property that holds it.
    pub length: u16,
}

/// The 16-bit number at position `at`.
pub open spec fn le_u16(bytes: Seq<u8>, at: int) -> int {
    bytes[at] + 0x100 * bytes[at + 1]
}

/// The 32-bit number at position `at`.
pub open spec fn le_u32(bytes: Seq<u8>, at: int) -> int {
    le_u16(bytes, at) + 0x1_0000 * le_u16(bytes, at + 2)
}

/// How many entries the header says that the property table has.
pub open spec fn property_count(info: Seq<u8>) -> int {
    le_u32(info, PROPERTY_COUNT_POS as int)
}

/// How many of the entries the header says to stand in no struct.
pub open spec fn top_level_count(info: Seq<u8>) -> int {
    le_u32(info, TOP_LEVEL_PROPERTY_COUNT_POS as int)
}

/// Where the `i`-th entry of the property table begins.
pub open spec fn property_pos(i: int) -> int {
    TRACE_EVENT_INFO_SIZE + EVENT_PROPERTY_INFO_SIZE * i
}

/// The `i`-th entry of the property table.
pub open spec fn property_at(info: Seq<u8>, i: int) -> PropertyInfo {
    let at = property_pos(i);
    PropertyInfo {
        flags: le_u32(info, at) as u32 as i32,
        name_offset: le_u32(info, at + 4) as u32,
        in_type: le_u16(info, at + 8) as u16,
        struct_start: le_u16(info, at + 8) as u16,
        struct_members: le_u16(info, at + 10) as u16,
        count: le_u16(info, at + 16) as u16,
        length: le_u16(info, at + 18) as u16,
    }
}

/// The property table.
pub open spec fn property_table(info: Seq<u8>) -> Seq<PropertyInfo> {
    Seq::new(property_count(info) as nat, |i: int| property_at(info, i))
}

/// Reads the 16-bit number at position `at`.
pub fn read_u16(bytes: &[u8], at: usize) -> (value: u16)
    requires
        at + 2 <= bytes@.len(),
    ensures
        value == le_u16(bytes@, at as int),
{
    bytes[at] as u16 + 0x100 * bytes[at + 1] as u16
}

/// Reads the 32-bit number at position `at`.
pub fn read_u32(bytes: &[u8], at: usize) -> (value: u32)
    requires
        at + 4 <= bytes@.len(),
    ensures
        value == le_u32(bytes@, at as int),
{
    assert(bytes.len() == bytes@.len());
    read_u16(bytes, at) as u32 + 0x1_0000 * read_u16(bytes, at + 2) as u32
}

/// Reads the `i`-th entry of the property table.
fn read_property(info: &[u8], i: usize) -> (property: PropertyInfo)
    requires
        property_pos(i + 1) <= info@.len(),
    ensures
        property == property_at(info@, i as int),
{
    assert(info.len() == info@.len());
    let at: usize = TRACE_EVENT_INFO_SIZE + EVENT_PROPERTY_INFO_SIZE * i;
    PropertyInfo {
        flags: read_u32(info, at) as i32,
        name_offset: read_u32(info, at + 4),
        in_type: read_u16(info, at + 8),
        struct_start: read_u16(info, at + 8),
        struct_members: read_u16(info, at + 10),
        count: read_u16(info, at + 16),
        length: read_u16(info, at + 18),
    }
}

/// Reads the property table, which must lie within the block.
pub(crate) fn read_properties(info: &[u8]) -> (properties: Vec<PropertyInfo>)
    requires
        TRACE_EVENT_INFO_SIZE <= info@.len(),
        property_pos(property_count(info@)) <= info@.len(),
    ensures
        properties@ == property_table(info@),
{
    let count: usize = read_u32(info, PROPERTY_COUNT_POS) as usize;
    let mut properties: Vec<PropertyInfo> = Vec::new();
    let mut i: usize = 0;
    while i < count
        invariant
            i <= count,
            count == property_count(info@),
            property_pos(count as int) <= info@.len(),
            properties@ == property_table(info@).take(i as int),
        decreases count - i,
    {
        properties.push(read_property(info, i));
        i += 1;
        assert(properties@ =~= property_table(info@).take(i as int));
    }
    assert(property_table(info@).take(count as int) =~= property_table(info@));
    properties
}

/// A UTF-16 code unit that stands for half of a character.
pub open spec fn is_surrogate(unit: u16) -> bool {
    0xD800 <= unit <= 0xDFFF
}

/// `high` and `low` together stand for one character.
pub open spec fn is_surrogate_pair(high: u16, low: u16) -> bool {
    0xD800 <= high <= 0xDBFF && 0xDC00 <= low <= 0xDFFF
}

/// The character that a surrogate pair stands for.
pub open spec fn surrogate_pair_char(high: u16, low: u16) -> char {
    (0x1_0000 + 0x400 * (high - 0xD800) + (low - 0xDC00)) as char
}

/// The text of a sequence of UTF-16 code units, with the replacement character
/// for each surrogate that is not part of a pair.
pub open spec fn utf16_lossy(units: Seq<u16>) -> Seq<char>
    decreases units.len(),
{
    if units.len() == 0 {
        Seq::empty()
    } else if !is_surrogate(units[0]) {
        seq![units[0] as char] + utf16_lossy(units.skip(1))
    } else if units.len() >= 2 && is_surrogate_pair(units[0], units[1]) {
        seq![surrogate_pair_char(units[0], units[1])] + utf16_lossy(units.skip(2))
    } else {
        seq!['\u{FFFD}'] + utf16_lossy(units.skip(1))
    }
}

/// The text of `units`.
///
/// Calls `String::from_utf16_lossy`. Its contract claims that each code unit
/// outside the surrogates gives its own character, that a high surrogate with a
/// low one behind it gives their common character, and that every other
/// surrogate gives the replacement character.
#[verifier::external_body]
fn text_from_utf16(units: &[u16]) -> (text: String)
    ensures
        text@ == utf16_lossy(units@),
{
    String::from_utf16_lossy(units)
}

/// The number of UTF-16 code units of `data` that stand before its first null
/// one; of all whole units where no null stands in it.
pub open spec fn units_before_nul(data: Seq<u8>) -> int {
    if exists|k: int| is_first_nul_pair(data, k) {
        choose|k: int| is_first_nul_pair(data, k)
    } else {
        data.len() as int / 2
    }
}

/// The UTF-16 code units of `data` before its first null one.
pub open spec fn text_units(data: Seq<u8>) -> Seq<u16> {
    Seq::new(units_before_nul(data) as nat, |k: int| le_u16(data, 2 * k) as u16)
}

/// The null-terminated text at position `at` of the block. Position 0 and those
/// past the end hold no text.
pub open spec fn text_at(block: Seq<u8>, at: int) -> Seq<char> {
    if at == 0 || at >= block.len() {
        Seq::empty()
    } else {
        utf16_lossy(text_units(block.skip(at)))
    }
}

/// The name of the event that the block describes.
pub open spec fn event_name_of(info: Seq<u8>) -> Seq<char> {
    if info.len() < EVENT_NAME_OFFSET_POS + 4 {
        Seq::empty()
    } else {
        text_at(info, le_u32(info, EVENT_NAME_OFFSET_POS as int))
    }
}

/// Reads the UTF-16 code units of `data` before its first null one.
fn read_text_units(data: &[u8]) -> (units: Vec<u16>)
    ensures
        units@ == text_units(data@),
{
    let mut units: Vec<u16> = Vec::new();
    let mut pos: usize = 0;
    while pos < data.len() && data.len() - pos > 1
        invariant
            pos <= data@.len(),
            pos % 2 == 0,
            units@.len() == pos as int / 2,
            forall|k: int| 0 <= k < pos as int / 2 ==> !#[trigger] is_nul_pair(data@, k),
            forall|k: int| 0 <= k < pos as int / 2 ==> units@[k] == le_u16(data@, 2 * k),
        decreases data@.len() - pos,
    {
        let unit: u16 = read_u16(data, pos);
        if unit == 0 {
            assert(is_first_nul_pair(data@, pos as int / 2));
            assert(units@ =~= text_units(data@));
            return units;
        }
        units.push(unit);
        pos += 2;
    }
    assert forall|k: int| !is_first_nul_pair(data@, k) by {
        if is_first_nul_pair(data@, k) {
            assert(is_nul_pair(data@, k));
        }
    }
    assert(units@ =~= text_units(data@));
    units
}

/// Reads the null-terminated UTF-16LE text at `byte_offset` of `buf`. There is
/// none at offset 0 nor past the end.
pub fn read_utf16_at(buf: &[u8], byte_offset: usize) -> (text: String)
    ensures
        text@ == text_at(buf@, byte_offset as int),
{
    if byte_offset == 0 || byte_offset >= buf.len() {
        return String::new();
    }
    let rest = slice_subrange(buf, byte_offset, buf.len());
    assert(rest@ =~= buf@.skip(byte_offset as int));
    let units = read_text_units(rest);
    text_from_utf16(units.as_slice())
}

/// Reads the name of the event that the block describes.
pub fn read_event_name(info: &[u8]) -> (name: String)
    ensures
        name@ == event_name_of(info@),
{
    if info.len() < EVENT_NAME_OFFSET_POS + 4 {
        return String::new();
    }
    read_utf16_at(info, read_u32(info, EVENT_NAME_OFFSET_POS) as usize)
}

/// Reads the name of a property.
pub fn read_property_name(info: &[u8], property: &PropertyInfo) -> (name: String)
    ensures
        name@ == text_at(info@, property.name_offset as int),
{
    read_utf16_at(info, property.name_offset as usize)
}

/// The UTF-16 code units of a character.
pub open spec fn char_units(c: char) -> Seq<u16> {
    let n = c as int;
    if n < 0x1_0000 {
        seq![n as u16]
    } else {
        seq![
            (0xD800 + (n - 0x1_0000) / 0x400) as u16,
            (0xDC00 + (n - 0x1_0000) % 0x400) as u16,
        ]
    }
}

/// A text in UTF-16.
pub open spec fn utf16_units(text: Seq<char>) -> Seq<u16>
    decreases text.len(),
{
    if text.len() == 0 {
        Seq::empty()
    } else {
        char_units(text[0]) + utf16_units(text.skip(1))
    }
}

/// Code units as bytes, the low byte of each first.
pub open spec fn unit_bytes(units: Seq<u16>) -> Seq<u8> {
    Seq::new(
        2 * units.len(),
        |i: int|
            if i % 2 == 0 {
                (units[i / 2] as int % 0x100) as u8
            } else {
                (units[i / 2] as int / 0x100) as u8
            },
    )
}

/// The code units of a character give it back, and are null only for the null
/// character.
proof fn lemma_char_units(c: char)
    ensures
        (c as int) < 0x1_0000 ==> {
            &&& char_units(c).len() == 1
            &&& !is_surrogate(char_units(c)[0])
            &&& char_units(c)[0] as char == c
        },
        c as int >= 0x1_0000 ==> {
            &&& char_units(c).len() == 2
            &&& is_surrogate_pair(char_units(c)[0], char_units(c)[1])
            &&& surrogate_pair_char(char_units(c)[0], char_units(c)[1]) == c
        },
        c != '\0' ==> forall|k: int| 0 <= k < char_units(c).len() ==> char_units(c)[k] != 0,
{
}

/// UTF-16 loses nothing: the text of a text's code units is that text.
pub proof fn law_utf16_units_give_the_text(text: Seq<char>)
    ensures
        utf16_lossy(utf16_units(text)) == text,
    decreases text.len(),
{
    if text.len() > 0 {
        let others = utf16_units(text.skip(1));
        let units = utf16_units(text);
        law_utf16_units_give_the_text(text.skip(1));
        lemma_char_units(text[0]);
        if (text[0] as int) < 0x1_0000 {
            assert(units.skip(1) =~= others);
        } else {
            assert(units.skip(2) =~= others);
        }
        assert(seq![text[0]] + text.skip(1) =~= text);
    } else {
        assert(utf16_lossy(utf16_units(text)) =~= text);
    }
}

/// Only a null character has a null code unit.
proof fn lemma_no_nul_units(text: Seq<char>, k: int)
    requires
        !text.contains('\0'),
        0 <= k < utf16_units(text).len(),
    ensures
        utf16_units(text)[k] != 0,
    decreases text.len(),
{
    let first = char_units(text[0]);
    assert(text.contains(text[0]));
    lemma_char_units(text[0]);
    if k >= first.len() {
        assert(!text.skip(1).contains('\0')) by {
            assert forall|i: int| 0 <= i < text.len() - 1 implies text.skip(1)[i] != '\0' by {
                assert(text.contains(text[i + 1]));
            }
        }
        lemma_no_nul_units(text.skip(1), k - first.len());
    }
}

/// Code units without a null are read back from their bytes, up to a null unit
/// that follows them.
proof fn lemma_units_read_back(units: Seq<u16>, tail: Seq<u8>)
    requires
        forall|k: int| 0 <= k < units.len() ==> units[k] != 0,
    ensures
        text_units(unit_bytes(units) + seq![0u8, 0u8] + tail) == units,
{
    let data = unit_bytes(units) + seq![0u8, 0u8] + tail;
    let n = units.len() as int;
    assert forall|k: int| 0 <= k < n implies le_u16(data, 2 * k) == units[k] && !#[trigger] is_nul_pair(
        data,
        k,
    ) by {
        assert(data[2 * k] == unit_bytes(units)[2 * k]);
        assert(data[2 * k + 1] == unit_bytes(units)[2 * k + 1]);
        assert(units[k] != 0);
    }
    assert(is_nul_pair(data, n));
    assert(is_first_nul_pair(data, n));
    let found = choose|k: int| is_first_nul_pair(data, k);
    assert(is_first_nul_pair(data, found));
    assert(found == n) by {
        if found < n {
            assert(!is_nul_pair(data, found));
        } else if n < found {
            assert(!is_nul_pair(data, n));
        }
    }
    assert forall|k: int| 0 <= k < n implies text_units(data)[k] == units[k] by {
        assert(!is_nul_pair(data, k));
    }
    assert(text_units(data) =~= units);
}

/// A text without a null character that stands in a block as null-terminated
/// UTF-16 is read back exactly. What stands before and behind it, and whether it
/// begins at an even position, has no part in that.
pub proof fn law_encoded_text_is_read_back(junk: Seq<u8>, text: Seq<char>, tail: Seq<u8>)
    requires
        junk.len() > 0,
        !text.contains('\0'),
    ensures
        text_at(
            junk + unit_bytes(utf16_units(text)) + seq![0u8, 0u8] + tail,
            junk.len() as int,
        ) == text,
{
    let units = utf16_units(text);
    let block = junk + unit_bytes(units) + seq![0u8, 0u8] + tail;
    assert(block.skip(junk.len() as int) =~= unit_bytes(units) + seq![0u8, 0u8] + tail);
    assert forall|k: int| 0 <= k < units.len() implies units[k] != 0 by {
        lemma_no_nul_units(text, k);
    }
    lemma_units_read_back(units, tail);
    law_utf16_units_give_the_text(text);
}

/// A 16-bit number as bytes, the low one first.
pub open spec fn u16_bytes(n: u16) -> Seq<u8> {
    seq![(n % 0x100) as u8, (n / 0x100) as u8]
}

/// A 32-bit number as bytes, the lowest first.
pub open spec fn u32_bytes(n: u32) -> Seq<u8> {
    seq![
        (n % 0x100) as u8,
        (n / 0x100 % 0x100) as u8,
        (n / 0x1_0000 % 0x100) as u8,
        (n / 0x100_0000) as u8,
    ]
}

/// The bytes of an entry of the property table.
pub open spec fn entry_bytes(
    flags: u32,
    name_offset: u32,
    first: u16,
    second: u16,
    map_offset: u32,
    count: u16,
    length: u16,
    reserved: u32,
) -> Seq<u8> {
    u32_bytes(flags) + u32_bytes(name_offset) + u16_bytes(first) + u16_bytes(second) + u32_bytes(
        map_offset,
    ) + u16_bytes(count) + u16_bytes(length) + u32_bytes(reserved)
}

/// A number that was written is read back, wherever it stands.
pub proof fn law_numbers_are_read_back(bytes: Seq<u8>, at: int, small: u16, large: u32)
    requires
        0 <= at,
    ensures
        at + 2 <= bytes.len() && bytes.subrange(at, at + 2) == u16_bytes(small) ==> le_u16(bytes, at)
            == small,
        at + 4 <= bytes.len() && bytes.subrange(at, at + 4) == u32_bytes(large) ==> le_u32(bytes, at)
            == large,
{
    if at + 2 <= bytes.len() && bytes.subrange(at, at + 2) == u16_bytes(small) {
        let part = bytes.subrange(at, at + 2);
        assert(part[0] == bytes[at] && part[1] == bytes[at + 1]);
    }
    if at + 4 <= bytes.len() && bytes.subrange(at, at + 4) == u32_bytes(large) {
        let part = bytes.subrange(at, at + 4);
        assert(part[0] == bytes[at] && part[1] == bytes[at + 1] && part[2] == bytes[at + 2]
            && part[3] == bytes[at + 3]);
    }
}

/// The counts that the header holds are those that were written there.
pub proof fn law_counts_are_read_back(info: Seq<u8>, count: u32, top_level: u32)
    requires
        info.len() >= 136,
        info.subrange(100, 104) == u32_bytes(count),
        info.subrange(104, 108) == u32_bytes(top_level),
    ensures
        property_count(info) == count,
        property_table(info).len() == count,
        top_level_count(info) == top_level,
{
    law_numbers_are_read_back(info, 100, 0, count);
    law_numbers_are_read_back(info, 104, 0, top_level);
}

/// An entry that was written into the property table is read back, field by
/// field, whichever entry it is. The entries stand one behind the other, 24
/// bytes each, from position 136 on.
pub proof fn law_entries_are_read_back(
    info: Seq<u8>,
    total: u32,
    i: int,
    flags: u32,
    name_offset: u32,
    first: u16,
    second: u16,
    map_offset: u32,
    count: u16,
    length: u16,
    reserved: u32,
)
    requires
        0 <= i < total,
        136 + 24 * total <= info.len(),
        info.subrange(100, 104) == u32_bytes(total),
        info.subrange(136 + 24 * i, 136 + 24 * i + 24) == entry_bytes(
            flags,
            name_offset,
            first,
            second,
            map_offset,
            count,
            length,
            reserved,
        ),
    ensures
        property_table(info).len() == total,
        property_table(info)[i].flags == flags as i32,
        property_table(info)[i].name_offset == name_offset,
        property_table(info)[i].in_type == first,
        property_table(info)[i].struct_start == first,
        property_table(info)[i].struct_members == second,
        property_table(info)[i].count == count,
        property_table(info)[i].length == length,
{
    let at = 136 + 24 * i;
    let entry = info.subrange(at, at + 24);
    assert(info.subrange(at, at + 4) =~= u32_bytes(flags)) by {
        assert(info.subrange(at, at + 4) =~= entry.subrange(0, 4));
        assert(entry.subrange(0, 4) =~= u32_bytes(flags));
    }
    assert(info.subrange(at + 4, at + 8) =~= u32_bytes(name_offset)) by {
        assert(info.subrange(at + 4, at + 8) =~= entry.subrange(4, 8));
        assert(entry.subrange(4, 8) =~= u32_bytes(name_offset));
    }
    assert(info.subrange(at + 8, at + 10) =~= u16_bytes(first)) by {
        assert(info.subrange(at + 8, at + 10) =~= entry.subrange(8, 10));
        assert(entry.subrange(8, 10) =~= u16_bytes(first));
    }
    assert(info.subrange(at + 10, at + 12) =~= u16_bytes(second)) by {
        assert(info.subrange(at + 10, at + 12) =~= entry.subrange(10, 12));
        assert(entry.subrange(10, 12) =~= u16_bytes(second));
    }
    assert(info.subrange(at + 16, at + 18) =~= u16_bytes(count)) by {
        assert(info.subrange(at + 16, at + 18) =~= entry.subrange(16, 18));
        assert(entry.subrange(16, 18) =~= u16_bytes(count));
    }
    assert(info.subrange(at + 18, at + 20) =~= u16_bytes(length)) by {
        assert(info.subrange(at + 18, at + 20) =~= entry.subrange(18, 20));
        assert(entry.subrange(18, 20) =~= u16_bytes(length));
    }
    law_numbers_are_read_back(info, 100, 0, total);
    law_numbers_are_read_back(info, at, 0, flags);
    law_numbers_are_read_back(info, at + 4, 0, name_offset);
    law_numbers_are_read_back(info, at + 8, first, 0);
    law_numbers_are_read_back(info, at + 10, second, 0);
    law_numbers_are_read_back(info, at + 16, count, 0);
    law_numbers_are_read_back(info, at + 18, length, 0);
}

/// A text that stands in the information as null-terminated UTF-16, at the
/// position that the header holds at 92, is the event's name, whatever its
/// length and whatever follows.
pub proof fn law_encoded_event_name_is_read_back(before: Seq<u8>, text: Seq<char>, tail: Seq<u8>)
    requires
        0 < before.len() <= u32::MAX,
        !text.contains('\0'),
        (before + unit_bytes(utf16_units(text)) + seq![0u8, 0u8] + tail).len() >= 96,
        (before + unit_bytes(utf16_units(text)) + seq![0u8, 0u8] + tail).subrange(92, 96)
            == u32_bytes(before.len() as u32),
    ensures
        event_name_of(before + unit_bytes(utf16_units(text)) + seq![0u8, 0u8] + tail) == text,
{
    let info = before + unit_bytes(utf16_units(text)) + seq![0u8, 0u8] + tail;
    law_numbers_are_read_back(info, 92, 0, before.len() as u32);
    law_encoded_text_is_read_back(before, text, tail);
}

/// There is no event name where the header does not hold its position, nor where
/// that is 0 or past the end; nor is there any text at such a position.
pub proof fn law_no_text_outside(info: Seq<u8>, at: u32)
    requires
        at == 0 || at >= info.len(),
    ensures
        text_at(info, at as int).len() == 0,
        info.len() < 96 ==> event_name_of(info).len() == 0,
        info.len() >= 96 && info.subrange(92, 96) == u32_bytes(at) ==> event_name_of(info).len()
            == 0,
{
    if info.len() >= 96 {
        law_numbers_are_read_back(info, 92, 0, at);
    }
}

/// A text without a terminator is read to the end of the block, but for a last
/// byte that is half a code unit.
pub proof fn law_unterminated_text_is_read_to_the_end(
    junk: Seq<u8>,
    text: Seq<char>,
    half: Seq<u8>,
)
    requires
        junk.len() > 0,
        !text.contains('\0'),
        half.len() <= 1,
    ensures
        text_at(junk + unit_bytes(utf16_units(text)) + half, junk.len() as int) == text,
{
    let units = utf16_units(text);
    let block = junk + unit_bytes(units) + half;
    let data = unit_bytes(units) + half;
    law_utf16_units_give_the_text(text);
    if junk.len() >= block.len() {
        assert(units.len() == 0);
        assert(units =~= Seq::empty());
        assert(text =~= Seq::empty());
    } else {
        assert(block.skip(junk.len() as int) =~= data);
        assert forall|k: int| 0 <= k < units.len() implies units[k] != 0 by {
            lemma_no_nul_units(text, k);
        }
        lemma_units_of_unterminated(units, half);
    }
}

/// Code units without a null and without one behind them are read back from
/// their bytes.
proof fn lemma_units_of_unterminated(units: Seq<u16>, half: Seq<u8>)
    requires
        forall|k: int| 0 <= k < units.len() ==> units[k] != 0,
        half.len() <= 1,
    ensures
        text_units(unit_bytes(units) + half) == units,
        forall|k: int| !is_first_nul_pair(unit_bytes(units) + half, k),
{
    let data = unit_bytes(units) + half;
    assert forall|k: int| 0 <= k < units.len() implies le_u16(data, 2 * k) == units[k]
        && !#[trigger] is_nul_pair(data, k) by {
        assert(data[2 * k] == unit_bytes(units)[2 * k]);
        assert(data[2 * k + 1] == unit_bytes(units)[2 * k + 1]);
        assert(units[k] != 0);
    }
    assert forall|k: int| !is_first_nul_pair(data, k) by {
        if is_first_nul_pair(data, k) {
            assert(is_nul_pair(data, k));
        }
    }
    assert forall|k: int| 0 <= k < units.len() implies text_units(data)[k] == units[k] by {
        assert(!is_nul_pair(data, k));
    }
    assert(text_units(data) =~= units);
}

/// A UTF-16 string takes two bytes for each code unit and two for its
/// terminator, whatever its length and whatever follows. One without a
/// terminator takes all there is.
pub proof fn law_utf16_string_takes_its_units(units: Seq<u16>, tail: Seq<u8>, half: Seq<u8>)
    requires
        forall|k: int| 0 <= k < units.len() ==> units[k] != 0,
        half.len() <= 1,
    ensures
        utf16_extent(unit_bytes(units) + seq![0u8, 0u8] + tail) == 2 * units.len() + 2,
        utf16_extent(unit_bytes(units) + half) == 2 * units.len() + half.len(),
{
    let data = unit_bytes(units) + seq![0u8, 0u8] + tail;
    lemma_units_read_back(units, tail);
    lemma_units_of_unterminated(units, half);
    let found = choose|k: int| is_first_nul_pair(data, k);
    assert(is_first_nul_pair(data, found));
    assert(text_units(data).len() == found);
}

/// The text of code units that begin with those of a text is that text and then
/// the text of the others.
pub proof fn law_text_then_the_rest(text: Seq<char>, rest: Seq<u16>)
    ensures
        utf16_lossy(utf16_units(text) + rest) == text + utf16_lossy(rest),
    decreases text.len(),
{
    if text.len() == 0 {
        assert(utf16_units(text) + rest =~= rest);
        assert(text + utf16_lossy(rest) =~= utf16_lossy(rest));
    } else {
        let others = utf16_units(text.skip(1));
        let units = utf16_units(text) + rest;
        law_text_then_the_rest(text.skip(1), rest);
        lemma_char_units(text[0]);
        if (text[0] as int) < 0x1_0000 {
            assert(units.skip(1) =~= others + rest);
        } else {
            assert(units.skip(2) =~= others + rest);
        }
        assert(seq![text[0]] + (text.skip(1) + utf16_lossy(rest)) =~= text + utf16_lossy(rest));
    }
}

/// A surrogate without its other half gives one replacement character, and what
/// stands before and behind it is read as it would be without it.
pub proof fn law_lone_surrogate_is_replaced(text: Seq<char>, unit: u16, rest: Seq<u16>)
    requires
        0xD800 <= unit <= 0xDFFF,
        unit >= 0xDC00 || rest.len() == 0 || rest[0] < 0xDC00 || rest[0] > 0xDFFF,
    ensures
        utf16_lossy(utf16_units(text) + (seq![unit] + rest)) == text + seq!['\u{FFFD}']
            + utf16_lossy(rest),
{
    law_text_then_the_rest(text, seq![unit] + rest);
    let units = seq![unit] + rest;
    assert(units.skip(1) =~= rest);
    assert(units.len() >= 2 ==> units[1] == rest[0]);
    assert(text + (seq!['\u{FFFD}'] + utf16_lossy(rest)) =~= text + seq!['\u{FFFD}']
        + utf16_lossy(rest));
}

/// Code units without a null among them that stand in a block before a null one
/// are read as their text, wherever they stand and whatever follows.
pub proof fn law_units_are_read_as_their_text(junk: Seq<u8>, units: Seq<u16>, tail: Seq<u8>)
    requires
        junk.len() > 0,
        forall|k: int| 0 <= k < units.len() ==> units[k] != 0,
    ensures
        text_at(junk + unit_bytes(units) + seq![0u8, 0u8] + tail, junk.len() as int) == utf16_lossy(
            units,
        ),
{
    let block = junk + unit_bytes(units) + seq![0u8, 0u8] + tail;
    assert(block.skip(junk.len() as int) =~= unit_bytes(units) + seq![0u8, 0u8] + tail);
    lemma_units_read_back(units, tail);
}

} // verus!
