//! Decoded events: a payload and the fields that it is made of.

use vstd::prelude::*;

verus! {

/// Where the bytes of a field stand.
#[derive(Clone, Copy, Debug, PartialEq, Eq, Structural)]
pub enum LocationType {
    /// At the field's offset in the payload.
    Static,
}

/// One field of an event.
#[derive(Debug)]
pub struct EventField {
    /// Dot-notation qualified name.
    pub name: String,
    /// Name of the field's type.
    pub type_label: String,
    /// Where the field's bytes stand.
    pub location: LocationType,
    /// Where the field begins, in bytes from the start of the payload.
    pub offset: usize,
    /// How many bytes the field takes.
    pub size: usize,
}

/// What a field says, as a mathematical value.
pub struct FieldModel {
    /// Dot-notation qualified name.
    pub name: Seq<char>,
    /// Name of the field's type.
    pub type_label: Seq<char>,
    /// Where the field's bytes stand.
    pub location: LocationType,
    /// Where the field begins.
    pub offset: int,
    /// How many bytes the field takes.
    pub size: int,
}

impl View for EventField {
    type V = FieldModel;

    open spec fn view(&self) -> FieldModel {
        FieldModel {
            name: self.name@,
            type_label: self.type_label@,
            location: self.location,
            offset: self.offset as int,
            size: self.size as int,
        }
    }
}

impl EventField {
    /// A field with the given name, type, place and size.
    pub fn new(
        name: String,
        type_label: String,
        location: LocationType,
        offset: usize,
        size: usize,
    ) -> (field: EventField)
        ensures
            field == (EventField { name, type_label, location, offset, size }),
    {
        EventField { name, type_label, location, offset, size }
    }
}

/// The fields of an event, in order.
#[derive(Debug)]
pub struct EventFormat {
    fields: Vec<EventField>,
}

impl View for EventFormat {
    type V = Seq<FieldModel>;

    closed spec fn view(&self) -> Seq<FieldModel> {
        self.fields@.map_values(|field: EventField| field@)
    }
}

impl EventFormat {
    /// A format without fields.
    pub fn new() -> (format: EventFormat)
        ensures
            format@ == Seq::<FieldModel>::empty(),
    {
        EventFormat { fields: Vec::new() }
    }

    /// Adds a field behind the ones that the format has.
    pub fn add_field(&mut self, field: EventField)
        ensures
            final(self)@ == old(self)@.push(field@),
    {
        self.fields.push(field);
        assert(self@ =~= old(self)@.push(field@));
    }

    /// The fields, in order.
    pub fn fields(&self) -> (fields: &[EventField])
        ensures
            fields@.map_values(|field: EventField| field@) == self@,
    {
        self.fields.as_slice()
    }
}

/// A decoded event: its bytes and the format to read them by.
#[derive(Clone, Copy, Debug)]
pub struct EventData<'a> {
    /// All bytes of the event.
    pub full_data: &'a [u8],
    /// The bytes that the format's offsets count in.
    pub event_data: &'a [u8],
    /// The fields of the event.
    pub format: &'a EventFormat,
}

impl<'a> EventData<'a> {
    /// An event of the given bytes and format.
    pub fn new(full_data: &'a [u8], event_data: &'a [u8], format: &'a EventFormat) -> (data:
        EventData<'a>)
        ensures
            data == (EventData { full_data, event_data, format }),
    {
        EventData { full_data, event_data, format }
    }
}

/// The model of a field says what the field holds, in full.
pub proof fn law_field_model_is_the_field(field: EventField)
    ensures
        field@.name == field.name@,
        field@.type_label == field.type_label@,
        field@.location == field.location,
        field@.offset == field.offset,
        field@.size == field.size,
{
}

} // verus!
