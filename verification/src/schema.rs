//! Schemas: the leaf properties of an event, in the order of the payload.

use vstd::prelude::*;

use crate::event::{EventFormat, FieldModel};
use crate::intype::PropertyKind;

verus! {

/// A leaf property of a schema.
#[derive(Debug)]
pub struct CachedProperty {
    /// Dot-notation qualified name.
    pub name: String,
    /// Name of the property's type.
    pub type_label: &'static str,
    /// What determines the number of its payload bytes.
    pub kind: PropertyKind,
}

/// What a leaf property says, as a mathematical value.
pub struct PropertyModel {
    /// Dot-notation qualified name.
    pub name: Seq<char>,
    /// Name of the property's type.
    pub type_label: Seq<char>,
    /// What determines the number of its payload bytes.
    pub kind: PropertyKind,
}

impl View for CachedProperty {
    type V = PropertyModel;

    open spec fn view(&self) -> PropertyModel {
        PropertyModel { name: self.name@, type_label: self.type_label@, kind: self.kind }
    }
}

/// What a list of leaf properties says.
pub open spec fn models(properties: Seq<CachedProperty>) -> Seq<PropertyModel> {
    properties.map_values(|property: CachedProperty| property@)
}

/// Every property takes a number of bytes that the schema gives.
pub open spec fn all_fixed(properties: Seq<PropertyModel>) -> bool {
    forall|i: int| 0 <= i < properties.len() ==> #[trigger] properties[i].kind is Fixed
}

/// The schema of an event.
#[derive(Debug)]
pub struct CachedSchema {
    /// Name of the event; empty where it has none.
    pub event_name: String,
    /// The leaf properties, in the order of the payload.
    pub properties: Vec<CachedProperty>,
    /// The fields of every payload, where each property has a fixed size.
    pub fixed_format: Option<EventFormat>,
}

/// What a schema says, as a mathematical value.
pub struct SchemaModel {
    /// Name of the event.
    pub event_name: Seq<char>,
    /// The leaf properties, in the order of the payload.
    pub properties: Seq<PropertyModel>,
    /// The fields of every payload, where each property has a fixed size.
    pub fixed_format: Option<Seq<FieldModel>>,
}

impl View for CachedSchema {
    type V = SchemaModel;

    open spec fn view(&self) -> SchemaModel {
        SchemaModel {
            event_name: self.event_name@,
            properties: models(self.properties@),
            fixed_format: match self.fixed_format {
                Some(format) => Some(format@),
                None => None,
            },
        }
    }
}

/// The models of a list of properties say what each of them holds, in order and
/// in full.
pub proof fn law_models_are_the_properties(properties: Seq<CachedProperty>)
    ensures
        models(properties).len() == properties.len(),
        forall|i: int|
            0 <= i < properties.len() ==> {
                &&& (#[trigger] models(properties)[i]).name == properties[i].name@
                &&& models(properties)[i].type_label == properties[i].type_label@
                &&& models(properties)[i].kind == properties[i].kind
            },
{
}

/// The model of a schema says what the schema holds, in full.
pub proof fn law_schema_model_is_the_schema(schema: CachedSchema)
    ensures
        schema@.event_name == schema.event_name@,
        schema@.properties.len() == schema.properties@.len(),
        forall|i: int|
            0 <= i < schema.properties@.len() ==> #[trigger] schema@.properties[i]
                == schema.properties@[i]@,
        schema.fixed_format is None ==> schema@.fixed_format is None,
        schema.fixed_format matches Some(format) ==> schema@.fixed_format == Some(format@),
{
}

/// A list has only fixed sizes if and only if no property of it lacks one.
pub proof fn law_all_fixed_means_each(properties: Seq<PropertyModel>)
    ensures
        all_fixed(properties) || exists|i: int|
            0 <= i < properties.len() && !((#[trigger] properties[i]).kind is Fixed),
        all_fixed(properties) ==> forall|i: int|
            0 <= i < properties.len() ==> (#[trigger] properties[i]).kind is Fixed,
{
}

} // verus!
