//! The decoder: event records in, decoded events out.
//!
//! The first event of a schema needs the event information, which the caller
//! queries for. The schema is then kept, and later events do without.

use vstd::prelude::*;

use crate::cache::{remember, CacheModel, SchemaLayoutCache};
use crate::error::TdhDecodeError;
use crate::event::{EventData, EventFormat};
use crate::extract::{build_cached_schema, can_build_schema, schema_model, schema_of};
use crate::info::event_name_of;
use crate::layout::{
    build_event_format_with_data, law_fields_are_contiguous, law_fixed_layout_ignores_payload,
    layout_end, layout_fits, payload_layout,
};
use crate::query::AlignedTeiBuf;
use crate::record::{
    event_user_data, find_schema_tl, has_32bit_pointers, is_32bit_event, payload_of, schema_key,
    EventRecord,
};
use crate::schema::{CachedSchema, SchemaModel};

verus! {

/// The reply to a query for the event information: `None` where there was no
/// query.
pub type Information = Option<Result<AlignedTeiBuf, TdhDecodeError>>;

/// What a reply says, as a mathematical value.
pub open spec fn reply(information: Information) -> Option<Result<Seq<u8>, TdhDecodeError>> {
    match information {
        Some(Ok(bytes)) => Some(Ok(bytes@)),
        Some(Err(error)) => Some(Err(error)),
        None => None,
    }
}

/// The schema by which an event is decoded, or why there is none: the cached
/// one, and the one from the reply where none is cached. `None` where it takes
/// a reply and there is none, or one that no schema can be built from.
pub open spec fn schema_for(
    cache: CacheModel,
    record: EventRecord,
    reply: Option<Result<Seq<u8>, TdhDecodeError>>,
) -> Option<Result<SchemaModel, TdhDecodeError>> {
    let is_32bit = has_32bit_pointers(record);
    match schema_key(record) {
        None => Some(Err(TdhDecodeError::NotFound)),
        Some(key) => if cache.contains_key((key, is_32bit)) {
            Some(Ok(cache[(key, is_32bit)]))
        } else {
            match reply {
                Some(Ok(info)) => schema_of(info, is_32bit),
                Some(Err(error)) => Some(Err(error)),
                None => None,
            }
        },
    }
}

/// The cache after an event was decoded, or was not.
pub open spec fn cache_after(
    cache: CacheModel,
    record: EventRecord,
    reply: Option<Result<Seq<u8>, TdhDecodeError>>,
) -> CacheModel {
    match (schema_key(record), schema_for(cache, record, reply)) {
        (Some(key), Some(Ok(schema))) => remember(cache, key, has_32bit_pointers(record), schema),
        _ => cache,
    }
}

/// The offsets of the event's fields fit in a `usize`.
pub open spec fn event_fits(schema: SchemaModel, data: Seq<u8>) -> bool {
    schema.fixed_format is Some || layout_end(schema.properties, data) <= usize::MAX
}

/// The event can be decoded, or refused with an error.
pub open spec fn decodable(
    cache: CacheModel,
    record: EventRecord,
    reply: Option<Result<Seq<u8>, TdhDecodeError>>,
) -> bool {
    match schema_for(cache, record, reply) {
        Some(Ok(schema)) => event_fits(schema, payload_of(record)),
        Some(Err(_)) => true,
        None => false,
    }
}

/// Every schema in the cache has the fixed format that its properties call for.
pub open spec fn is_sound(cache: CacheModel) -> bool {
    forall|key: (Seq<u8>, bool)| #[trigger]
        cache.contains_key(key) ==> cache[key] == schema_model(
            cache[key].event_name,
            cache[key].properties,
        )
}

/// The schema that decoding goes by has the fixed format that its properties
/// call for, and the cache stays sound.
proof fn lemma_sound(
    cache: CacheModel,
    record: EventRecord,
    reply: Option<Result<Seq<u8>, TdhDecodeError>>,
)
    requires
        is_sound(cache),
    ensures
        is_sound(cache_after(cache, record, reply)),
        schema_for(cache, record, reply) matches Some(Ok(schema)) ==> schema == schema_model(
            schema.event_name,
            schema.properties,
        ),
{
}

/// Decoder of trace events.
pub struct TdhDecoder {
    cache: SchemaLayoutCache,
    /// The format of the last event that had fields of variable length.
    format_buf: EventFormat,
}

impl View for TdhDecoder {
    type V = CacheModel;

    closed spec fn view(&self) -> CacheModel {
        self.cache@
    }
}

impl TdhDecoder {
    /// The decoder is whole.
    pub closed spec fn wf(self) -> bool {
        self.cache.wf() && is_sound(self.cache@)
    }

    /// A decoder that has seen no schema yet.
    pub fn new() -> (decoder: TdhDecoder)
        ensures
            decoder.wf(),
            decoder@ == CacheModel::empty(),
    {
        TdhDecoder { cache: SchemaLayoutCache::new(), format_buf: EventFormat::new() }
    }

    /// The name of the event, if its schema is cached and has one.
    pub fn event_name(&self, record: &EventRecord) -> (name: Option<&str>)
        requires
            self.wf(),
        ensures
            match schema_key(*record) {
                Some(key) if self@.contains_key((key, has_32bit_pointers(*record))) && self@[(
                    key,
                    has_32bit_pointers(*record),
                )].event_name.len() > 0 => name matches Some(text) && text@ == self@[(
                    key,
                    has_32bit_pointers(*record),
                )].event_name,
                _ => name is None,
            },
    {
        let is_32bit = is_32bit_event(record);
        match find_schema_tl(record) {
            Ok(key) => match self.cache.get(key, is_32bit) {
                Some(schema) => {
                    let text = schema.event_name.as_str();
                    if text.is_empty() {
                        None
                    } else {
                        Some(text)
                    }
                },
                None => None,
            },
            Err(_) => None,
        }
    }

    /// Tells whether decoding the event takes the event information: whether its
    /// schema is not cached.
    pub fn needs_information(&self, record: &EventRecord) -> (needs: Result<bool, TdhDecodeError>)
        requires
            self.wf(),
        ensures
            match schema_key(*record) {
                Some(key) => needs == Ok::<bool, TdhDecodeError>(
                    !self@.contains_key((key, has_32bit_pointers(*record))),
                ),
                None => needs matches Err(error) && error is NotFound,
            },
    {
        let key = find_schema_tl(record)?;
        Ok(self.cache.get(key, is_32bit_event(record)).is_none())
    }

    /// Decodes an event. Where its schema is not cached, it is built from the
    /// event information and kept; where it is, the information is not looked
    /// at. An event that fails leaves the cache as it was.
    pub fn decode<'a>(
        &'a mut self,
        record: &EventRecord<'a>,
        information: Information,
    ) -> (decoded: Result<EventData<'a>, TdhDecodeError>)
        requires
            old(self).wf(),
            decodable(old(self)@, *record, reply(information)),
        ensures
            final(self).wf(),
            final(self)@ == cache_after(old(self)@, *record, reply(information)),
            match schema_for(old(self)@, *record, reply(information))->0 {
                Ok(schema) => {
                    &&& decoded matches Ok(event)
                    &&& event.full_data@ == payload_of(*record)
                    &&& event.event_data@ == payload_of(*record)
                    &&& event.format@ == payload_layout(schema.properties, payload_of(*record))
                },
                Err(error) => decoded == Err::<EventData, TdhDecodeError>(error),
            },
    {
        proof {
            lemma_sound(self@, *record, reply(information));
        }
        let is_32bit = is_32bit_event(record);
        let key = match find_schema_tl(record) {
            Ok(key) => key,
            Err(error) => {
                return Err(error);
            },
        };
        if self.cache.get(key, is_32bit).is_none() {
            let bytes = match information.unwrap() {
                Ok(buffer) => buffer.as_bytes(),
                Err(error) => {
                    return Err(error);
                },
            };
            match build_cached_schema(bytes.as_slice(), is_32bit) {
                Ok(schema) => {
                    self.cache.insert(vstd::slice::slice_to_vec(key), is_32bit, schema);
                },
                Err(error) => {
                    return Err(error);
                },
            }
        }
        let user_data = event_user_data(record);
        let schema = self.cache.get(key, is_32bit).unwrap();
        match &schema.fixed_format {
            Some(format) => {
                proof {
                    law_fixed_layout_ignores_payload(
                        schema@.properties,
                        Seq::empty(),
                        user_data@,
                    );
                }
                Ok(EventData::new(user_data, user_data, format))
            },
            None => {
                self.format_buf = build_event_format_with_data(
                    schema.properties.as_slice(),
                    user_data,
                );
                Ok(EventData::new(user_data, user_data, &self.format_buf))
            },
        }
    }

    /// Tells whether the event can be decoded with this reply, or refused with
    /// an error.
    pub fn can_decode(&self, record: &EventRecord, information: &Information) -> (can: bool)
        requires
            self.wf(),
        ensures
            can == decodable(self@, *record, reply(*information)),
    {
        let is_32bit = is_32bit_event(record);
        let user_data = event_user_data(record);
        let key = match find_schema_tl(record) {
            Ok(key) => key,
            Err(_) => {
                return true;
            },
        };
        if let Some(schema) = self.cache.get(key, is_32bit) {
            return schema_fits(schema, user_data);
        }
        match information {
            Some(Ok(buffer)) => {
                let bytes = buffer.as_bytes();
                if !can_build_schema(bytes.as_slice(), is_32bit) {
                    return false;
                }
                match build_cached_schema(bytes.as_slice(), is_32bit) {
                    Ok(schema) => schema_fits(&schema, user_data),
                    Err(_) => true,
                }
            },
            Some(Err(_)) => true,
            None => false,
        }
    }
}

impl Default for TdhDecoder {
    fn default() -> (decoder: TdhDecoder)
        ensures
            decoder.wf(),
            decoder@ == CacheModel::empty(),
    {
        TdhDecoder::new()
    }
}

/// Tells whether the offsets of the fields of a payload fit in a `usize`.
fn schema_fits(schema: &CachedSchema, user_data: &[u8]) -> (fits: bool)
    ensures
        fits == event_fits(schema@, user_data@),
{
    schema.fixed_format.is_some() || layout_fits(schema.properties.as_slice(), user_data)
}

/// Once an event was decoded, all events of its schema and pointer width are
/// decoded by the same schema, without a query and whatever a query would say,
/// and leave the cache as it is. Only a payload whose offsets pass the range of
/// a `usize` cannot be.
pub proof fn law_schema_is_queried_once(
    cache: CacheModel,
    first: EventRecord,
    first_reply: Option<Result<Seq<u8>, TdhDecodeError>>,
    later: EventRecord,
    later_reply: Option<Result<Seq<u8>, TdhDecodeError>>,
)
    requires
        schema_for(cache, first, first_reply) matches Some(Ok(_)),
        schema_key(later) == schema_key(first),
        has_32bit_pointers(later) == has_32bit_pointers(first),
    ensures
        schema_key(later) matches Some(key) && cache_after(cache, first, first_reply).contains_key(
            (key, has_32bit_pointers(later)),
        ),
        decodable(cache_after(cache, first, first_reply), later, later_reply) == event_fits(
            schema_for(cache, first, first_reply)->0->Ok_0,
            payload_of(later),
        ),
        schema_for(cache_after(cache, first, first_reply), later, later_reply) == schema_for(
            cache,
            first,
            first_reply,
        ),
        cache_after(cache_after(cache, first, first_reply), later, later_reply) == cache_after(
            cache,
            first,
            first_reply,
        ),
{
}

/// An event is not served by the schema of another pointer width or key: to it
/// an event that was decoded before makes no difference.
pub proof fn law_other_key_or_width_is_not_served(
    cache: CacheModel,
    first: EventRecord,
    first_reply: Option<Result<Seq<u8>, TdhDecodeError>>,
    later: EventRecord,
    later_reply: Option<Result<Seq<u8>, TdhDecodeError>>,
)
    requires
        schema_key(later) != schema_key(first) || has_32bit_pointers(later) != has_32bit_pointers(
            first,
        ),
    ensures
        schema_for(cache_after(cache, first, first_reply), later, later_reply) == schema_for(
            cache,
            later,
            later_reply,
        ),
        decodable(cache_after(cache, first, first_reply), later, later_reply) == decodable(
            cache,
            later,
            later_reply,
        ),
{
}

/// The name that an event has once it was decoded for the first time is the one
/// in its event information.
pub proof fn law_name_comes_from_information(
    cache: CacheModel,
    record: EventRecord,
    info: Seq<u8>,
    key: Seq<u8>,
)
    requires
        schema_key(record) == Some(key),
        !cache.contains_key((key, has_32bit_pointers(record))),
        schema_for(cache, record, Some(Ok(info))) matches Some(Ok(_)),
    ensures
        cache_after(cache, record, Some(Ok(info))).contains_key((key, has_32bit_pointers(record))),
        cache_after(cache, record, Some(Ok(info)))[(
            key,
            has_32bit_pointers(record),
        )].event_name == event_name_of(info),
{
}

/// An event that fails leaves the cache as it was, so its schema is queried for
/// again.
pub proof fn law_failure_is_not_cached(
    cache: CacheModel,
    record: EventRecord,
    reply: Option<Result<Seq<u8>, TdhDecodeError>>,
)
    requires
        schema_for(cache, record, reply) matches Some(Err(_)),
    ensures
        cache_after(cache, record, reply) == cache,
{
}

/// Decoding an event leaves the schemas of all other keys, and of its own key
/// for the other pointer width, as they were.
pub proof fn law_decoding_keeps_other_schemas(
    cache: CacheModel,
    record: EventRecord,
    reply: Option<Result<Seq<u8>, TdhDecodeError>>,
    key: Seq<u8>,
    is_32bit: bool,
)
    requires
        schema_key(record) != Some(key) || has_32bit_pointers(record) != is_32bit,
    ensures
        cache_after(cache, record, reply).contains_key((key, is_32bit)) == cache.contains_key(
            (key, is_32bit),
        ),
        cache_after(cache, record, reply)[(key, is_32bit)] == cache[(key, is_32bit)],
{
}

/// A schema that is cached stays cached, whatever is decoded after it.
pub proof fn law_cache_only_grows(
    cache: CacheModel,
    record: EventRecord,
    reply: Option<Result<Seq<u8>, TdhDecodeError>>,
    key: (Seq<u8>, bool),
)
    requires
        cache.contains_key(key),
    ensures
        cache_after(cache, record, reply).contains_key(key),
        cache_after(cache, record, reply)[key] == cache[key],
{
}

/// The reply to a query is passed on as it came: the information byte by byte,
/// the error as it is.
pub proof fn law_reply_is_passed_on(information: Information)
    ensures
        information matches Some(Ok(bytes)) ==> reply(information) == Some(
            Ok::<Seq<u8>, TdhDecodeError>(bytes@),
        ),
        information matches Some(Err(error)) ==> reply(information) == Some(
            Err::<Seq<u8>, TdhDecodeError>(error),
        ),
        information is None ==> reply(information) is None,
{
}

/// An event that carries no schema is not found, whatever is cached and whatever
/// the reply, and leaves the cache as it was.
pub proof fn law_event_without_key_is_not_found(
    cache: CacheModel,
    record: EventRecord,
    reply: Option<Result<Seq<u8>, TdhDecodeError>>,
)
    requires
        schema_key(record) is None,
    ensures
        schema_for(cache, record, reply) == Some(
            Err::<SchemaModel, TdhDecodeError>(TdhDecodeError::NotFound),
        ),
        decodable(cache, record, reply),
        cache_after(cache, record, reply) == cache,
{
}

/// The first event of a schema is decoded by what its information says for the
/// pointer width of the event, bit 5 of its flags, and the cache then holds that
/// schema. A reply that is an error is the error of the event. Without a reply
/// the event cannot be decoded.
pub proof fn law_first_event_goes_by_the_reply(
    cache: CacheModel,
    record: EventRecord,
    key: Seq<u8>,
    info: Seq<u8>,
    error: TdhDecodeError,
)
    requires
        schema_key(record) == Some(key),
        !cache.contains_key((key, record.flags & 0x20u16 != 0)),
    ensures
        ({
            let is_32bit = record.flags & 0x20u16 != 0;
            &&& schema_for(cache, record, Some(Ok(info))) == schema_of(info, is_32bit)
            &&& schema_of(info, is_32bit) matches Some(Ok(schema)) ==> cache_after(
                cache,
                record,
                Some(Ok(info)),
            ) == cache.insert((key, is_32bit), schema)
            &&& schema_for(cache, record, Some(Err(error))) == Some(
                Err::<SchemaModel, TdhDecodeError>(error),
            )
            &&& decodable(cache, record, Some(Err(error)))
            &&& schema_for(cache, record, None) is None
            &&& !decodable(cache, record, None)
        }),
{
}

/// An event whose key is cached for its pointer width is decoded by the cached
/// schema, whatever the reply, and leaves the cache as it was.
pub proof fn law_cached_schema_is_used(
    cache: CacheModel,
    record: EventRecord,
    reply: Option<Result<Seq<u8>, TdhDecodeError>>,
    key: Seq<u8>,
)
    requires
        schema_key(record) == Some(key),
        cache.contains_key((key, record.flags & 0x20u16 != 0)),
    ensures
        schema_for(cache, record, reply) == Some(
            Ok::<SchemaModel, TdhDecodeError>(cache[(key, record.flags & 0x20u16 != 0)]),
        ),
        cache_after(cache, record, reply) == cache,
{
}

/// An event for which there is a schema can be decoded, unless one of its fields
/// ends past the range of a `usize`; where the schema has a fixed format it
/// always can. One for which there is an error is refused with it.
pub proof fn law_only_offsets_out_of_range_stop_an_event(
    cache: CacheModel,
    record: EventRecord,
    reply: Option<Result<Seq<u8>, TdhDecodeError>>,
    schema: SchemaModel,
    error: TdhDecodeError,
)
    ensures
        schema_for(cache, record, reply) == Some(Ok::<SchemaModel, TdhDecodeError>(schema)) && (
        schema.fixed_format is Some || forall|k: int|
            0 <= k < schema.properties.len() ==> (#[trigger] payload_layout(
                schema.properties,
                payload_of(record),
            )[k]).offset + payload_layout(schema.properties, payload_of(record))[k].size
                <= usize::MAX) ==> decodable(cache, record, reply),
        schema_for(cache, record, reply) == Some(Err::<SchemaModel, TdhDecodeError>(error))
            ==> decodable(cache, record, reply),
{
    let data = payload_of(record);
    let fields = payload_layout(schema.properties, data);
    law_fields_are_contiguous(schema.properties, data);
    if schema.properties.len() > 0 {
        assert(fields.last() == fields[schema.properties.len() - 1]);
    }
}

/// A schema that was not cached before an event and is cached after it came out
/// of the event information in the reply, and stands under the key and the
/// pointer width of that event.
pub proof fn law_only_replies_are_cached(
    cache: CacheModel,
    record: EventRecord,
    reply: Option<Result<Seq<u8>, TdhDecodeError>>,
    key: (Seq<u8>, bool),
)
    requires
        cache_after(cache, record, reply).contains_key(key),
        !cache.contains_key(key),
    ensures
        schema_key(record) == Some(key.0),
        key.1 == (record.flags & 0x20u16 != 0),
        reply matches Some(Ok(info)) && schema_of(info, key.1) == Some(
            Ok::<SchemaModel, TdhDecodeError>(cache_after(cache, record, reply)[key]),
        ),
{
}

} // verus!
