//! The cache of schemas.

use std::collections::HashMap;
use std::hash::BuildHasherDefault;

use twox_hash::XxHash64;
use vstd::prelude::*;

use crate::schema::{CachedSchema, SchemaModel};

verus! {

/// The hasher of the schema cache: XXH64 with seed 0.
#[verifier::external_type_specification]
#[verifier::external_body]
pub struct ExXxHash64(twox_hash::XxHash64);

/// The builder of hashers that are all made by `Default::default`.
#[verifier::external_type_specification]
#[verifier::external_body]
#[verifier::reject_recursive_types(H)]
pub struct ExBuildHasherDefault<H>(std::hash::BuildHasherDefault<H>);

/// Positions in a list of schemas, by the raw bytes of the schemas' keys.
pub type SchemaIndex = HashMap<Vec<u8>, usize, BuildHasherDefault<XxHash64>>;

/// What a schema index holds: the position of each key.
pub uninterp spec fn index_contents(index: SchemaIndex) -> Map<Seq<u8>, usize>;

/// An index without keys.
///
/// Calls `HashMap::default`. Its contract claims that the new map is empty.
#[verifier::external_body]
fn index_new() -> (index: SchemaIndex)
    ensures
        index_contents(index) =~= Map::empty(),
{
    HashMap::default()
}

/// The position of a key.
///
/// Calls `HashMap::get`. Its contract claims that a key of the same bytes is
/// found, with its position, if and only if the map holds one.
#[verifier::external_body]
fn index_get(index: &SchemaIndex, key: &[u8]) -> (position: Option<usize>)
    ensures
        position == (if index_contents(*index).contains_key(key@) {
            Some(index_contents(*index)[key@])
        } else {
            None
        }),
{
    index.get(key).copied()
}

/// Gives a key its position.
///
/// Calls `HashMap::insert`. Its contract claims that the key of these bytes then
/// has this position, and that the other keys keep theirs.
#[verifier::external_body]
fn index_insert(index: &mut SchemaIndex, key: Vec<u8>, position: usize)
    ensures
        index_contents(*final(index)) == index_contents(*old(index)).insert(key@, position),
{
    index.insert(key, position);
}

/// What a schema cache holds: schemas, by their raw key bytes and by whether
/// they are for events with 32-bit pointers.
pub type CacheModel = Map<(Seq<u8>, bool), SchemaModel>;

/// The cache after a schema was offered under a key. A key that already has a
/// schema keeps it.
pub open spec fn remember(
    cache: CacheModel,
    key: Seq<u8>,
    is_32bit: bool,
    schema: SchemaModel,
) -> CacheModel {
    if cache.contains_key((key, is_32bit)) {
        cache
    } else {
        cache.insert((key, is_32bit), schema)
    }
}

/// Schemas by their raw key bytes.
struct SchemaMap {
    index: SchemaIndex,
    schemas: Vec<CachedSchema>,
}

impl SchemaMap {
    /// Every position in the index is one of a schema.
    spec fn wf(self) -> bool {
        forall|key: Seq<u8>| #[trigger]
            index_contents(self.index).contains_key(key) ==> index_contents(self.index)[key]
                < self.schemas@.len()
    }

    /// The schemas by their keys.
    spec fn held(self) -> Map<Seq<u8>, SchemaModel> {
        Map::new(
            |key: Seq<u8>| index_contents(self.index).contains_key(key),
            |key: Seq<u8>| self.schemas@[index_contents(self.index)[key] as int]@,
        )
    }

    /// A map without schemas.
    fn new() -> (map: SchemaMap)
        ensures
            map.wf(),
            map.held() == Map::<Seq<u8>, SchemaModel>::empty(),
    {
        let map = SchemaMap { index: index_new(), schemas: Vec::new() };
        assert(map.held() =~= Map::<Seq<u8>, SchemaModel>::empty());
        map
    }

    /// The schema of a key.
    fn get(&self, key: &[u8]) -> (found: Option<&CachedSchema>)
        requires
            self.wf(),
        ensures
            match found {
                Some(schema) => self.held().contains_key(key@) && schema@ == self.held()[key@],
                None => !self.held().contains_key(key@),
            },
    {
        match index_get(&self.index, key) {
            Some(position) => Some(&self.schemas[position]),
            None => None,
        }
    }

    /// Gives a key its schema, unless it already has one.
    fn insert(&mut self, key: Vec<u8>, schema: CachedSchema)
        requires
            old(self).wf(),
        ensures
            final(self).wf(),
            final(self).held() == (if old(self).held().contains_key(key@) {
                old(self).held()
            } else {
                old(self).held().insert(key@, schema@)
            }),
    {
        if index_get(&self.index, key.as_slice()).is_none() {
            let position: usize = self.schemas.len();
            let ghost bytes = key@;
            index_insert(&mut self.index, key, position);
            self.schemas.push(schema);
            assert(self.held() =~= old(self).held().insert(bytes, schema@));
        }
    }
}

/// The schema cache: one map for each pointer width.
pub struct SchemaLayoutCache {
    cache_64: SchemaMap,
    cache_32: SchemaMap,
}

impl View for SchemaLayoutCache {
    type V = CacheModel;

    closed spec fn view(&self) -> CacheModel {
        Map::new(
            |key: (Seq<u8>, bool)| self.side(key.1).held().contains_key(key.0),
            |key: (Seq<u8>, bool)| self.side(key.1).held()[key.0],
        )
    }
}

impl SchemaLayoutCache {
    /// The map for one pointer width.
    spec fn side(self, is_32bit: bool) -> SchemaMap {
        if is_32bit {
            self.cache_32
        } else {
            self.cache_64
        }
    }

    /// The cache is whole.
    pub closed spec fn wf(self) -> bool {
        self.cache_64.wf() && self.cache_32.wf()
    }

    /// A cache without schemas.
    pub fn new() -> (cache: SchemaLayoutCache)
        ensures
            cache.wf(),
            cache@ == CacheModel::empty(),
    {
        let cache = SchemaLayoutCache { cache_64: SchemaMap::new(), cache_32: SchemaMap::new() };
        assert(cache@ =~= CacheModel::empty());
        cache
    }

    /// The schema of a key for one pointer width.
    pub fn get(&self, key: &[u8], is_32bit: bool) -> (found: Option<&CachedSchema>)
        requires
            self.wf(),
        ensures
            match found {
                Some(schema) => self@.contains_key((key@, is_32bit)) && schema@ == self@[(
                    key@,
                    is_32bit,
                )],
                None => !self@.contains_key((key@, is_32bit)),
            },
    {
        let map = if is_32bit { &self.cache_32 } else { &self.cache_64 };
        map.get(key)
    }

    /// Gives a key its schema for one pointer width, unless it already has one.
    pub fn insert(&mut self, key: Vec<u8>, is_32bit: bool, schema: CachedSchema)
        requires
            old(self).wf(),
        ensures
            final(self).wf(),
            final(self)@ == remember(old(self)@, key@, is_32bit, schema@),
    {
        let ghost bytes = key@;
        if is_32bit {
            self.cache_32.insert(key, schema);
        } else {
            self.cache_64.insert(key, schema);
        }
        assert(self@ =~= remember(old(self)@, bytes, is_32bit, schema@));
    }
}

/// A schema that was remembered is found again, if its key was free.
pub proof fn law_remembered_schema_is_found(
    cache: CacheModel,
    key: Seq<u8>,
    is_32bit: bool,
    schema: SchemaModel,
)
    ensures
        remember(cache, key, is_32bit, schema).contains_key((key, is_32bit)),
        !cache.contains_key((key, is_32bit)) ==> remember(cache, key, is_32bit, schema)[(
            key,
            is_32bit,
        )] == schema,
{
}

/// The first schema of a key stays: offering another changes nothing.
pub proof fn law_first_schema_stays(
    cache: CacheModel,
    key: Seq<u8>,
    is_32bit: bool,
    first: SchemaModel,
    second: SchemaModel,
)
    ensures
        remember(remember(cache, key, is_32bit, first), key, is_32bit, second) == remember(
            cache,
            key,
            is_32bit,
            first,
        ),
{
}

/// Remembering a schema for one key and pointer width leaves all other keys, and
/// the same key for the other width, as they were.
pub proof fn law_other_entries_stay(
    cache: CacheModel,
    key: Seq<u8>,
    is_32bit: bool,
    schema: SchemaModel,
    other_key: Seq<u8>,
    other_is_32bit: bool,
)
    requires
        other_key != key || other_is_32bit != is_32bit,
    ensures
        remember(cache, key, is_32bit, schema).contains_key((other_key, other_is_32bit))
            == cache.contains_key((other_key, other_is_32bit)),
        remember(cache, key, is_32bit, schema)[(other_key, other_is_32bit)] == cache[(
            other_key,
            other_is_32bit,
        )],
{
}

} // verus!
