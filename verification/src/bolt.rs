//! The values that a query carries to the graph store, as neo4rs holds
//! them, with the mathematical value that each stands for.

use vstd::prelude::*;

verus! {

/// `neo4rs::BoltType`, a value of the store's wire format; opaque here.
#[verifier::external_type_specification]
#[verifier::external_body]
pub struct ExBoltType(neo4rs::BoltType);

/// `neo4rs::BoltList`, a list of such values; opaque here.
#[verifier::external_type_specification]
#[verifier::external_body]
pub struct ExBoltList(neo4rs::BoltList);

/// `neo4rs::BoltMap`, a map from texts to such values; opaque here.
#[verifier::external_type_specification]
#[verifier::external_body]
pub struct ExBoltMap(neo4rs::BoltMap);

/// `neo4rs::Query`, a statement with its parameters; opaque here.
#[verifier::external_type_specification]
#[verifier::external_body]
pub struct ExQuery(neo4rs::Query);

/// What a value of the store's wire format stands for, as far as this
/// library builds such values: a text, a list, or a record of named values.
pub enum BoltValue {
    Text(Seq<char>),
    List(Seq<BoltValue>),
    Record(Map<Seq<char>, BoltValue>),
}

/// The record without entries.
pub open spec fn no_entries() -> Map<Seq<char>, BoltValue> {
    Map::empty()
}

/// What a `neo4rs::BoltType` stands for.
pub uninterp spec fn bolt_value(value: neo4rs::BoltType) -> BoltValue;

/// What the items of a `neo4rs::BoltList` stand for, in order.
pub uninterp spec fn bolt_items(list: neo4rs::BoltList) -> Seq<BoltValue>;

/// What the entries of a `neo4rs::BoltMap` stand for, by key.
pub uninterp spec fn bolt_entries(map: neo4rs::BoltMap) -> Map<Seq<char>, BoltValue>;

/// The statement of a `neo4rs::Query`.
pub uninterp spec fn query_text(query: neo4rs::Query) -> Seq<char>;

/// What the parameters of a `neo4rs::Query` stand for, by name.
pub uninterp spec fn query_params(query: neo4rs::Query) -> Map<Seq<char>, BoltValue>;

/// Makes a `neo4rs::BoltType::String` of a `neo4rs::BoltString::new`, which
/// copies the text. The contract claims that the value stands for that
/// text.
#[verifier::external_body]
pub(crate) fn text_value(text: &str) -> (r: neo4rs::BoltType)
    ensures
        bolt_value(r) == BoltValue::Text(text@),
{
    neo4rs::BoltType::String(neo4rs::BoltString::new(text))
}

/// Calls `neo4rs::BoltList::new`, which gives a list without items.
#[verifier::external_body]
pub(crate) fn new_list() -> (r: neo4rs::BoltList)
    ensures
        bolt_items(r) == Seq::<BoltValue>::empty(),
{
    neo4rs::BoltList::new()
}

/// Calls `neo4rs::BoltList::push`, which appends the value to the list's
/// items.
#[verifier::external_body]
pub(crate) fn push_item(list: &mut neo4rs::BoltList, value: neo4rs::BoltType)
    ensures
        bolt_items(*final(list)) == bolt_items(*old(list)).push(bolt_value(value)),
{
    list.push(value)
}

/// Makes a `neo4rs::BoltType::List` of the list. The contract claims that
/// the value stands for the list of what the items stand for.
#[verifier::external_body]
pub(crate) fn list_value(list: neo4rs::BoltList) -> (r: neo4rs::BoltType)
    ensures
        bolt_value(r) == BoltValue::List(bolt_items(list)),
{
    neo4rs::BoltType::List(list)
}

/// Calls `neo4rs::BoltMap::new`, which gives a map without entries.
#[verifier::external_body]
pub(crate) fn new_map() -> (r: neo4rs::BoltMap)
    ensures
        bolt_entries(r) == no_entries(),
{
    neo4rs::BoltMap::new()
}

/// Calls `neo4rs::BoltMap::put` with a `neo4rs::BoltString::new` of the
/// key, which inserts the value under the key and so replaces what stood
/// under it.
#[verifier::external_body]
pub(crate) fn put_entry(map: &mut neo4rs::BoltMap, key: &str, value: neo4rs::BoltType)
    ensures
        bolt_entries(*final(map)) == bolt_entries(*old(map)).insert(key@, bolt_value(value)),
{
    map.put(neo4rs::BoltString::new(key), value)
}

/// Makes a `neo4rs::BoltType::Map` of the map. The contract claims that the
/// value stands for the record of what the entries stand for.
#[verifier::external_body]
pub(crate) fn map_value(map: neo4rs::BoltMap) -> (r: neo4rs::BoltType)
    ensures
        bolt_value(r) == BoltValue::Record(bolt_entries(map)),
{
    neo4rs::BoltType::Map(map)
}

/// Calls `neo4rs::Query::new` with a copy of the statement, which gives a
/// query of that statement without parameters.
#[verifier::external_body]
pub(crate) fn new_query(statement: &str) -> (r: neo4rs::Query)
    ensures
        query_text(r) == statement@,
        query_params(r) == no_entries(),
{
    neo4rs::Query::new(statement.to_string())
}

/// Calls `neo4rs::Query::param`, which puts the value under the name among
/// the query's parameters and leaves the statement as it is.
#[verifier::external_body]
pub(crate) fn with_param(query: neo4rs::Query, name: &str, value: neo4rs::BoltType) -> (r:
    neo4rs::Query)
    ensures
        query_text(r) == query_text(query),
        query_params(r) == query_params(query).insert(name@, bolt_value(value)),
{
    query.param(name, value)
}

} // verus!
