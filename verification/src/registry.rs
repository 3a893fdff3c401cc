//! The hash map of the `ahash` crate, as the client registry uses it. Verus
//! does not look inside the map: what it holds is named here, and the
//! contracts below are believed, not proved.

use crate::client::Client;
use ahash::AHashMap;
use vstd::prelude::*;

verus! {

#[verifier::external_type_specification]
#[verifier::external_body]
#[verifier::reject_recursive_types(K)]
#[verifier::reject_recursive_types(V)]
#[verifier::reject_recursive_types(S)]
pub struct ExAHashMap<K, V, S>(AHashMap<K, V, S>);

#[verifier::external_type_specification]
#[verifier::external_body]
pub struct ExRandomState(ahash::RandomState);

/// The clients that a map holds, each under its key.
pub uninterp spec fn clients_of(table: AHashMap<usize, Client>) -> Map<usize, Client>;

/// `AHashMap::new`: a map that holds nothing.
#[verifier::external_body]
pub(crate) fn map_new() -> (table: AHashMap<usize, Client>)
    ensures
        clients_of(table).dom() == Set::<usize>::empty(),
{
    AHashMap::new()
}

/// `AHashMap::get`: the client under `key`, if there is one.
#[verifier::external_body]
pub(crate) fn map_get(table: &AHashMap<usize, Client>, key: usize) -> (r: Option<&Client>)
    ensures
        match r {
            Some(client) => clients_of(*table).contains_key(key) && *client == clients_of(*table)[key],
            None => !clients_of(*table).contains_key(key),
        },
{
    table.get(&key)
}

/// `AHashMap::insert`: `client` stands under `key` afterwards, and the
/// client that stood there before is handed back.
#[verifier::external_body]
pub(crate) fn map_insert(table: &mut AHashMap<usize, Client>, key: usize, client: Client) -> (r:
    Option<Client>)
    ensures
        clients_of(*final(table)) == clients_of(*old(table)).insert(key, client),
        match r {
            Some(before) => clients_of(*old(table)).contains_key(key) && before == clients_of(*old(table))[key],
            None => !clients_of(*old(table)).contains_key(key),
        },
{
    table.insert(key, client)
}

/// `AHashMap::remove`: nothing stands under `key` afterwards, and the client
/// that stood there before is handed back.
#[verifier::external_body]
pub(crate) fn map_remove(table: &mut AHashMap<usize, Client>, key: usize) -> (r: Option<Client>)
    ensures
        clients_of(*final(table)) == clients_of(*old(table)).remove(key),
        match r {
            Some(before) => clients_of(*old(table)).contains_key(key) && before == clients_of(*old(table))[key],
            None => !clients_of(*old(table)).contains_key(key),
        },
{
    table.remove(&key)
}

/// `HashMap::clear`, which the map of `ahash` hands on to: nothing is held
/// afterwards.
#[verifier::external_body]
pub(crate) fn map_clear(table: &mut AHashMap<usize, Client>)
    ensures
        clients_of(*final(table)).dom() == Set::<usize>::empty(),
{
    table.clear()
}

} // verus!
