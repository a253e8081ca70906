//! Interface names and indexes as netlink last reported them, both ways.

use vstd::prelude::*;
use std::collections::HashMap;
use crate::collections::StringMap;

verus! {

broadcast use vstd::std_specs::hash::group_hash_axioms;

/// The interface index of each name and the name of each index.
pub struct NetlinkRouterCache {
    inteface_name_to_index: StringMap<u64>,
    inteface_index_to_name: HashMap<u64, String>,
}

impl NetlinkRouterCache {
    /// The index of each name.
    pub closed spec fn indexes(self) -> Map<Seq<char>, u64> {
        self.inteface_name_to_index@
    }

    /// The name of each index.
    pub closed spec fn names(self) -> Map<u64, Seq<char>> {
        self.inteface_index_to_name@.map_values(|name: String| name@)
    }

    pub fn new() -> (r: NetlinkRouterCache)
        ensures
            r.indexes() == Map::<Seq<char>, u64>::empty(),
            r.names() == Map::<u64, Seq<char>>::empty(),
    {
        let r = NetlinkRouterCache { inteface_name_to_index: StringMap::new(), inteface_index_to_name: HashMap::new() };
        assert(r.names() =~= Map::<u64, Seq<char>>::empty());
        r
    }

    /// Records that the interface `index` is named `name`.
    pub fn update_interface_cache(&mut self, index: u64, name: String)
        ensures
            final(self).names() == old(self).names().insert(index, name@),
            final(self).indexes() == old(self).indexes().insert(name@, index),
    {
        self.inteface_index_to_name.insert(index, name.clone());
        self.inteface_name_to_index.insert(name, index);
        assert(self.names() =~= old(self).names().insert(index, name@));
    }

    /// The name last recorded for `index`.
    pub fn lookup_interface_name(&self, index: &u64) -> (r: Option<&String>)
        ensures
            r is Some <==> self.names().contains_key(*index),
            r matches Some(name) ==> name@ == self.names()[*index],
    {
        self.inteface_index_to_name.get(index)
    }

    /// The index last recorded for `name`.
    pub fn lookup_interface_index(&self, name: &String) -> (r: Option<&u64>)
        ensures
            r is Some <==> self.indexes().contains_key(name@),
            r matches Some(index) ==> *index == self.indexes()[name@],
    {
        self.inteface_name_to_index.get(name)
    }
}

/// What is recorded is what a lookup finds: after recording that `index` is
/// named `name`, the name of `index` is `name` and the index of `name` is
/// `index`.
pub proof fn lemma_lookup_after_update(cache: NetlinkRouterCache, updated: NetlinkRouterCache, index: u64, name: Seq<char>)
    requires
        updated.names() == cache.names().insert(index, name),
        updated.indexes() == cache.indexes().insert(name, index),
    ensures
        updated.names().contains_key(index) && updated.names()[index] == name,
        updated.indexes().contains_key(name) && updated.indexes()[name] == index,
{
}

} // verus!
