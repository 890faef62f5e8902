//! The gear store: each account's gear, keyed by (account, gear name).
use vstd::prelude::*;
use crate::activities::lookup_result;
use crate::users::UserTree;
use crate::keys::{key, key_of, key_prefix, prefix_of, seg};
use crate::store::{
    entries, io_error, is_ascending_scan, pair_views, scan_pairs, tree_contains, tree_get, tree_insert, StoreError,
};

verus! {

/// A piece of gear as the store holds it: its name, and its encoded definition.
pub struct Gear {
    pub name: String,
    pub data: Vec<u8>,
}

/// Handle to the map of gear, keyed by `account ++ 0xff ++ gear name`.
/// Each field must be a tree of its own, and no other handle or thread may
/// write to it while these handles are in use: the contracts describe the
/// trees as this value alone changes them.
pub struct GearTree {
    pub usernameid_gear: sled::Tree,
}

impl GearTree {
    /// Whether account `username` has gear named `id`.
    pub fn contains(&self, username: &str, id: &str) -> (r: Result<bool, StoreError>)
        ensures
            r matches Ok(b) ==> b == entries(self.usernameid_gear).contains_key(key_of(seg(username@), seg(id@))),
            r matches Err(e) ==> e == StoreError::Io,
    {
        match tree_contains(&self.usernameid_gear, &key(username, id)) {
            Ok(b) => Ok(b),
            Err(e) => Err(io_error(e)),
        }
    }

    /// Stores the gear under its name for account `username`, replacing any
    /// gear of that name.
    pub fn insert(&mut self, gear: Gear, username: &str) -> (r: Result<(), StoreError>)
        ensures
            r is Ok ==> entries(final(self).usernameid_gear) == entries(old(self).usernameid_gear).insert(
                key_of(seg(username@), seg(gear.name@)),
                gear.data@,
            ),
            r matches Err(e) ==> e == StoreError::Io,
    {
        let k = key(username, gear.name.as_str());
        match tree_insert(&mut self.usernameid_gear, &k, gear.data.as_slice()) {
            Ok(()) => Ok(()),
            Err(e) => Err(io_error(e)),
        }
    }

    /// The gear of account `username` in store order, each as its key and
    /// its encoded definition.
    pub fn iter(&self, username: &str) -> (r: Result<Vec<(Vec<u8>, Vec<u8>)>, StoreError>)
        ensures
            r matches Ok(v) ==> is_ascending_scan(pair_views(v@), entries(self.usernameid_gear), prefix_of(seg(username@))),
            r matches Err(e) ==> e == StoreError::Io,
    {
        scan_pairs(&self.usernameid_gear, &key_prefix(username))
    }

    /// The encoded gear named `id` of account `username`.
    pub fn get(&self, username: &str, id: &str) -> (r: Result<Vec<u8>, StoreError>)
        ensures
            lookup_result(r, entries(self.usernameid_gear), key_of(seg(username@), seg(id@))),
    {
        match tree_get(&self.usernameid_gear, &key(username, id)) {
            Ok(Some(v)) => Ok(v),
            Ok(None) => Err(StoreError::NotFound),
            Err(e) => Err(io_error(e)),
        }
    }
}

/// Stores gear for account `username` and, when `standard` is set, makes it
/// the account's standard gear.
pub fn save_gear(
    gears: &mut GearTree,
    users: &mut UserTree,
    gear: Gear,
    username: &str,
    standard: bool,
) -> (r: Result<(), StoreError>)
    ensures
        r is Ok ==> entries(final(gears).usernameid_gear) == entries(old(gears).usernameid_gear).insert(
            key_of(seg(username@), seg(gear.name@)),
            gear.data@,
        ),
        r is Ok ==> entries(final(users).username_standard_gear) == if standard {
            entries(old(users).username_standard_gear).insert(seg(username@), seg(gear.name@))
        } else {
            entries(old(users).username_standard_gear)
        },
        r matches Err(e) ==> e == StoreError::Io,
{
    if standard {
        users.set_standard_gear(username, gear.name.as_str())?;
    }
    gears.insert(gear, username)
}
} // verus!
