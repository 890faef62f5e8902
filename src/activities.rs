//! The activity store: one record per (account, activity id) spread over
//! several maps, with a secondary index by gear.
use vstd::prelude::*;
use crate::keys::{key, key3, key3_raw, SEPARATOR, key_of, key3_of, key_prefix, prefix_of, seg};
use crate::store::{
    decode_all, decode_strings, entries, io_error, is_utf8, scan_values_desc, string_views, byte_views,
    opt_bytes, stored_at, text_of, text_outcome, tree_contains, tree_get, tree_insert, tree_remove, values_desc, StoreError,
};

verus! {

/// An activity as the store holds it. `session`, `record` and `lap` are the
/// encoded summary, time series and laps; the store keeps them byte for byte.
pub struct Activity {
    pub id: String,
    pub gear_id: Option<String>,
    pub session: Vec<u8>,
    pub record: Vec<u8>,
    pub lap: Vec<u8>,
}

/// Handles to the maps of the activity store. Each map is keyed by
/// `account ++ 0xff ++ id`, but for `usernamegearid_id`, keyed by
/// `account ++ 0xff ++ gear ++ 0xff ++ id`.
/// Each field must be a tree of its own, and no other handle or thread may
/// write to it while these handles are in use: the contracts describe the
/// trees as this value alone changes them.
pub struct ActivityTree {
    pub usernameid_id: sled::Tree,
    pub usernameid_username: sled::Tree,
    pub usernameid_gear: sled::Tree,
    pub usernamegearid_id: sled::Tree,
    pub usernameid_session: sled::Tree,
    pub usernameid_record: sled::Tree,
    pub usernameid_lap: sled::Tree,
}

pub open spec fn gear_view(g: Option<String>) -> Option<Seq<char>> {
    match g {
        Some(s) => Some(s@),
        None => None,
    }
}

/// The key of activity `id` of account `u`.
pub open spec fn activity_key(u: Seq<char>, id: Seq<char>) -> Seq<u8> {
    key_of(seg(u), seg(id))
}

/// The key of activity `id` in the gear index of account `u`, gear `g`.
pub open spec fn gear_index_key(u: Seq<char>, g: Seq<char>, id: Seq<char>) -> Seq<u8> {
    key3_of(seg(u), seg(g), seg(id))
}

/// The gear index of `old` without the entry that the gear stored for key `k`
/// points at, if a gear is stored there.
pub open spec fn without_stale(old: ActivityTree, u: Seq<char>, id: Seq<char>) -> Map<Seq<u8>, Seq<u8>> {
    let k = activity_key(u, id);
    if entries(old.usernameid_gear).contains_key(k) {
        entries(old.usernamegearid_id).remove(key3_of(seg(u), entries(old.usernameid_gear)[k], seg(id)))
    } else {
        entries(old.usernamegearid_id)
    }
}

/// Every map of `new` is `old` with the activity written under account `u`;
/// the gear entries of an earlier version of the activity are gone.
pub open spec fn written(old: ActivityTree, new: ActivityTree, a: Activity, u: Seq<char>) -> bool {
    let k = activity_key(u, a.id@);
    &&& entries(new.usernameid_session) == entries(old.usernameid_session).insert(k, a.session@)
    &&& entries(new.usernameid_record) == entries(old.usernameid_record).insert(k, a.record@)
    &&& entries(new.usernameid_lap) == entries(old.usernameid_lap).insert(k, a.lap@)
    &&& entries(new.usernameid_id) == entries(old.usernameid_id).insert(k, seg(a.id@))
    &&& entries(new.usernameid_username) == entries(old.usernameid_username).insert(k, seg(u))
    &&& match a.gear_id {
        Some(g) => {
            &&& entries(new.usernameid_gear) == entries(old.usernameid_gear).insert(k, seg(g@))
            &&& entries(new.usernamegearid_id) == without_stale(old, u, a.id@).insert(
                gear_index_key(u, g@, a.id@),
                seg(a.id@),
            )
        },
        None => {
            &&& entries(new.usernameid_gear) == entries(old.usernameid_gear).remove(k)
            &&& entries(new.usernamegearid_id) == without_stale(old, u, a.id@)
        },
    }
}

/// The maps agree with one another: each key of the id map is the key of an
/// account and an id, and holds that id; each key of the gear index is the
/// key of an account, a gear and an id, holds that id, and that activity's
/// gear is that gear.
pub open spec fn well_formed(t: ActivityTree) -> bool {
    &&& forall|k: Seq<u8>| #[trigger] entries(t.usernameid_id).contains_key(k) ==> exists|u: Seq<char>, id: Seq<char>|
        k == #[trigger] activity_key(u, id) && entries(t.usernameid_id)[k] == seg(id)
    &&& forall|k: Seq<u8>| #[trigger] entries(t.usernamegearid_id).contains_key(k) ==> exists|u: Seq<char>, g: Seq<char>, id: Seq<char>|
        k == #[trigger] gear_index_key(u, g, id) && entries(t.usernamegearid_id)[k] == seg(id)
            && entries(t.usernameid_gear).contains_key(activity_key(u, id))
            && entries(t.usernameid_gear)[activity_key(u, id)] == seg(g)
}

/// Every map of `new` holds what the same map of `old` holds.
pub open spec fn unchanged(old: ActivityTree, new: ActivityTree) -> bool {
    &&& entries(new.usernameid_session) == entries(old.usernameid_session)
    &&& entries(new.usernameid_record) == entries(old.usernameid_record)
    &&& entries(new.usernameid_lap) == entries(old.usernameid_lap)
    &&& entries(new.usernameid_id) == entries(old.usernameid_id)
    &&& entries(new.usernameid_username) == entries(old.usernameid_username)
    &&& entries(new.usernameid_gear) == entries(old.usernameid_gear)
    &&& entries(new.usernamegearid_id) == entries(old.usernamegearid_id)
}

/// `new` is `old` after an insert-if-absent of the activity under account `u`.
pub open spec fn inserted(old: ActivityTree, new: ActivityTree, a: Activity, u: Seq<char>) -> bool {
    if entries(old.usernameid_id).contains_key(activity_key(u, a.id@)) {
        unchanged(old, new)
    } else {
        written(old, new, a, u)
    }
}

/// What a point lookup in map `m` under key `k` owes: the stored bytes, or
/// `NotFound` exactly when the key is absent, or an engine failure.
pub open spec fn lookup_result(r: Result<Vec<u8>, StoreError>, m: Map<Seq<u8>, Seq<u8>>, k: Seq<u8>) -> bool {
    match r {
        Ok(v) => m.contains_key(k) && v@ == m[k],
        Err(e) => (e == StoreError::NotFound && !m.contains_key(k)) || e == StoreError::Io,
    }
}

/// What a gear-id lookup owes: the outcome of decoding what is stored, or an
/// engine failure.
pub open spec fn gear_result(r: Result<Option<String>, StoreError>, m: Map<Seq<u8>, Seq<u8>>, k: Seq<u8>) -> bool {
    text_outcome(r, stored_at(m, k)) || r == Err::<Option<String>, StoreError>(StoreError::Io)
}

/// `ids` are the texts stored under prefix `p` of `m`, most recent key first,
/// leaving out values that are not UTF-8.
pub open spec fn ids_desc(ids: Seq<Seq<char>>, m: Map<Seq<u8>, Seq<u8>>, p: Seq<u8>) -> bool {
    exists|vals: Seq<Seq<u8>>| values_desc(vals, m, p) && ids == #[trigger] decode_all(vals)
}

pub open spec fn opt_views(v: Seq<Option<Vec<u8>>>) -> Seq<Option<Seq<u8>>> {
    v.map_values(|o: Option<Vec<u8>>| opt_bytes(o))
}

/// The present values, in order.
pub open spec fn somes(v: Seq<Option<Seq<u8>>>) -> Seq<Seq<u8>>
    decreases v.len(),
{
    if v.len() == 0 {
        seq![]
    } else {
        let rest = somes(v.drop_last());
        match v.last() {
            Some(b) => rest.push(b),
            None => rest,
        }
    }
}

/// The sessions stored for the ids, in the order of the ids, leaving out
/// ids with no session.
pub open spec fn stored_sessions(ids: Seq<Seq<char>>, m: Map<Seq<u8>, Seq<u8>>, u: Seq<char>) -> Seq<Seq<u8>> {
    somes(Seq::new(ids.len(), |i: int| stored_at(m, activity_key(u, ids[i]))))
}

/// The values that are present, in order.
pub fn present(v: Vec<Option<Vec<u8>>>) -> (r: Vec<Vec<u8>>)
    ensures
        byte_views(r@) == somes(opt_views(v@)),
{
    let ghost ov = opt_views(v@);
    let ghost n = v@.len();
    let mut rest = v;
    let mut rev: Vec<Option<Vec<u8>>> = Vec::new();
    while rest.len() > 0
        invariant
            rest@.len() + rev@.len() == n,
            n == ov.len(),
            opt_views(rest@) == ov.subrange(0, rest@.len() as int),
            forall|j: int| 0 <= j < rev@.len() ==> #[trigger] opt_bytes(rev@[j]) == ov[n - 1 - j],
        decreases rest@.len(),
    {
        let ghost before = rest@;
        let x = rest.pop().unwrap();
        proof {
            let k = rest@.len() as int;
            assert(opt_views(before)[k] == ov[k]);
            assert(opt_views(rest@) =~= ov.subrange(0, k));
        }
        rev.push(x);
    }
    let mut out: Vec<Vec<u8>> = Vec::new();
    while rev.len() > 0
        invariant
            rev@.len() <= n,
            n == ov.len(),
            forall|j: int| 0 <= j < rev@.len() ==> #[trigger] opt_bytes(rev@[j]) == ov[n - 1 - j],
            byte_views(out@) == somes(ov.subrange(0, n - rev@.len())),
        decreases rev@.len(),
    {
        let ghost before = rev@;
        let ghost k = n - rev@.len();
        let x = rev.pop().unwrap();
        let ghost s2 = ov.subrange(0, k + 1);
        proof {
            assert(opt_bytes(before[before.len() - 1]) == ov[k]);
            assert(s2.drop_last() =~= ov.subrange(0, k));
            assert(s2.last() == opt_bytes(x));
        }
        match x {
            Some(b) => {
                out.push(b);
                proof {
                    assert(byte_views(out@) =~= somes(s2));
                }
            },
            None => {
                proof {
                    assert(byte_views(out@) =~= somes(s2));
                }
            },
        }
    }
    proof {
        assert(ov.subrange(0, n as int) =~= ov);
    }
    out
}

/// The scan prefix of the gear index for account `u` and gear `g`.
pub open spec fn gear_prefix(u: Seq<char>, g: Seq<char>) -> Seq<u8> {
    prefix_of(seg(u)) + prefix_of(seg(g))
}

/// What `get_activity` owes for account `u` and id `id`.
pub open spec fn activity_result(r: Result<Activity, StoreError>, t: ActivityTree, u: Seq<char>, id: Seq<char>) -> bool {
    let k = activity_key(u, id);
    match r {
        Ok(a) => {
            &&& a.id@ == id
            &&& gear_result(Ok(a.gear_id), entries(t.usernameid_gear), k)
            &&& lookup_result(Ok(a.session), entries(t.usernameid_session), k)
            &&& lookup_result(Ok(a.record), entries(t.usernameid_record), k)
            &&& lookup_result(Ok(a.lap), entries(t.usernameid_lap), k)
        },
        Err(e) => {
            ||| e == StoreError::Io
            ||| e == StoreError::Corrupt && entries(t.usernameid_gear).contains_key(k) && !is_utf8(entries(t.usernameid_gear)[k])
            ||| e == StoreError::NotFound && !(entries(t.usernameid_session).contains_key(k)
                && entries(t.usernameid_record).contains_key(k) && entries(t.usernameid_lap).contains_key(k))
        },
    }
}

fn write(t: &mut sled::Tree, k: &Vec<u8>, v: &[u8]) -> (r: Result<(), StoreError>)
    ensures
        r is Ok ==> entries(*final(t)) == entries(*old(t)).insert(k@, v@),
        r matches Err(e) ==> e == StoreError::Io,
{
    match tree_insert(t, k, v) {
        Ok(()) => Ok(()),
        Err(e) => Err(io_error(e)),
    }
}

fn erase(t: &mut sled::Tree, k: &Vec<u8>) -> (r: Result<(), StoreError>)
    ensures
        r is Ok ==> entries(*final(t)) == entries(*old(t)).remove(k@),
        r matches Err(e) ==> e == StoreError::Io,
{
    match tree_remove(t, k) {
        Ok(()) => Ok(()),
        Err(e) => Err(io_error(e)),
    }
}

fn lookup(t: &sled::Tree, k: &Vec<u8>) -> (r: Result<Vec<u8>, StoreError>)
    ensures
        lookup_result(r, entries(*t), k@),
{
    match tree_get(t, k) {
        Ok(Some(v)) => Ok(v),
        Ok(None) => Err(StoreError::NotFound),
        Err(e) => Err(io_error(e)),
    }
}

impl ActivityTree {
    /// Whether account `username` holds an activity `id`.
    pub fn contains(&self, username: &str, id: &str) -> (r: Result<bool, StoreError>)
        ensures
            r matches Ok(b) ==> b == entries(self.usernameid_id).contains_key(activity_key(username@, id@)),
            r matches Err(e) ==> e == StoreError::Io,
    {
        let k = key(username, id);
        match tree_contains(&self.usernameid_id, &k) {
            Ok(b) => Ok(b),
            Err(e) => Err(io_error(e)),
        }
    }

    /// Writes the activity under account `username`, replacing what was stored
    /// under its id, gear entries included.
    pub fn insert_or_overwrite(&mut self, activity: Activity, username: &str) -> (r: Result<(), StoreError>)
        ensures
            r is Ok ==> written(*old(self), *final(self), activity, username@),
            r matches Err(e) ==> e == StoreError::Io,
    {
        let k = key(username, activity.id.as_str());
        let stale = match tree_get(&self.usernameid_gear, &k) {
            Ok(o) => o,
            Err(e) => return Err(io_error(e)),
        };
        write(&mut self.usernameid_session, &k, activity.session.as_slice())?;
        write(&mut self.usernameid_record, &k, activity.record.as_slice())?;
        write(&mut self.usernameid_lap, &k, activity.lap.as_slice())?;
        write(&mut self.usernameid_id, &k, activity.id.as_str().as_bytes())?;
        match stale {
            Some(g) => {
                let sk = key3_raw(username, &g, activity.id.as_str());
                erase(&mut self.usernamegearid_id, &sk)?;
            },
            None => {},
        }
        match &activity.gear_id {
            Some(g) => {
                write(&mut self.usernameid_gear, &k, g.as_str().as_bytes())?;
                let gk = key3(username, g.as_str(), activity.id.as_str());
                write(&mut self.usernamegearid_id, &gk, activity.id.as_str().as_bytes())?;
            },
            None => {
                erase(&mut self.usernameid_gear, &k)?;
            },
        }
        write(&mut self.usernameid_username, &k, username.as_bytes())?;
        Ok(())
    }

    /// Writes the activity unless account `username` already holds its id, in
    /// which case nothing changes.
    pub fn insert(&mut self, activity: Activity, username: &str) -> (r: Result<(), StoreError>)
        ensures
            r is Ok ==> inserted(*old(self), *final(self), activity, username@),
            r matches Err(e) ==> e == StoreError::Io,
    {
        if !self.contains(username, activity.id.as_str())? {
            self.insert_or_overwrite(activity, username)
        } else {
            Ok(())
        }
    }
    /// The encoded session summary of activity `id` of account `username`.
    pub fn get_session(&self, username: &str, id: &str) -> (r: Result<Vec<u8>, StoreError>)
        ensures
            lookup_result(r, entries(self.usernameid_session), activity_key(username@, id@)),
    {
        lookup(&self.usernameid_session, &key(username, id))
    }

    /// The encoded time series of activity `id` of account `username`.
    pub fn get_record(&self, username: &str, id: &str) -> (r: Result<Vec<u8>, StoreError>)
        ensures
            lookup_result(r, entries(self.usernameid_record), activity_key(username@, id@)),
    {
        lookup(&self.usernameid_record, &key(username, id))
    }

    /// The encoded laps of activity `id` of account `username`.
    pub fn get_lap(&self, username: &str, id: &str) -> (r: Result<Vec<u8>, StoreError>)
        ensures
            lookup_result(r, entries(self.usernameid_lap), activity_key(username@, id@)),
    {
        lookup(&self.usernameid_lap, &key(username, id))
    }

    /// The gear of activity `id` of account `username`; none when it has none.
    pub fn get_gear_id(&self, username: &str, id: &str) -> (r: Result<Option<String>, StoreError>)
        ensures
            gear_result(r, entries(self.usernameid_gear), activity_key(username@, id@)),
    {
        match tree_get(&self.usernameid_gear, &key(username, id)) {
            Ok(o) => text_of(o),
            Err(e) => Err(io_error(e)),
        }
    }

    /// The whole activity `id` of account `username`.
    pub fn get_activity(&self, username: &str, id: &str) -> (r: Result<Activity, StoreError>)
        ensures
            activity_result(r, *self, username@, id@),
    {
        let gear_id = self.get_gear_id(username, id)?;
        let session = self.get_session(username, id)?;
        let record = self.get_record(username, id)?;
        let lap = self.get_lap(username, id)?;
        Ok(Activity { id: id.to_owned(), gear_id, session, record, lap })
    }

    /// The ids of the activities of account `username` on gear `gear`, most recent first.
    pub fn username_gear_iter_id(&self, username: &str, gear: &str) -> (r: Result<Vec<String>, StoreError>)
        ensures
            r matches Ok(v) ==> ids_desc(string_views(v@), entries(self.usernamegearid_id), gear_prefix(username@, gear@)),
            r matches Err(e) ==> e == StoreError::Io,
    {
        let mut p = key(username, gear);
        p.push(SEPARATOR);
        let vals = scan_values_desc(&self.usernamegearid_id, &p)?;
        Ok(decode_strings(vals))
    }

    /// The encoded session summaries of account `username`, most recent first.
    pub fn username_iter_session(&self, username: &str) -> (r: Result<Vec<Vec<u8>>, StoreError>)
        ensures
            r matches Ok(v) ==> values_desc(byte_views(v@), entries(self.usernameid_session), prefix_of(seg(username@))),
            r matches Err(e) ==> e == StoreError::Io,
    {
        scan_values_desc(&self.usernameid_session, &key_prefix(username))
    }

    /// The activity ids of account `username`, most recent first.
    pub fn username_iter_id(&self, username: &str) -> (r: Result<Vec<String>, StoreError>)
        ensures
            r matches Ok(v) ==> ids_desc(string_views(v@), entries(self.usernameid_id), prefix_of(seg(username@))),
            r matches Err(e) ==> e == StoreError::Io,
    {
        let vals = scan_values_desc(&self.usernameid_id, &key_prefix(username))?;
        Ok(decode_strings(vals))
    }

    /// The account of every activity of every account, in descending key order.
    pub fn iter_username(&self) -> (r: Result<Vec<String>, StoreError>)
        ensures
            r matches Ok(v) ==> ids_desc(string_views(v@), entries(self.usernameid_username), seq![]),
            r matches Err(e) ==> e == StoreError::Io,
    {
        let vals = scan_values_desc(&self.usernameid_username, &Vec::new())?;
        Ok(decode_strings(vals))
    }

    /// The encoded session summaries of every account, in descending key order.
    pub fn iter_session(&self) -> (r: Result<Vec<Vec<u8>>, StoreError>)
        ensures
            r matches Ok(v) ==> values_desc(byte_views(v@), entries(self.usernameid_session), seq![]),
            r matches Err(e) ==> e == StoreError::Io,
    {
        scan_values_desc(&self.usernameid_session, &Vec::new())
    }

    /// The encoded time series of every account, in descending key order.
    pub fn iter_record(&self) -> (r: Result<Vec<Vec<u8>>, StoreError>)
        ensures
            r matches Ok(v) ==> values_desc(byte_views(v@), entries(self.usernameid_record), seq![]),
            r matches Err(e) ==> e == StoreError::Io,
    {
        scan_values_desc(&self.usernameid_record, &Vec::new())
    }

    /// The activity ids of every account, in descending key order.
    pub fn iter_id(&self) -> (r: Result<Vec<String>, StoreError>)
        ensures
            r matches Ok(v) ==> ids_desc(string_views(v@), entries(self.usernameid_id), seq![]),
            r matches Err(e) ==> e == StoreError::Io,
    {
        let vals = scan_values_desc(&self.usernameid_id, &Vec::new())?;
        Ok(decode_strings(vals))
    }

    /// The encoded sessions of the activities of account `username` on gear
    /// `gear`, most recent first: each id of the gear index is looked up in
    /// turn, and an id with no session is passed over.
    pub fn gear_sessions(&self, username: &str, gear: &str) -> (r: Result<Vec<Vec<u8>>, StoreError>)
        ensures
            r matches Ok(v) ==> exists|ids: Seq<Seq<char>>|
                ids_desc(ids, entries(self.usernamegearid_id), gear_prefix(username@, gear@))
                    && byte_views(v@) == #[trigger] stored_sessions(ids, entries(self.usernameid_session), username@),
            r matches Err(e) ==> e == StoreError::Io,
    {
        let ids = self.username_gear_iter_id(username, gear)?;
        let ghost m = entries(self.usernameid_session);
        let ghost want = Seq::new(ids@.len(), |j: int| stored_at(m, activity_key(username@, ids@[j]@)));
        let mut found: Vec<Option<Vec<u8>>> = Vec::new();
        let mut i: usize = 0;
        while i < ids.len()
            invariant
                i <= ids@.len(),
                m == entries(self.usernameid_session),
                want.len() == ids@.len(),
                want == Seq::new(ids@.len(), |j: int| stored_at(m, activity_key(username@, ids@[j]@))),
                found@.len() == i,
                opt_views(found@) == want.subrange(0, i as int),
            decreases ids@.len() - i,
        {
            let k = key(username, ids[i].as_str());
            match tree_get(&self.usernameid_session, &k) {
                Ok(o) => {
                    proof {
                        assert(k@ == activity_key(username@, ids@[i as int]@));
                        assert(opt_bytes(o) == stored_at(m, k@));
                        assert(opt_bytes(o) == want[i as int]);
                    }
                    let ghost before = found@;
                    let ghost ob = opt_bytes(o);
                    found.push(o);
                    proof {
                        assert forall|j: int| 0 <= j < i + 1 implies #[trigger] opt_views(found@)[j] == want[j] by {
                            if j < i {
                                assert(found@[j] == before[j]);
                                assert(opt_views(before)[j] == want[j]);
                            } else {
                                assert(opt_bytes(found@[j]) == ob);
                            }
                        }
                        assert(opt_views(found@) =~= want.subrange(0, i + 1));
                    }
                },
                Err(e) => return Err(io_error(e)),
            }
            i = i + 1;
        }
        proof {
            assert(opt_views(found@) =~= want);
            assert(want =~= Seq::new(string_views(ids@).len(), |j: int| stored_at(m, activity_key(username@, string_views(ids@)[j]))));
        }
        let out = present(found);
        proof {
            assert(byte_views(out@) == stored_sessions(string_views(ids@), m, username@));
        }
        Ok(out)
    }
}

} // verus!
