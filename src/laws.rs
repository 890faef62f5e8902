//! Laws that relate the store's operations to one another.
use vstd::prelude::*;
use crate::activities::{
    activity_key, activity_result, gear_index_key, gear_prefix, gear_view, ids_desc, inserted, well_formed, without_stale, written, Activity,
    ActivityTree,
};
use crate::keys::{has_prefix, key3_of, lemma_key_split, lemma_seg_no_separator, lemma_key3_injective, lemma_prefix_isolation, prefix_of, seg};
use crate::store::{
    bytes_lt, decode_all, decoded, entries, is_descending_scan, is_utf8, lemma_decoded_of_encoding, lemma_encoding_injective,
    stored_at, values_desc, StoreError,
};
use crate::users::{created, heartrate_result, verify_result};

verus! {

/// No activity exists in an empty store, and an activity exists as soon as it
/// has been written, by either insertion.
pub proof fn lemma_exists_after_insert(empty: ActivityTree, old: ActivityTree, new: ActivityTree, a: Activity, u: Seq<char>)
    requires
        entries(empty.usernameid_id) == Map::<Seq<u8>, Seq<u8>>::empty(),
        written(old, new, a, u) || inserted(old, new, a, u),
    ensures
        !entries(empty.usernameid_id).contains_key(activity_key(u, a.id@)),
        entries(new.usernameid_id).contains_key(activity_key(u, a.id@)),
{
}

/// The stored payloads of the activity with id `id` of account `u`.
pub open spec fn payload(t: ActivityTree, u: Seq<char>, id: Seq<char>) -> (Seq<u8>, Seq<u8>, Seq<u8>) {
    let k = activity_key(u, id);
    (entries(t.usernameid_session)[k], entries(t.usernameid_record)[k], entries(t.usernameid_lap)[k])
}

/// Inserting the same id a second time keeps the first payload, while
/// overwriting always leaves the latest one.
pub proof fn lemma_insert_keeps_first(
    s0: ActivityTree,
    s1: ActivityTree,
    s2: ActivityTree,
    s3: ActivityTree,
    a1: Activity,
    a2: Activity,
    a3: Activity,
    u: Seq<char>,
)
    requires
        !entries(s0.usernameid_id).contains_key(activity_key(u, a1.id@)),
        inserted(s0, s1, a1, u),
        inserted(s1, s2, a2, u),
        a2.id@ == a1.id@,
        written(s2, s3, a3, u),
    ensures
        payload(s2, u, a1.id@) == (a1.session@, a1.record@, a1.lap@),
        payload(s3, u, a3.id@) == (a3.session@, a3.record@, a3.lap@),
{
}

/// Reading back an activity just written gives it back whole, gear included,
/// or fails only for an engine error.
pub proof fn lemma_round_trip(old: ActivityTree, new: ActivityTree, a: Activity, u: Seq<char>, r: Result<Activity, StoreError>)
    requires
        written(old, new, a, u),
        activity_result(r, new, u, a.id@),
    ensures
        r matches Ok(b) ==> b.id@ == a.id@ && gear_view(b.gear_id) == gear_view(a.gear_id) && b.session@
            == a.session@ && b.record@ == a.record@ && b.lap@ == a.lap@,
        r matches Err(e) ==> e == StoreError::Io,
{
    let k = activity_key(u, a.id@);
    assert(entries(new.usernameid_session).contains_key(k));
    assert(entries(new.usernameid_record).contains_key(k));
    assert(entries(new.usernameid_lap).contains_key(k));
    match a.gear_id {
        Some(g) => {
            lemma_decoded_of_encoding(g@);
            assert(entries(new.usernameid_gear)[k] == seg(g@));
            if let Ok(b) = r {
                if let Some(s) = b.gear_id {
                    assert(seg(g@) == entries(new.usernameid_gear)[k]);
                    assert(s@ == g@);
                }
                assert(b.gear_id is Some);
                assert(gear_view(b.gear_id) == gear_view(a.gear_id));
                assert(b.session@ == a.session@);
                assert(b.id@ == a.id@);
            }
            if let Err(e) = r {
                assert(e != StoreError::Corrupt);
                assert(e != StoreError::NotFound);
            }
        },
        None => {},
    }
}

/// A scan bounded to account `bob` meets no key of another account `alice`:
/// neither one of its activities nor one of its gear-index entries.
pub proof fn lemma_account_isolation(
    kv: Seq<(Seq<u8>, Seq<u8>)>,
    m: Map<Seq<u8>, Seq<u8>>,
    p: Seq<u8>,
    alice: Seq<char>,
    bob: Seq<char>,
)
    requires
        alice != bob,
        has_prefix(p, prefix_of(seg(bob))),
        is_descending_scan(kv, m, p),
    ensures
        forall|i: int, id: Seq<char>| 0 <= i < kv.len() ==> #[trigger] kv[i].0 != #[trigger] activity_key(alice, id),
        forall|i: int, g: Seq<char>, id: Seq<char>|
            0 <= i < kv.len() ==> #[trigger] kv[i].0 != #[trigger] gear_index_key(alice, g, id),
        forall|id: Seq<char>| #[trigger] activity_key(alice, id) != activity_key(bob, id),
{
    lemma_encoding_injective(alice, bob);
    lemma_seg_no_separator(alice);
    lemma_seg_no_separator(bob);
    let pb = prefix_of(seg(bob));
    assert forall|i: int, id: Seq<char>| 0 <= i < kv.len() implies #[trigger] kv[i].0 != #[trigger] activity_key(alice, id) by {
        lemma_prefix_isolation(seg(alice), seg(bob), seg(id));
        let k = kv[i].0;
        if k == activity_key(alice, id) {
            assert(k.subrange(0, pb.len() as int) =~= p.subrange(0, pb.len() as int));
        }
    }
    assert forall|i: int, g: Seq<char>, id: Seq<char>| 0 <= i < kv.len() implies #[trigger] kv[i].0 != #[trigger] gear_index_key(alice, g, id) by {
        lemma_prefix_isolation(seg(alice), seg(bob), prefix_of(seg(g)) + seg(id));
        let k = kv[i].0;
        assert(gear_index_key(alice, g, id) =~= prefix_of(seg(alice)) + (prefix_of(seg(g)) + seg(id)));
        if k == gear_index_key(alice, g, id) {
            assert(k.subrange(0, pb.len() as int) =~= p.subrange(0, pb.len() as int));
        }
    }
    assert forall|id: Seq<char>| #[trigger] activity_key(alice, id) != activity_key(bob, id) by {
        lemma_prefix_isolation(seg(alice), seg(bob), seg(id));
        let k = activity_key(bob, id);
        assert(k.subrange(0, pb.len() as int) =~= pb);
    }
}

proof fn lemma_decode_all_has(bs: Seq<Seq<u8>>, i: int)
    requires
        0 <= i < bs.len(),
        is_utf8(bs[i]),
    ensures
        decode_all(bs).contains(decoded(bs[i])),
    decreases bs.len(),
{
    if i == bs.len() - 1 {
        assert(decode_all(bs).last() == decoded(bs[i]));
    } else {
        lemma_decode_all_has(bs.drop_last(), i);
        let prev = decode_all(bs.drop_last());
        let j = choose|j: int| 0 <= j < prev.len() && prev[j] == decoded(bs[i]);
        if is_utf8(bs.last()) {
            assert(decode_all(bs)[j] == prev[j]);
        }
    }
}

/// The gear index agrees with the gear map for activity `id` of account `u`:
/// an index entry under gear `g` exists only where `g` is the activity's gear.
pub open spec fn gear_consistent(t: ActivityTree, u: Seq<char>, id: Seq<char>) -> bool {
    forall|g: Seq<char>| #[trigger] entries(t.usernamegearid_id).contains_key(gear_index_key(u, g, id)) ==> {
        &&& entries(t.usernameid_gear).contains_key(activity_key(u, id))
        &&& entries(t.usernameid_gear)[activity_key(u, id)] == seg(g)
    }
}

/// An activity written with gear `g` is listed among the ids of that gear.
/// Written over a store whose gear index agreed with its gear map for that
/// activity, the store agrees again, and so the activity appears under no
/// other gear, and under none at all when it has no gear.
pub proof fn lemma_gear_index(old: ActivityTree, new: ActivityTree, a: Activity, u: Seq<char>, ids: Seq<Seq<char>>)
    requires
        written(old, new, a, u),
        a.gear_id is Some ==> ids_desc(ids, entries(new.usernamegearid_id), gear_prefix(u, a.gear_id->Some_0@)),
    ensures
        a.gear_id is Some ==> ids.contains(a.id@),
        gear_consistent(old, u, a.id@) ==> gear_consistent(new, u, a.id@),
        gear_consistent(old, u, a.id@) && a.gear_id is None ==> forall|g: Seq<char>|
            !(#[trigger] entries(new.usernamegearid_id).contains_key(gear_index_key(u, g, a.id@))),
{
    let k = activity_key(u, a.id@);
    if let Some(g) = a.gear_id {
        let m = entries(new.usernamegearid_id);
        let p = gear_prefix(u, g@);
        let gk = gear_index_key(u, g@, a.id@);
        let vals = choose|vals: Seq<Seq<u8>>| values_desc(vals, m, p) && ids == #[trigger] decode_all(vals);
        let kv = choose|kv: Seq<(Seq<u8>, Seq<u8>)>|
            is_descending_scan(kv, m, p) && #[trigger] kv.len() == vals.len()
                && forall|i: int| 0 <= i < kv.len() ==> #[trigger] kv[i].1 == vals[i];
        assert(gk.subrange(0, p.len() as int) =~= p);
        assert(m.contains_key(gk) && has_prefix(gk, p));
        let i = choose|i: int| 0 <= i < kv.len() && kv[i].0 == gk;
        assert(vals[i] == seg(a.id@));
        lemma_decoded_of_encoding(a.id@);
        lemma_decode_all_has(vals, i);
    }
    if gear_consistent(old, u, a.id@) {
        assert forall|g: Seq<char>| #[trigger] entries(new.usernamegearid_id).contains_key(gear_index_key(u, g, a.id@)) implies {
            &&& entries(new.usernameid_gear).contains_key(k)
            &&& entries(new.usernameid_gear)[k] == seg(g)
        } by {
            let gk = gear_index_key(u, g, a.id@);
            let ws = without_stale(old, u, a.id@);
            if let Some(g2) = a.gear_id {
                lemma_key3_injective(seg(u), seg(g), seg(g2@), seg(a.id@));
                lemma_encoding_injective(g, g2@);
                if g != g2@ {
                    assert(ws.contains_key(gk));
                    assert(entries(old.usernamegearid_id).contains_key(gk));
                    lemma_key3_injective(seg(u), seg(g), entries(old.usernameid_gear)[k], seg(a.id@));
                }
            } else {
                assert(ws.contains_key(gk));
                assert(entries(old.usernamegearid_id).contains_key(gk));
                lemma_key3_injective(seg(u), seg(g), entries(old.usernameid_gear)[k], seg(a.id@));
            }
        }
    }
}

/// After an account is created, verification with the password it was
/// created with succeeds unless the engine fails, and never reports the
/// account as missing or its hash as damaged.
pub proof fn lemma_password(
    old: Map<Seq<u8>, Seq<u8>>,
    new: Map<Seq<u8>, Seq<u8>>,
    u: Seq<char>,
    pw: Seq<char>,
    other: Seq<char>,
    r: Result<bool, StoreError>,
)
    requires
        created(old, new, u, pw),
        verify_result(r, new, seg(u), seg(other)),
    ensures
        other == pw ==> (r == Ok::<bool, StoreError>(true) || r == Err::<bool, StoreError>(StoreError::Io)),
        r != Err::<bool, StoreError>(StoreError::NotFound),
        r != Err::<bool, StoreError>(StoreError::Corrupt),
{
    let salt = choose|salt: Seq<u8>|
        salt.len() == crate::users::SALT_LEN && new == old.insert(seg(u), seg(#[trigger] crate::users::argon2_encoded(seg(pw), salt)));
    lemma_decoded_of_encoding(crate::users::argon2_encoded(seg(pw), salt));
}

/// A heart-rate pair is never read back when only one of its two values is stored.
pub proof fn lemma_heartrate_needs_both(
    r: Result<Option<(u8, u8)>, StoreError>,
    rest: Map<Seq<u8>, Seq<u8>>,
    max: Map<Seq<u8>, Seq<u8>>,
    k: Seq<u8>,
)
    requires
        heartrate_result(r, rest, max, k),
        rest.contains_key(k) != max.contains_key(k),
    ensures
        r == Ok::<Option<(u8, u8)>, StoreError>(None) || r == Err::<Option<(u8, u8)>, StoreError>(StoreError::Io),
{
}

/// Writing an activity keeps the maps in agreement.
pub proof fn lemma_written_well_formed(old: ActivityTree, new: ActivityTree, a: Activity, u: Seq<char>)
    requires
        well_formed(old),
        written(old, new, a, u),
    ensures
        well_formed(new),
{
    let k0 = activity_key(u, a.id@);
    let mi = entries(new.usernameid_id);
    assert forall|k: Seq<u8>| #[trigger] mi.contains_key(k) implies exists|u2: Seq<char>, id: Seq<char>|
        k == #[trigger] activity_key(u2, id) && mi[k] == seg(id) by {
        if k == k0 {
            assert(k == activity_key(u, a.id@) && mi[k] == seg(a.id@));
        } else {
            assert(entries(old.usernameid_id).contains_key(k));
        }
    }
    let mg = entries(new.usernamegearid_id);
    let gm = entries(new.usernameid_gear);
    let ogm = entries(old.usernameid_gear);
    assert forall|k: Seq<u8>| #[trigger] mg.contains_key(k) implies exists|u2: Seq<char>, g: Seq<char>, id: Seq<char>|
        k == #[trigger] gear_index_key(u2, g, id) && mg[k] == seg(id) && gm.contains_key(activity_key(u2, id))
            && gm[activity_key(u2, id)] == seg(g) by {
        let fresh = match a.gear_id {
            Some(g) => k == gear_index_key(u, g@, a.id@),
            None => false,
        };
        if fresh {
            let g = a.gear_id->Some_0;
            assert(k == gear_index_key(u, g@, a.id@) && mg[k] == seg(a.id@) && gm.contains_key(activity_key(u, a.id@))
                && gm[activity_key(u, a.id@)] == seg(g@));
        } else {
            assert(without_stale(old, u, a.id@).contains_key(k));
            assert(entries(old.usernamegearid_id).contains_key(k));
            let (u2, g2, id2) = choose|u2: Seq<char>, g: Seq<char>, id: Seq<char>|
                k == #[trigger] gear_index_key(u2, g, id) && entries(old.usernamegearid_id)[k] == seg(id)
                    && ogm.contains_key(activity_key(u2, id)) && ogm[activity_key(u2, id)] == seg(g);
            assert(mg[k] == entries(old.usernamegearid_id)[k]);
            let k2 = activity_key(u2, id2);
            if k2 == k0 {
                lemma_key_split(u2, id2, u, a.id@);
                assert(k == key3_of(seg(u), ogm[k0], seg(a.id@)));
                assert(!without_stale(old, u, a.id@).contains_key(k));
            }
            assert(gm.contains_key(k2) && gm[k2] == seg(g2));
        }
    }
}
proof fn lemma_decode_all_from(bs: Seq<Seq<u8>>, j: int)
    requires
        0 <= j < decode_all(bs).len(),
    ensures
        exists|m: int| 0 <= m < bs.len() && is_utf8(bs[m]) && decoded(bs[m]) == decode_all(bs)[j],
    decreases bs.len(),
{
    let prev = decode_all(bs.drop_last());
    if j < prev.len() {
        lemma_decode_all_from(bs.drop_last(), j);
        let m = choose|m: int| 0 <= m < bs.drop_last().len() && is_utf8(bs.drop_last()[m]) && decoded(bs.drop_last()[m]) == prev[j];
        assert(bs[m] == bs.drop_last()[m]);
        if is_utf8(bs.last()) {
            assert(decode_all(bs)[j] == prev[j]);
        }
    } else {
        assert(is_utf8(bs.last()));
        assert(decode_all(bs)[j] == decoded(bs.last()));
        assert(bs.last() == bs[bs.len() - 1]);
    }
}

/// A key that starts with the prefix of account `b` belongs to account `b`.
proof fn lemma_owner(a: Seq<char>, rest: Seq<u8>, b: Seq<char>)
    requires
        has_prefix(prefix_of(seg(a)) + rest, prefix_of(seg(b))),
    ensures
        a == b,
{
    lemma_seg_no_separator(a);
    lemma_seg_no_separator(b);
    lemma_encoding_injective(a, b);
    if seg(a) != seg(b) {
        lemma_prefix_isolation(seg(a), seg(b), rest);
    }
}

/// The id listing of account `bob` never yields an id that `bob` has not
/// stored, whatever other accounts have stored under that id.
pub proof fn lemma_listing_isolation(t: ActivityTree, bob: Seq<char>, i: Seq<char>, ids: Seq<Seq<char>>)
    requires
        well_formed(t),
        ids_desc(ids, entries(t.usernameid_id), prefix_of(seg(bob))),
        !entries(t.usernameid_id).contains_key(activity_key(bob, i)),
    ensures
        !ids.contains(i),
{
    let m = entries(t.usernameid_id);
    let p = prefix_of(seg(bob));
    let vals = choose|vals: Seq<Seq<u8>>| values_desc(vals, m, p) && ids == #[trigger] decode_all(vals);
    let kv = choose|kv: Seq<(Seq<u8>, Seq<u8>)>|
        is_descending_scan(kv, m, p) && #[trigger] kv.len() == vals.len()
            && forall|x: int| 0 <= x < kv.len() ==> #[trigger] kv[x].1 == vals[x];
    if ids.contains(i) {
        let j = choose|j: int| 0 <= j < ids.len() && ids[j] == i;
        lemma_decode_all_from(vals, j);
        let x = choose|x: int| 0 <= x < vals.len() && is_utf8(vals[x]) && decoded(vals[x]) == decode_all(vals)[j];
        let k = kv[x].0;
        assert(m.contains_key(k) && has_prefix(k, p) && m[k] == vals[x]);
        let (u2, id2) = choose|u2: Seq<char>, id: Seq<char>| k == #[trigger] activity_key(u2, id) && m[k] == seg(id);
        lemma_owner(u2, seg(id2), bob);
        lemma_decoded_of_encoding(id2);
        assert(id2 == i);
    }
}
proof fn lemma_bytes_lt_irreflexive(a: Seq<u8>)
    ensures
        !bytes_lt(a, a),
    decreases a.len(),
{
    if a.len() > 0 {
        lemma_bytes_lt_irreflexive(a.subrange(1, a.len() as int));
    }
}

proof fn lemma_decode_all_pointwise(bs: Seq<Seq<u8>>)
    requires
        forall|i: int| 0 <= i < bs.len() ==> is_utf8(#[trigger] bs[i]),
    ensures
        decode_all(bs).len() == bs.len(),
        forall|i: int| 0 <= i < bs.len() ==> #[trigger] decode_all(bs)[i] == decoded(bs[i]),
    decreases bs.len(),
{
    if bs.len() > 0 {
        let d = bs.drop_last();
        assert(forall|i: int| 0 <= i < d.len() ==> d[i] == bs[i]);
        lemma_decode_all_pointwise(d);
        assert(is_utf8(bs[bs.len() - 1]));
    }
}

/// The key of a gear-index entry under the prefix of account `u` and gear `g`
/// names that account and that gear.
proof fn lemma_gear_owner(u2: Seq<char>, g2: Seq<char>, id: Seq<char>, u: Seq<char>, g: Seq<char>)
    requires
        has_prefix(gear_index_key(u2, g2, id), gear_prefix(u, g)),
    ensures
        u2 == u,
        g2 == g,
{
    let k = gear_index_key(u2, g2, id);
    let rest = prefix_of(seg(g2)) + seg(id);
    assert(k =~= prefix_of(seg(u2)) + rest);
    let pu = prefix_of(seg(u));
    let gp = gear_prefix(u, g);
    assert(k.subrange(0, gp.len() as int) == gp);
    assert(gp.subrange(0, pu.len() as int) =~= pu);
    assert(k.subrange(0, pu.len() as int) =~= k.subrange(0, gp.len() as int).subrange(0, pu.len() as int));
    assert(has_prefix(k, pu));
    lemma_owner(u2, rest, u);
    let n = pu.len() as int;
    let pg = prefix_of(seg(g));
    assert(rest =~= k.subrange(n, k.len() as int));
    assert(rest.subrange(0, pg.len() as int) =~= k.subrange(n, n + pg.len()));
    assert(gp.subrange(n, n + pg.len()) =~= pg);
    assert(k.subrange(n, n + pg.len()) =~= k.subrange(0, gp.len() as int).subrange(n, n + pg.len()));
    assert(has_prefix(rest, pg));
    lemma_owner(g2, seg(id), g);
}

/// In a store whose maps agree, the id listing of one gear names each
/// activity at most once; with `lemma_gear_index`, an activity written with
/// that gear is listed exactly once.
pub proof fn lemma_gear_listing_once(t: ActivityTree, u: Seq<char>, g: Seq<char>, ids: Seq<Seq<char>>)
    requires
        well_formed(t),
        ids_desc(ids, entries(t.usernamegearid_id), gear_prefix(u, g)),
    ensures
        forall|j1: int, j2: int| 0 <= j1 < j2 < ids.len() ==> #[trigger] ids[j1] != #[trigger] ids[j2],
{
    let m = entries(t.usernamegearid_id);
    let p = gear_prefix(u, g);
    let vals = choose|vals: Seq<Seq<u8>>| values_desc(vals, m, p) && ids == #[trigger] decode_all(vals);
    let kv = choose|kv: Seq<(Seq<u8>, Seq<u8>)>|
        is_descending_scan(kv, m, p) && #[trigger] kv.len() == vals.len()
            && forall|x: int| 0 <= x < kv.len() ==> #[trigger] kv[x].1 == vals[x];
    assert forall|x: int| 0 <= x < vals.len() implies gear_index_key(u, g, decoded(#[trigger] vals[x])) == kv[x].0
        && is_utf8(vals[x]) by {
        let k = kv[x].0;
        assert(m.contains_key(k) && has_prefix(k, p) && m[k] == vals[x]);
        let (u2, g2, id2) = choose|u2: Seq<char>, g2: Seq<char>, id: Seq<char>|
            k == #[trigger] gear_index_key(u2, g2, id) && m[k] == seg(id)
                && entries(t.usernameid_gear).contains_key(activity_key(u2, id))
                && entries(t.usernameid_gear)[activity_key(u2, id)] == seg(g2);
        lemma_gear_owner(u2, g2, id2, u, g);
        lemma_decoded_of_encoding(id2);
    }
    lemma_decode_all_pointwise(vals);
    assert forall|j1: int, j2: int| 0 <= j1 < j2 < ids.len() implies #[trigger] ids[j1] != #[trigger] ids[j2] by {
        assert(gear_index_key(u, g, decoded(vals[j1])) == kv[j1].0);
        assert(gear_index_key(u, g, decoded(vals[j2])) == kv[j2].0);
        assert(bytes_lt(kv[j2].0, kv[j1].0));
        lemma_bytes_lt_irreflexive(kv[j1].0);
    }
}
/// A listing of gear `g` of account `u` never yields an activity of `u`
/// that has no gear, when the maps agree; after an overwrite without gear,
/// the activity has none.
pub proof fn lemma_no_gear_unlisted(t: ActivityTree, u: Seq<char>, g: Seq<char>, id: Seq<char>, ids: Seq<Seq<char>>)
    requires
        well_formed(t),
        !entries(t.usernameid_gear).contains_key(activity_key(u, id)),
        ids_desc(ids, entries(t.usernamegearid_id), gear_prefix(u, g)),
    ensures
        !ids.contains(id),
{
    let m = entries(t.usernamegearid_id);
    let p = gear_prefix(u, g);
    let vals = choose|vals: Seq<Seq<u8>>| values_desc(vals, m, p) && ids == #[trigger] decode_all(vals);
    let kv = choose|kv: Seq<(Seq<u8>, Seq<u8>)>|
        is_descending_scan(kv, m, p) && #[trigger] kv.len() == vals.len()
            && forall|x: int| 0 <= x < kv.len() ==> #[trigger] kv[x].1 == vals[x];
    if ids.contains(id) {
        let j = choose|j: int| 0 <= j < ids.len() && ids[j] == id;
        lemma_decode_all_from(vals, j);
        let x = choose|x: int| 0 <= x < vals.len() && is_utf8(vals[x]) && decoded(vals[x]) == decode_all(vals)[j];
        let k = kv[x].0;
        assert(m.contains_key(k) && has_prefix(k, p) && m[k] == vals[x]);
        let (u2, g2, id2) = choose|u2: Seq<char>, g2: Seq<char>, i2: Seq<char>|
            k == #[trigger] gear_index_key(u2, g2, i2) && m[k] == seg(i2)
                && entries(t.usernameid_gear).contains_key(activity_key(u2, i2))
                && entries(t.usernameid_gear)[activity_key(u2, i2)] == seg(g2);
        lemma_gear_owner(u2, g2, id2, u, g);
        lemma_decoded_of_encoding(id2);
        assert(id2 == id);
    }
}

/// `m1` and `m2` hold the same under every key that starts with `p`.
pub open spec fn same_under(m1: Map<Seq<u8>, Seq<u8>>, m2: Map<Seq<u8>, Seq<u8>>, p: Seq<u8>) -> bool {
    forall|k: Seq<u8>| #[trigger] has_prefix(k, p) ==> stored_at(m1, k) == stored_at(m2, k)
}

proof fn lemma_prefix_trans(k: Seq<u8>, p: Seq<u8>, q: Seq<u8>)
    requires
        has_prefix(k, p),
        has_prefix(p, q),
    ensures
        has_prefix(k, q),
{
    assert(k.subrange(0, q.len() as int) =~= k.subrange(0, p.len() as int).subrange(0, q.len() as int));
}

/// A key of account `a` never starts with the prefix of another account `b`.
proof fn lemma_not_owner(a: Seq<char>, rest: Seq<u8>, b: Seq<char>, k: Seq<u8>, p: Seq<u8>)
    requires
        a != b,
        k == prefix_of(seg(a)) + rest,
        has_prefix(p, prefix_of(seg(b))),
    ensures
        !has_prefix(k, p),
{
    if has_prefix(k, p) {
        lemma_prefix_trans(k, p, prefix_of(seg(b)));
        lemma_owner(a, rest, b);
    }
}

/// Writing an activity of account `alice` leaves every map as it was under
/// any prefix of another account `bob`, so every listing of `bob`, by
/// account or by gear, is what it would be had `alice` written nothing.
pub proof fn lemma_other_account_frame(
    old: ActivityTree,
    new: ActivityTree,
    a: Activity,
    alice: Seq<char>,
    bob: Seq<char>,
    p: Seq<u8>,
)
    requires
        written(old, new, a, alice) || inserted(old, new, a, alice),
        alice != bob,
        has_prefix(p, prefix_of(seg(bob))),
    ensures
        same_under(entries(new.usernameid_id), entries(old.usernameid_id), p),
        same_under(entries(new.usernameid_username), entries(old.usernameid_username), p),
        same_under(entries(new.usernameid_gear), entries(old.usernameid_gear), p),
        same_under(entries(new.usernamegearid_id), entries(old.usernamegearid_id), p),
        same_under(entries(new.usernameid_session), entries(old.usernameid_session), p),
        same_under(entries(new.usernameid_record), entries(old.usernameid_record), p),
        same_under(entries(new.usernameid_lap), entries(old.usernameid_lap), p),
{
    let k0 = activity_key(alice, a.id@);
    lemma_not_owner(alice, seg(a.id@), bob, k0, p);
    let ogm = entries(old.usernameid_gear);
    if ogm.contains_key(k0) {
        let sk = key3_of(seg(alice), ogm[k0], seg(a.id@));
        assert(sk =~= prefix_of(seg(alice)) + (prefix_of(ogm[k0]) + seg(a.id@)));
        lemma_not_owner(alice, prefix_of(ogm[k0]) + seg(a.id@), bob, sk, p);
    }
    if let Some(g) = a.gear_id {
        let gk = gear_index_key(alice, g@, a.id@);
        assert(gk =~= prefix_of(seg(alice)) + (prefix_of(seg(g@)) + seg(a.id@)));
        lemma_not_owner(alice, prefix_of(seg(g@)) + seg(a.id@), bob, gk, p);
    }
}

/// Inserting an activity keeps the maps in agreement, as writing it does.
pub proof fn lemma_inserted_well_formed(old: ActivityTree, new: ActivityTree, a: Activity, u: Seq<char>)
    requires
        well_formed(old),
        inserted(old, new, a, u),
    ensures
        well_formed(new),
{
    if !entries(old.usernameid_id).contains_key(activity_key(u, a.id@)) {
        lemma_written_well_formed(old, new, a, u);
    }
}
} // verus!
