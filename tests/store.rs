use tf_viewer::activities::{present, Activity, ActivityTree};
use tf_viewer::gear::{Gear, GearTree};
use tf_viewer::keys::{key, key3, key_prefix};
use tf_viewer::store::{keys_descending, text_of, values_descending, StoreError};
use tf_viewer::users::{heartrate_of, verify_stored, UserTree};

fn open_db() -> sled::Db {
    sled::Config::new().temporary(true).open().unwrap()
}

fn activity_tree(db: &sled::Db) -> ActivityTree {
    ActivityTree {
        usernameid_id: db.open_tree("usernameid_id").unwrap(),
        usernameid_username: db.open_tree("usernameid_username").unwrap(),
        usernameid_gear: db.open_tree("usernameid_gear").unwrap(),
        usernamegearid_id: db.open_tree("usernamegearid_id").unwrap(),
        usernameid_session: db.open_tree("usernameid_session").unwrap(),
        usernameid_record: db.open_tree("usernameid_record").unwrap(),
        usernameid_lap: db.open_tree("usernameid_lap").unwrap(),
    }
}

fn user_tree(db: &sled::Db) -> UserTree {
    UserTree {
        username_password: db.open_tree("username_password").unwrap(),
        username_standard_gear: db.open_tree("username_standard_gear").unwrap(),
        username_heartrate_rest: db.open_tree("username_heartrate_rest").unwrap(),
        username_heartrate_max: db.open_tree("username_heartrate_max").unwrap(),
    }
}

fn activity(id: &str, gear: Option<&str>, tag: u8) -> Activity {
    Activity {
        id: id.to_string(),
        gear_id: gear.map(|g| g.to_string()),
        session: vec![tag, 1],
        record: vec![tag, 2],
        lap: vec![tag, 3],
    }
}

#[test]
fn composite_keys_use_separator() {
    assert_eq!(key("ab", "c"), vec![b'a', b'b', 0xff, b'c']);
    assert_eq!(key3("a", "b", "c"), vec![b'a', 0xff, b'b', 0xff, b'c']);
    assert_eq!(key_prefix("ab"), vec![b'a', b'b', 0xff]);
}

#[test]
fn exists_before_and_after_insert() {
    let db = open_db();
    let mut t = activity_tree(&db);
    assert_eq!(t.contains("alice", "1"), Ok(false));
    t.insert(activity("1", None, 1), "alice").unwrap();
    assert_eq!(t.contains("alice", "1"), Ok(true));
    assert_eq!(t.contains("alice", "2"), Ok(false));
    t.insert_or_overwrite(activity("2", None, 1), "alice").unwrap();
    assert_eq!(t.contains("alice", "2"), Ok(true));
}

#[test]
fn insert_keeps_first_overwrite_keeps_latest() {
    let db = open_db();
    let mut t = activity_tree(&db);
    t.insert(activity("1", None, 1), "alice").unwrap();
    t.insert(activity("1", Some("bike"), 2), "alice").unwrap();
    assert_eq!(t.get_session("alice", "1"), Ok(vec![1, 1]));
    assert_eq!(t.get_gear_id("alice", "1"), Ok(None));
    t.insert_or_overwrite(activity("1", None, 3), "alice").unwrap();
    assert_eq!(t.get_session("alice", "1"), Ok(vec![3, 1]));
    assert_eq!(t.get_record("alice", "1"), Ok(vec![3, 2]));
    assert_eq!(t.get_lap("alice", "1"), Ok(vec![3, 3]));
}

#[test]
fn activity_round_trip() {
    let db = open_db();
    let mut t = activity_tree(&db);
    t.insert_or_overwrite(activity("20240101", Some("bike"), 7), "alice").unwrap();
    t.insert_or_overwrite(activity("20240102", None, 8), "alice").unwrap();
    let a = t.get_activity("alice", "20240101").unwrap();
    assert_eq!(a.id, "20240101");
    assert_eq!(a.gear_id, Some("bike".to_string()));
    assert_eq!(a.session, vec![7, 1]);
    assert_eq!(a.record, vec![7, 2]);
    assert_eq!(a.lap, vec![7, 3]);
    let b = t.get_activity("alice", "20240102").unwrap();
    assert_eq!(b.gear_id, None);
    assert_eq!(b.session, vec![8, 1]);
}

#[test]
fn missing_activity_is_not_found() {
    let db = open_db();
    let t = activity_tree(&db);
    assert_eq!(t.get_session("alice", "9"), Err(StoreError::NotFound));
    assert_eq!(t.get_record("alice", "9"), Err(StoreError::NotFound));
    assert_eq!(t.get_lap("alice", "9"), Err(StoreError::NotFound));
    assert!(matches!(t.get_activity("alice", "9"), Err(StoreError::NotFound)));
}

#[test]
fn corrupt_gear_id_is_reported() {
    let db = open_db();
    let t = activity_tree(&db);
    t.usernameid_gear.insert(key("alice", "1"), vec![0xc3u8, 0x28]).unwrap();
    assert_eq!(t.get_gear_id("alice", "1"), Err(StoreError::Corrupt));
}

#[test]
fn accounts_are_isolated() {
    let db = open_db();
    let mut t = activity_tree(&db);
    t.insert_or_overwrite(activity("1", Some("bike"), 1), "alice").unwrap();
    t.insert_or_overwrite(activity("1", Some("bike"), 2), "bob").unwrap();
    t.insert_or_overwrite(activity("2", Some("bike"), 3), "alice").unwrap();
    assert_eq!(t.username_iter_id("bob").unwrap(), vec!["1".to_string()]);
    assert_eq!(t.username_iter_session("bob").unwrap(), vec![vec![2u8, 1]]);
    assert_eq!(t.username_gear_iter_id("bob", "bike").unwrap(), vec!["1".to_string()]);
    assert_eq!(t.get_session("bob", "1"), Ok(vec![2, 1]));
    assert_eq!(t.get_session("alice", "1"), Ok(vec![1, 1]));
    assert_eq!(t.username_iter_id("al").unwrap(), Vec::<String>::new());
}

#[test]
fn listing_is_most_recent_first() {
    let db = open_db();
    let mut t = activity_tree(&db);
    t.insert_or_overwrite(activity("2024-01-02", None, 2), "alice").unwrap();
    t.insert_or_overwrite(activity("2024-01-01", None, 1), "alice").unwrap();
    t.insert_or_overwrite(activity("2024-01-03", None, 3), "alice").unwrap();
    assert_eq!(
        t.username_iter_id("alice").unwrap(),
        vec!["2024-01-03".to_string(), "2024-01-02".to_string(), "2024-01-01".to_string()]
    );
    assert_eq!(t.username_iter_session("alice").unwrap(), vec![vec![3u8, 1], vec![2, 1], vec![1, 1]]);
}

#[test]
fn global_iteration_covers_all_accounts() {
    let db = open_db();
    let mut t = activity_tree(&db);
    t.insert_or_overwrite(activity("1", None, 1), "alice").unwrap();
    t.insert_or_overwrite(activity("2", None, 2), "bob").unwrap();
    assert_eq!(t.iter_username().unwrap(), vec!["bob".to_string(), "alice".to_string()]);
    assert_eq!(t.iter_id().unwrap(), vec!["2".to_string(), "1".to_string()]);
    assert_eq!(t.iter_session().unwrap(), vec![vec![2u8, 1], vec![1, 1]]);
    assert_eq!(t.iter_record().unwrap(), vec![vec![2u8, 2], vec![1, 2]]);
}

#[test]
fn gear_index_lists_only_geared_activities() {
    let db = open_db();
    let mut t = activity_tree(&db);
    t.insert_or_overwrite(activity("1", Some("bike"), 1), "alice").unwrap();
    t.insert_or_overwrite(activity("2", None, 2), "alice").unwrap();
    t.insert_or_overwrite(activity("3", Some("bike2"), 3), "alice").unwrap();
    assert_eq!(t.username_gear_iter_id("alice", "bike").unwrap(), vec!["1".to_string()]);
    assert_eq!(t.username_gear_iter_id("alice", "bike2").unwrap(), vec!["3".to_string()]);
}

#[test]
fn overwrite_moves_activity_between_gear() {
    let db = open_db();
    let mut t = activity_tree(&db);
    t.insert_or_overwrite(activity("1", Some("bike"), 1), "alice").unwrap();
    t.insert_or_overwrite(activity("1", Some("shoes"), 1), "alice").unwrap();
    assert_eq!(t.username_gear_iter_id("alice", "bike").unwrap(), Vec::<String>::new());
    assert_eq!(t.username_gear_iter_id("alice", "shoes").unwrap(), vec!["1".to_string()]);
    t.insert_or_overwrite(activity("1", None, 1), "alice").unwrap();
    assert_eq!(t.username_gear_iter_id("alice", "shoes").unwrap(), Vec::<String>::new());
    assert_eq!(t.get_gear_id("alice", "1"), Ok(None));
}

#[test]
fn gear_store_operations() {
    let db = open_db();
    let mut g = GearTree { usernameid_gear: db.open_tree("gear").unwrap() };
    assert_eq!(g.contains("alice", "bike"), Ok(false));
    g.insert(Gear { name: "bike".to_string(), data: vec![1] }, "alice").unwrap();
    g.insert(Gear { name: "a-shoes".to_string(), data: vec![2] }, "alice").unwrap();
    g.insert(Gear { name: "bike".to_string(), data: vec![3] }, "bob").unwrap();
    assert_eq!(g.contains("alice", "bike"), Ok(true));
    assert_eq!(g.get("alice", "bike"), Ok(vec![1]));
    assert_eq!(g.get("alice", "car"), Err(StoreError::NotFound));
    assert_eq!(
        g.iter("alice").unwrap(),
        vec![(key("alice", "a-shoes"), vec![2u8]), (key("alice", "bike"), vec![1])]
    );
    g.insert(Gear { name: "bike".to_string(), data: vec![4] }, "alice").unwrap();
    assert_eq!(g.get("alice", "bike"), Ok(vec![4]));
}

#[test]
fn password_verification() {
    let db = open_db();
    let mut u = user_tree(&db);
    assert_eq!(u.contains("alice"), Ok(false));
    u.insert("alice", "correct horse").unwrap();
    assert_eq!(u.contains("alice"), Ok(true));
    assert_eq!(u.verify_hash("alice", "correct horse"), Ok(true));
    assert_eq!(u.verify_hash("alice", "correct horse "), Err(StoreError::IncorrectPassword));
    assert_eq!(u.verify_hash("alice", ""), Err(StoreError::IncorrectPassword));
    assert_eq!(u.verify_hash("bob", "correct horse"), Err(StoreError::NotFound));
}

#[test]
fn stored_hash_is_not_the_password() {
    let db = open_db();
    let mut u = user_tree(&db);
    u.insert("alice", "secret").unwrap();
    let stored = u.username_password.get("alice").unwrap().unwrap();
    assert_ne!(stored.to_vec(), b"secret".to_vec());
    assert!(String::from_utf8(stored.to_vec()).unwrap().starts_with("$argon2"));
}

#[test]
fn invalid_stored_hash_is_corrupt() {
    let db = open_db();
    let u = user_tree(&db);
    u.username_password.insert("alice", vec![0xffu8, 0xfe]).unwrap();
    assert_eq!(u.verify_hash("alice", "x"), Err(StoreError::Corrupt));
}

#[test]
fn standard_gear() {
    let db = open_db();
    let mut u = user_tree(&db);
    assert_eq!(u.get_standard_gear("alice"), Ok(None));
    u.set_standard_gear("alice", "bike").unwrap();
    assert_eq!(u.get_standard_gear("alice"), Ok(Some("bike".to_string())));
    u.username_standard_gear.insert("bob", vec![0xffu8]).unwrap();
    assert_eq!(u.get_standard_gear("bob"), Err(StoreError::Corrupt));
}

#[test]
fn heartrate_needs_both_values() {
    let db = open_db();
    let mut u = user_tree(&db);
    assert_eq!(u.get_heartrate("alice"), Ok(None));
    u.username_heartrate_rest.insert("alice", vec![50u8]).unwrap();
    assert_eq!(u.get_heartrate("alice"), Ok(None));
    u.set_heartrate("alice", (55, 190)).unwrap();
    assert_eq!(u.get_heartrate("alice"), Ok(Some((55, 190))));
    u.username_heartrate_max.insert("alice", vec![1u8, 2]).unwrap();
    assert_eq!(u.get_heartrate("alice"), Err(StoreError::Corrupt));
}

#[test]
fn account_ids_descending() {
    let db = open_db();
    let mut u = user_tree(&db);
    u.insert("alice", "a").unwrap();
    u.insert("carol", "c").unwrap();
    u.insert("bob", "b").unwrap();
    assert_eq!(
        u.iter_id().unwrap(),
        vec!["carol".to_string(), "bob".to_string(), "alice".to_string()]
    );
}

#[test]
fn gear_sessions_follow_the_index() {
    let db = open_db();
    let mut t = activity_tree(&db);
    t.insert_or_overwrite(activity("1", Some("bike"), 1), "alice").unwrap();
    t.insert_or_overwrite(activity("2", None, 2), "alice").unwrap();
    t.insert_or_overwrite(activity("3", Some("bike"), 3), "alice").unwrap();
    t.insert_or_overwrite(activity("4", Some("bike"), 4), "bob").unwrap();
    assert_eq!(t.gear_sessions("alice", "bike").unwrap(), vec![vec![3u8, 1], vec![1, 1]]);
    t.usernameid_session.remove(key("alice", "3")).unwrap();
    assert_eq!(t.gear_sessions("alice", "bike").unwrap(), vec![vec![1u8, 1]]);
    assert_eq!(t.gear_sessions("alice", "shoes").unwrap(), Vec::<Vec<u8>>::new());
}

#[test]
fn exact_helpers_decide_without_the_engine() {
    assert_eq!(verify_stored(None, "x"), Err(StoreError::NotFound));
    assert_eq!(verify_stored(Some(vec![0xff]), "x"), Err(StoreError::Corrupt));
    assert_eq!(verify_stored(Some(b"not a hash".to_vec()), "x"), Err(StoreError::IncorrectPassword));
    assert_eq!(heartrate_of(Some(vec![50]), None), Ok(None));
    assert_eq!(heartrate_of(Some(vec![50]), Some(vec![190])), Ok(Some((50, 190))));
    assert_eq!(heartrate_of(Some(vec![50, 1]), Some(vec![190])), Err(StoreError::Corrupt));
    assert_eq!(text_of(None), Ok(None));
    assert_eq!(text_of(Some(b"bike".to_vec())), Ok(Some("bike".to_string())));
    assert_eq!(text_of(Some(vec![0xc3, 0x28])), Err(StoreError::Corrupt));
    let pairs = vec![(vec![1u8], vec![10u8]), (vec![2], vec![20]), (vec![3], vec![30])];
    assert_eq!(values_descending(pairs.clone()), vec![vec![30u8], vec![20], vec![10]]);
    assert_eq!(keys_descending(pairs), vec![vec![3u8], vec![2], vec![1]]);
    assert_eq!(present(vec![Some(vec![1u8]), None, Some(vec![2])]), vec![vec![1u8], vec![2]]);
}

#[test]
fn verify_stored_accepts_a_real_hash() {
    let db = open_db();
    let mut u = user_tree(&db);
    u.insert("alice", "pw").unwrap();
    let stored = u.username_password.get("alice").unwrap().map(|v| v.to_vec());
    assert_eq!(verify_stored(stored.clone(), "pw"), Ok(true));
    assert_eq!(verify_stored(stored, "pW"), Err(StoreError::IncorrectPassword));
}
