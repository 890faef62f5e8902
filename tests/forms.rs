use tf_viewer::forms::{check_gear_add, check_gear_settings, same_text, GearFormError};
use tf_viewer::gear::{save_gear, Gear, GearTree};
use tf_viewer::users::UserTree;

#[test]
fn gear_add_checks_in_order() {
    assert_eq!(check_gear_add(false, "", true), Some(GearFormError::WrongGearType));
    assert_eq!(check_gear_add(true, "", true), Some(GearFormError::EmptyName));
    assert_eq!(check_gear_add(true, "bike", true), Some(GearFormError::AlreadyExists));
    assert_eq!(check_gear_add(true, "bike", false), None);
}

#[test]
fn gear_settings_checks_in_order() {
    assert_eq!(check_gear_settings(false, "bike", "car"), Some(GearFormError::WrongGearType));
    assert_eq!(check_gear_settings(true, "bike", "car"), Some(GearFormError::WrongGearName));
    assert_eq!(check_gear_settings(true, "bike", "bike"), None);
}

#[test]
fn text_comparison() {
    assert!(same_text("räder", "räder"));
    assert!(!same_text("bike", "bike "));
    assert!(!same_text("bike", "bika"));
    assert!(same_text("", ""));
}

#[test]
fn save_gear_sets_standard_only_when_asked() {
    let db = sled::Config::new().temporary(true).open().unwrap();
    let mut gears = GearTree { usernameid_gear: db.open_tree("gear").unwrap() };
    let mut users = UserTree {
        username_password: db.open_tree("p").unwrap(),
        username_standard_gear: db.open_tree("s").unwrap(),
        username_heartrate_rest: db.open_tree("r").unwrap(),
        username_heartrate_max: db.open_tree("m").unwrap(),
    };
    save_gear(&mut gears, &mut users, Gear { name: "bike".to_string(), data: vec![1] }, "alice", false).unwrap();
    assert_eq!(users.get_standard_gear("alice"), Ok(None));
    assert_eq!(gears.get("alice", "bike"), Ok(vec![1]));
    save_gear(&mut gears, &mut users, Gear { name: "shoes".to_string(), data: vec![2] }, "alice", true).unwrap();
    assert_eq!(users.get_standard_gear("alice"), Ok(Some("shoes".to_string())));
    assert_eq!(gears.get("alice", "shoes"), Ok(vec![2]));
}
