use balatro_core::blinds::boss_at;
use balatro_core::items::{joker_by_key, tag_by_key};
use balatro_core::keymap::KeyMap;
use balatro_core::registry::joker_at;
use balatro_core::run::Run;
use balatro_core::snapshot::{intern_key, restored, stored};
use balatro_core::text::text_before;

#[test]
fn keys_are_interned() {
    assert_eq!(intern_key(""), Some(""));
    assert_eq!(intern_key("gros_michel_extinct"), Some("gros_michel_extinct"));
    for key in ["tag_double", "v_blank", "p_buffoon_jumbo_1", "c_soul", "j_joker", "bl_hook"] {
        assert_eq!(intern_key(key), Some(key));
    }
    assert_eq!(intern_key("bl_small"), Some("bl_small"));
    assert_eq!(intern_key("nothing"), None);
    assert_eq!(intern_key("j_joker "), None);
    assert!(tag_by_key("j_joker").is_none() && joker_by_key("tag_double").is_none());
    for i in 0..150 {
        assert_eq!(intern_key(joker_at(i).key), Some(joker_at(i).key));
    }
    for i in 0..28 {
        assert_eq!(intern_key(boss_at(i).key), Some(boss_at(i).key));
    }
}

#[test]
fn texts_are_ordered_as_usual() {
    let words = ["", "a", "ab", "b", "bl_arm", "bl_ox", "v", "v_a", "\u{e9}"];
    for x in words {
        for y in words {
            assert_eq!(text_before(x, y), x < y, "{x:?} {y:?}");
        }
    }
}

#[test]
fn maps_are_stored_in_key_order() {
    let mut m: KeyMap<u32> = KeyMap::new();
    for (k, v) in [("v_blank", 3), ("c_soul", 1), ("j_joker", 2), ("c_soul", 4)] {
        m.insert(k, v);
    }
    let list = stored(&m);
    let expected: Vec<(String, u32)> = [("c_soul", 4), ("j_joker", 2), ("v_blank", 3)]
        .iter()
        .map(|(k, v)| (k.to_string(), *v))
        .collect();
    assert_eq!(list, expected);
    let mut other: KeyMap<u32> = KeyMap::new();
    for (k, v) in [("j_joker", 2), ("v_blank", 3), ("c_soul", 4)] {
        other.insert(k, v);
    }
    assert_eq!(stored(&other), list);
}

#[test]
fn stored_maps_are_restored() {
    let mut m: KeyMap<i64> = KeyMap::new();
    m.insert("bl_ox", 2);
    m.insert("bl_arm", 1);
    let back = restored(&stored(&m)).unwrap();
    assert_eq!(back.get("bl_ox"), Some(2));
    assert_eq!(back.get("bl_arm"), Some(1));
    assert_eq!(back.get("bl_hook"), None);
    assert_eq!(stored(&back), stored(&m));
    let bad = vec![("bl_ox".to_string(), 1i64), ("who".to_string(), 2), ("what".to_string(), 3)];
    assert_eq!(restored(&bad).unwrap_err(), "who");
    let twice = vec![("bl_ox".to_string(), 1i64), ("bl_ox".to_string(), 5)];
    assert_eq!(restored(&twice).unwrap().get("bl_ox"), Some(5));
}

#[test]
fn the_maps_of_a_run_are_restored() {
    let mut run = Run::new("STORE");
    run.debug_add_consumable("c_pluto");
    run.debug_apply_voucher("v_grabber");
    let used = restored(&stored(&run.used_keys)).unwrap();
    assert_eq!(stored(&used), stored(&run.used_keys));
    let vouchers = restored(&stored(&run.used_vouchers)).unwrap();
    assert!(vouchers.contains("v_grabber"));
    let bosses = restored(&stored(&run.bosses_used)).unwrap();
    assert_eq!(bosses.get(run.boss_choice()), Some(1));
}

#[test]
fn keys_can_be_taken_out() {
    let mut m: KeyMap<u32> = KeyMap::new();
    m.insert("j_joker", 1);
    m.insert("c_soul", 2);
    m.remove("v_blank");
    assert_eq!((m.get("j_joker"), m.get("c_soul")), (Some(1), Some(2)));
    m.remove("j_joker");
    assert!(!m.contains("j_joker"));
    assert_eq!((m.get("j_joker"), m.get("c_soul")), (None, Some(2)));
    assert_eq!(stored(&m), vec![("c_soul".to_string(), 2)]);
    m.insert("j_joker", 3);
    assert_eq!(m.get("j_joker"), Some(3));
}
