use ascending_core::duration::{get_time_left, MyDuration, MyInstant};
use ascending_core::gametypes::{GlobalKey, MapPosition, Position, VitalTypes};
use ascending_core::maps::get_surrounding;
use ascending_core::queries::{
    check_existance, find_player, shift_i16, shift_i64, unshift_u16, unshift_u64,
    PlayerWithPassword,
};

#[test]
fn duration_milliseconds_roundtrip() {
    let d = MyDuration::milliseconds(5000);
    assert_eq!(d.0, 5000);
    assert_eq!(d.as_std(), 5000);
}

#[test]
fn duration_negative_clamps_to_zero() {
    let d = MyDuration::milliseconds(-250);
    assert_eq!(d.as_std(), 0);
}

#[test]
fn instant_saturating_add() {
    let t = MyInstant(i64::MAX - 5);
    let r = t.checked_add(MyDuration::milliseconds(100));
    assert_eq!(r.0, i64::MAX);
    let t2 = MyInstant(100);
    assert_eq!(t2.checked_add(MyDuration::milliseconds(50)).0, 150);
}

#[test]
fn time_left_expired_is_zero() {
    assert_eq!(get_time_left(MyInstant(10), MyInstant(50)), 0);
    assert_eq!(get_time_left(MyInstant(50), MyInstant(50)), 0);
}

#[test]
fn time_left_counts_down() {
    assert_eq!(get_time_left(MyInstant(50), MyInstant(10)), 40);
}

#[test]
fn surrounding_includes_self_first() {
    let center = MapPosition { x: 4, y: -2, group: 1 };
    let s = get_surrounding(center, true);
    assert_eq!(s.len(), 9);
    assert_eq!(s[0], center);
    for dx in -1i32..=1 {
        for dy in -1i32..=1 {
            let mp = MapPosition { x: 4 + dx, y: -2 + dy, group: 1 };
            assert!(s.contains(&mp));
        }
    }
}

#[test]
fn surrounding_without_self() {
    let center = MapPosition { x: 0, y: 0, group: 0 };
    let s = get_surrounding(center, false);
    assert_eq!(s.len(), 8);
    assert!(!s.contains(&center));
}

#[test]
fn vital_type_indexes() {
    assert_eq!(VitalTypes::Hp.index(), 0);
    assert_eq!(VitalTypes::Mp.index(), 1);
    assert_eq!(VitalTypes::Sp.index(), 2);
}

#[test]
fn position_default_is_origin() {
    let p = Position::default_value();
    assert_eq!(p.x, 0);
    assert_eq!(p.y, 0);
    assert_eq!(p.map, MapPosition { x: 0, y: 0, group: 0 });
}

#[test]
fn find_player_unknown_email() {
    let r = find_player(None, true, true);
    assert_eq!(r, Ok(None));
}

#[test]
fn find_player_bad_hash() {
    let row = PlayerWithPassword { uid: 42, password: String::from("SECRET-REDACTED") };
    let r = find_player(Some(row), false, false);
    assert!(r.is_err());
}

#[test]
fn find_player_wrong_password() {
    let row = PlayerWithPassword { uid: 42, password: String::from("SECRET-REDACTED") };
    let r = find_player(Some(row), true, false);
    assert!(r.is_err());
}

#[test]
fn find_player_success() {
    let row = PlayerWithPassword { uid: 42, password: String::from("SECRET-REDACTED") };
    let r = find_player(Some(row), true, true);
    assert_eq!(r, Ok(Some(42)));
}

#[test]
fn check_existance_codes() {
    assert_eq!(check_existance(true, false), Ok(1));
    assert_eq!(check_existance(true, true), Ok(1));
    assert_eq!(check_existance(false, true), Ok(2));
    assert_eq!(check_existance(false, false), Ok(0));
}

#[test]
fn shift_roundtrips() {
    assert_eq!(unshift_u16(shift_i16(-32768)), -32768);
    assert_eq!(unshift_u16(shift_i16(0)), 0);
    assert_eq!(unshift_u16(shift_i16(32767)), 32767);
    assert_eq!(shift_i16(-32768), 0);
    assert_eq!(shift_i16(0), 0x8000);
    assert_eq!(unshift_u64(shift_i64(-77)), -77);
    assert_eq!(shift_i64(0), 0x8000_0000_0000_0000);
}

#[test]
fn global_key_equality() {
    assert_eq!(GlobalKey(9), GlobalKey(9));
    assert_ne!(GlobalKey(9), GlobalKey(10));
}
