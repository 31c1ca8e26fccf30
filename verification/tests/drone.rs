use seabed::drone::Drone;

#[test]
fn new_drone_is_full_and_dark() {
    let d = Drone::new(7);
    assert_eq!(d.id, 7);
    assert_eq!(d.battery, 100);
    assert_eq!(d.scans.len(), 12);
    assert!(d.scans.iter().all(|s| s.is_none()));
    assert!(!d.is_light_on());
    assert!(!d.is_dead_or_dying());
    assert_eq!(d.message, "");
}

#[test]
fn drain_battery_spends_light_cost() {
    let mut d = Drone::new(0);
    d.drain_battery();
    assert_eq!(d.battery, 95);
    d.battery = 0;
    d.drain_battery();
    assert_eq!(d.battery, -5);
}

#[test]
fn recharge_battery_stops_at_full() {
    let mut d = Drone::new(0);
    d.battery = 50;
    d.recharge_battery();
    assert_eq!(d.battery, 51);
    d.battery = 99;
    d.recharge_battery();
    assert_eq!(d.battery, 100);
    d.recharge_battery();
    assert_eq!(d.battery, 100);
    d.battery = 150;
    d.recharge_battery();
    assert_eq!(d.battery, 100);
}

#[test]
fn dead_or_dying() {
    let mut d = Drone::new(0);
    d.dying = true;
    assert!(d.is_dead_or_dying());
    d.dying = false;
    d.dead = true;
    assert!(d.is_dead_or_dying());
}

#[test]
fn set_message_keeps_short_messages() {
    let mut d = Drone::new(0);
    d.set_message("hello".to_string());
    assert_eq!(d.message, "hello");
    let exact = "x".repeat(48);
    d.set_message(exact.clone());
    assert_eq!(d.message, exact);
}

#[test]
fn set_message_cuts_long_messages_to_48_bytes() {
    let mut d = Drone::new(0);
    let long = "abcdefghij".repeat(6);
    d.set_message(long.clone());
    assert_eq!(d.message, long[..48].to_string());
    // a character ending exactly at byte 48 is kept whole
    let tail = format!("{}é{}", "y".repeat(46), "zz");
    d.set_message(tail.clone());
    assert_eq!(d.message, format!("{}é", "y".repeat(46)));
}

#[test]
fn set_message_keeps_a_message_whose_cut_splits_a_character() {
    let mut d = Drone::new(0);
    let msg = format!("{}é and more", "y".repeat(47));
    d.set_message(msg.clone());
    assert_eq!(d.message, msg);
}
