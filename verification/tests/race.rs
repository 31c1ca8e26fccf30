use seabed::race::action_thrusts;
use seabed::race::race_map;
use seabed::race::turn_of_action;
use seabed::race::RaceProgress;

#[test]
fn actions_turn_and_thrust() {
    assert_eq!(turn_of_action(0), -18);
    assert_eq!(turn_of_action(5), -18);
    assert_eq!(turn_of_action(1), 18);
    assert_eq!(turn_of_action(4), 18);
    assert_eq!(turn_of_action(2), 0);
    assert_eq!(turn_of_action(3), 0);
    assert!(action_thrusts(0));
    assert!(action_thrusts(2));
    assert!(action_thrusts(4));
    assert!(!action_thrusts(1));
    assert!(!action_thrusts(3));
    assert!(!action_thrusts(5));
}

#[test]
fn race_maps_in_order_and_reversed() {
    assert_eq!(race_map(0, false), vec![(12460, 1350), (10540, 5980), (3580, 5180), (13580, 7600)]);
    assert_eq!(race_map(9, true), vec![(11300, 2820), (6000, 5360), (7500, 6940)]);
    assert_eq!(race_map(12, false).len(), 4);
    assert_eq!(race_map(7, false).len(), 6);
}

#[test]
fn targets_wrap_around_the_map() {
    let mut p = RaceProgress::new();
    assert_eq!(p.time, 200);
    assert_eq!(p.cp, 0);
    assert_eq!(p.targets(4), (0, 1));
    p.cp = 3;
    assert_eq!(p.targets(4), (3, 0));
    p.cp = 11;
    // last checkpoint of the third lap: the one after it is itself
    assert_eq!(p.targets(4), (3, 3));
}

#[test]
fn reaching_a_checkpoint_renews_the_time() {
    let mut p = RaceProgress::new();
    p.time = 5;
    p.reach_checkpoint();
    assert_eq!(p.cp, 1);
    assert_eq!(p.time, 200);
}

#[test]
fn race_ends_on_timeout_or_after_three_laps() {
    let mut p = RaceProgress::new();
    assert!(!p.end_turn(4));
    assert_eq!(p.time, 199);
    p.time = 0;
    assert!(p.end_turn(4));
    let mut q = RaceProgress::new();
    q.cp = 12;
    assert!(q.end_turn(4));
}
