use seabed::game::Fish;
use seabed::game::Game;

fn ids(g: &Game) -> Vec<i32> {
    g.fishes.iter().map(|f| f.id).collect()
}

#[test]
fn new_game_roster() {
    let g = Game::new();
    assert_eq!(g.game_turn, 1);
    assert_eq!(g.players.len(), 2);
    assert_eq!(ids(&g), vec![5, 4, 7, 6, 9, 8, 11, 10, 13, 12, 15, 14]);
    assert_eq!(g.fishes[0], Fish { id: 5, color: 1, fish_type: 0 });
    assert_eq!(g.fishes[1], Fish { id: 4, color: 0, fish_type: 0 });
    assert_eq!(g.fishes[11], Fish { id: 14, color: 2, fish_type: 2 });
    for p in 0..2 {
        assert_eq!(g.players[p].index, p as i32);
        assert_eq!(g.players[p].visible_fishes, ids(&g));
        assert_eq!(g.players[p].points, 0);
        assert!(g.players[p].scans.iter().all(|s| s.is_none()));
        assert_eq!(g.turn_saved_fish[p], vec![-1; 12]);
    }
    let drone_ids: Vec<Vec<i32>> = g.players.iter().map(|p| p.drones.iter().map(|d| d.id).collect()).collect();
    assert_eq!(drone_ids, vec![vec![0, 2], vec![1, 3]]);
    assert!(!g.is_game_over());
}

#[test]
fn score_counts_scans_and_combos() {
    let mut g = Game::new();
    // color 0, all three types
    g.players[0].scans[0] = Some(4);
    g.players[0].scans[1] = Some(6);
    g.players[0].scans[2] = Some(8);
    assert_eq!(g.compute_player_score(0), 1 + 2 + 3 + 3);
    assert!(g.player_scanned_all_fish_of_color(0, 0));
    assert!(!g.player_scanned_all_fish_of_type(0, 0));
    g.first_to_scan[0] = Some(0);
    assert_eq!(g.compute_player_score(0), 1 + 2 + 3 + 3 + 1);
    g.first_to_scan_all_fish_of_color[0] = Some(0);
    assert_eq!(g.compute_player_score(0), 1 + 2 + 3 + 3 + 1 + 3);
    assert_eq!(g.compute_player_score(1), 0);
}

#[test]
fn score_counts_type_combo() {
    let mut g = Game::new();
    for color in 0..4 {
        g.players[1].scans[color * 3] = Some(100 + color as i32);
    }
    assert!(g.player_scanned_all_fish_of_type(1, 0));
    assert_eq!(g.compute_player_score(1), 4 + 4);
    g.first_to_scan_all_fish_of_type[0] = Some(1);
    assert_eq!(g.compute_player_score(1), 4 + 4 + 4);
    assert!(g.has_first_to_scan_all_fish_of_type(&g.players[1], 0));
    assert!(!g.has_first_to_scan_all_fish_of_type(&g.players[0], 0));
}

#[test]
fn max_score_of_a_new_game() {
    let g = Game::new();
    assert_eq!(g.compute_max_player_score(0), 96);
    assert_eq!(g.compute_max_player_score(1), 96);
}

#[test]
fn max_score_drops_when_a_creature_escapes() {
    let mut g = Game::new();
    // creature of color 0, type 2 (worth 3) leaves the game
    g.fishes.retain(|f| f.id != 8);
    assert!(g.has_fish_escaped(2));
    assert!(!g.has_fish_escaped(0));
    assert!(!g.is_type_combo_still_possible(0, 2));
    assert!(!g.is_color_combo_still_possible(0, 0));
    assert!(g.is_type_combo_still_possible(0, 1));
    assert_eq!(g.compute_max_player_score(0), 96 - 6 - 8 - 6);
    // a drone carrying it keeps it reachable
    g.players[0].drones[1].scans[2] = Some(8);
    assert!(g.is_fish_scanned_by_player_drone(2, 0));
    assert_eq!(g.compute_max_player_score(0), 96);
}

#[test]
fn max_score_is_never_below_score() {
    let mut g = Game::new();
    g.players[0].scans[4] = Some(7);
    g.first_to_scan[4] = Some(0);
    g.fishes.clear();
    for p in 0..2 {
        assert!(g.compute_player_score(p) <= g.compute_max_player_score(p));
    }
    assert_eq!(g.compute_player_score(0), 4);
    assert_eq!(g.compute_max_player_score(0), 4);
}

#[test]
fn game_over_conditions() {
    let mut g = Game::new();
    assert!(!g.is_game_over());
    g.game_turn = 200;
    assert!(g.is_game_over());
    g.game_turn = 5;
    g.players[1].points = 97;
    assert!(g.is_game_over());
    g.players[1].points = 0;
    g.fishes.clear();
    assert!(g.both_players_have_scanned_all_remaining_fish());
    assert!(g.is_game_over());
}

#[test]
fn scanned_all_remaining_fish() {
    let mut g = Game::new();
    assert!(!g.has_scanned_all_remaining_fish(0));
    for k in 0..12 {
        g.players[0].scans[k] = Some(k as i32);
    }
    assert!(g.has_scanned_all_remaining_fish(0));
    assert!(!g.both_players_have_scanned_all_remaining_fish());
    assert!(g.player_scanned(0, &Fish { id: 99, color: 3, fish_type: 2 }));
}

#[test]
fn first_to_scan_holder() {
    let mut g = Game::new();
    assert!(!g.has_first_to_scan_bonus(&g.players[0], 3));
    g.first_to_scan[3] = Some(0);
    assert!(g.has_first_to_scan_bonus(&g.players[0], 3));
    assert!(!g.has_first_to_scan_bonus(&g.players[1], 3));
    g.first_to_scan_all_fish_of_color[2] = Some(1);
    assert!(g.has_first_to_scan_all_fish_of_color(&g.players[1], 2));
}

#[test]
fn report_saves_scans_and_awards_first_saver() {
    let mut g = Game::new();
    g.players[0].drones[0].scans[0] = Some(4);
    let awards = g.do_report();
    assert_eq!(g.players[0].scans[0], Some(4));
    assert!(g.players[0].drones[0].scans.iter().all(|s| s.is_none()));
    assert!(g.players[0].drones[0].did_report);
    assert!(!g.players[0].drones[1].did_report);
    assert_eq!(g.players[0].count_fish_saved, vec![1]);
    assert_eq!(g.turn_saved_fish[0][0], 1);
    assert_eq!(g.fish_scanned, 1);
    assert_eq!(g.first_to_scan[0], Some(0));
    assert!(g.first_to_scan_temp.iter().all(|s| s.is_none()));
    assert_eq!(awards.scans, vec![(0, 0)]);
    assert!(awards.types.is_empty());
    assert!(awards.colors.is_empty());
    assert_eq!(g.players[0].points, 2);
    assert_eq!(g.players[1].points, 0);
}

#[test]
fn report_of_the_same_creature_by_both_players_gives_no_bonus() {
    let mut g = Game::new();
    g.players[0].drones[0].scans[0] = Some(4);
    g.players[1].drones[0].scans[0] = Some(4);
    let awards = g.do_report();
    assert_eq!(g.first_to_scan[0], None);
    assert!(awards.scans.is_empty());
    assert_eq!(g.players[0].points, 1);
    assert_eq!(g.players[1].points, 1);
}

#[test]
fn dead_drones_do_not_report() {
    let mut g = Game::new();
    g.players[0].drones[0].scans[5] = Some(7);
    g.players[0].drones[0].dead = true;
    g.do_report();
    assert_eq!(g.players[0].scans[5], None);
    assert_eq!(g.players[0].drones[0].scans[5], Some(7));
    assert_eq!(g.players[0].points, 0);
}

#[test]
fn combo_completed_by_one_player_is_awarded() {
    let mut g = Game::new();
    for color in 0..4 {
        g.players[0].scans[color * 3] = Some(color as i32);
    }
    let awards = g.do_report();
    assert_eq!(g.first_to_scan_all_fish_of_type[0], Some(0));
    assert_eq!(awards.types, vec![(0, 0)]);
    assert_eq!(g.players[0].points, 4 + 4 + 4);
}

#[test]
fn combo_completed_by_both_players_at_once_is_not_awarded() {
    let mut g = Game::new();
    for p in 0..2 {
        for color in 0..4 {
            g.players[p].scans[color * 3] = Some(color as i32);
        }
    }
    let awards = g.do_report();
    assert_eq!(g.first_to_scan_all_fish_of_type[0], None);
    assert!(awards.types.is_empty());
    assert_eq!(g.players[0].points, 8);
    assert_eq!(g.players[1].points, 8);
}

#[test]
fn held_bonus_stays_with_its_holder() {
    let mut g = Game::new();
    g.first_to_scan[0] = Some(1);
    g.players[1].scans[0] = Some(4);
    g.players[0].drones[0].scans[0] = Some(4);
    g.do_report();
    assert_eq!(g.first_to_scan[0], Some(1));
    assert_eq!(g.players[0].points, 1);
    assert_eq!(g.players[1].points, 2);
}

#[test]
fn apply_scans_for_report_merges_and_tells_if_new() {
    let mut g = Game::new();
    g.players[0].scans[3] = Some(5);
    g.players[0].drones[1].scans[3] = Some(5);
    assert!(!g.apply_scans_for_report(0, 1));
    g.players[0].drones[1].scans[4] = Some(7);
    assert!(g.apply_scans_for_report(0, 1));
    assert_eq!(g.players[0].scans[4], Some(7));
    assert_eq!(g.players[0].count_fish_saved, vec![1, 1]);
    // the kind saved before is neither claimed nor counted again
    assert_eq!(g.first_to_scan_temp[3], None);
    assert_eq!(g.turn_saved_fish[0][3], -1);
    // the kind saved now is claimed and counted once
    assert_eq!(g.first_to_scan_temp[4], Some(0));
    assert_eq!(g.turn_saved_fish[0][4], 1);
    assert_eq!(g.fish_scanned, 1);
}

#[test]
fn own_drones_never_cancel_each_other() {
    let mut g = Game::new();
    g.game_turn = 7;
    // saved on an earlier turn, its claim cancelled then
    g.players[0].scans[3] = Some(5);
    // both drones carry the same new kind
    g.players[0].drones[0].scans[1] = Some(6);
    g.players[0].drones[1].scans[1] = Some(6);
    let awards = g.do_report();
    assert_eq!(g.first_to_scan[1], Some(0));
    assert_eq!(g.first_to_scan[3], None);
    assert_eq!(awards.scans, vec![(0, 1)]);
    assert_eq!(g.turn_saved_fish[0][1], 7);
    assert_eq!(g.turn_saved_fish[0][3], -1);
    assert_eq!(g.fish_scanned, 1);
    assert!(g.players[0].drones[0].did_report);
    assert!(!g.players[0].drones[1].did_report);
    assert_eq!(g.players[0].count_fish_saved, vec![1, 1]);
    // kinds 1 (worth 2, doubled as first) and 3 (worth 1)
    assert_eq!(g.players[0].points, 2 + 2 + 1);
}

#[test]
fn two_fresh_kinds_in_one_report() {
    let mut g = Game::new();
    g.players[1].drones[1].scans[0] = Some(4);
    g.players[1].drones[1].scans[11] = Some(14);
    g.do_report();
    assert_eq!(g.fish_scanned, 2);
    assert_eq!(g.first_to_scan[0], Some(1));
    assert_eq!(g.first_to_scan[11], Some(1));
    assert_eq!(g.turn_saved_fish[1][0], 1);
    assert_eq!(g.turn_saved_fish[1][11], 1);
    assert_eq!(g.turn_saved_fish[1][5], -1);
    assert_eq!(g.players[1].count_fish_saved, vec![2]);
}

#[test]
fn remove_fishes_drops_listed_ids() {
    let mut g = Game::new();
    g.remove_fishes(&vec![4, 15, 99]);
    assert_eq!(ids(&g), vec![5, 7, 6, 9, 8, 11, 10, 13, 12, 14]);
    assert!(g.has_fish_escaped(0));
    g.remove_fishes(&vec![]);
    assert_eq!(g.fishes.len(), 10);
}

#[test]
fn persist_settles_pending_claims() {
    let mut g = Game::new();
    g.first_to_scan_temp[2] = Some(1);
    g.first_to_scan[5] = Some(0);
    g.first_to_scan_temp[5] = Some(1);
    g.first_to_scan_all_fish_of_color_temp[3] = Some(0);
    let awards = g.persist_first_to_scan_bonuses();
    assert_eq!(g.first_to_scan[2], Some(1));
    assert_eq!(g.first_to_scan[5], Some(0));
    assert_eq!(g.first_to_scan_all_fish_of_color[3], Some(0));
    assert_eq!(awards.scans, vec![(1, 2), (1, 5)]);
    assert_eq!(awards.colors, vec![(0, 3)]);
    assert!(g.first_to_scan_temp.iter().all(|s| s.is_none()));
    assert!(g.first_to_scan_all_fish_of_color_temp.iter().all(|s| s.is_none()));
}

#[test]
fn detect_combos_claims_and_cancels() {
    let mut g = Game::new();
    for t in 0..3 {
        g.players[0].scans[3 + t] = Some(t as i32);
        g.players[1].scans[3 + t] = Some(t as i32);
    }
    g.detect_first_to_combo_bonuses(0);
    assert_eq!(g.first_to_scan_all_fish_of_color_temp[1], Some(0));
    g.detect_first_to_combo_bonuses(1);
    assert_eq!(g.first_to_scan_all_fish_of_color_temp[1], None);
}

#[test]
fn score_on_end_reports_every_drone() {
    let mut g = Game::new();
    g.players[0].drones[0].scans[5] = Some(7);
    g.players[0].drones[0].dead = true;
    let awards = g.compute_score_on_end();
    assert_eq!(g.players[0].scans[5], Some(7));
    assert!(!g.players[0].drones[0].did_report);
    assert_eq!(g.first_to_scan[5], Some(0));
    assert_eq!(awards.scans, vec![(0, 5)]);
    assert_eq!(g.players[0].points, 3 + 3);
}

#[test]
fn batteries_light_drain_and_recharge() {
    let mut g = Game::new();
    g.players[0].drones[0].light_switch = true;
    g.players[0].drones[1].light_switch = true;
    g.players[0].drones[1].battery = 4;
    g.players[1].drones[0].dead = true;
    g.players[1].drones[0].light_on = true;
    g.players[1].drones[0].battery = 30;
    g.players[1].drones[1].battery = 99;
    g.do_batteries();
    assert!(g.players[0].drones[0].light_on);
    assert_eq!(g.players[0].drones[0].battery, 95);
    assert!(!g.players[0].drones[1].light_on);
    assert_eq!(g.players[0].drones[1].battery, 5);
    assert!(!g.players[1].drones[0].light_on);
    assert_eq!(g.players[1].drones[0].battery, 30);
    assert_eq!(g.players[1].drones[1].battery, 100);
}

#[test]
fn batteries_stay_in_range_over_many_turns() {
    let mut g = Game::new();
    g.players[0].drones[0].light_switch = true;
    for _ in 0..300 {
        g.do_batteries();
        for p in 0..2 {
            for d in 0..2 {
                let b = g.players[p].drones[d].battery;
                assert!((0..=100).contains(&b));
            }
        }
    }
}

#[test]
fn scan_takes_creatures_in_range() {
    let mut g = Game::new();
    g.players[0].scans[0] = Some(4);
    g.players[1].drones[1].dying = true;
    let in_range = vec![
        vec![vec![1, 0], vec![3]],
        vec![vec![], vec![2]],
    ];
    g.do_scan(&in_range);
    // kind 0 (fish 4) is already saved: only fish 5 (color 1, type 0, kind 3)
    assert_eq!(g.players[0].drones[0].scans[0], None);
    assert_eq!(g.players[0].drones[0].scans[3], Some(5));
    assert_eq!(g.players[0].drones[0].fishes_scanned_this_turn, vec![5]);
    // fish 6: color 0, type 1, kind 1
    assert_eq!(g.players[0].drones[1].scans[1], Some(6));
    // a dying drone scans nothing
    assert!(g.players[1].drones[1].scans.iter().all(|s| s.is_none()));
    assert_eq!(g.players[0].visible_fishes, ids(&g));
}

#[test]
fn clear_player_info_hides_everything() {
    let mut g = Game::new();
    g.clear_player_info();
    assert!(g.players[0].visible_fishes.is_empty());
    assert!(g.players[1].visible_fishes.is_empty());
}

#[test]
fn upkeep_advances_drone_states() {
    let mut g = Game::new();
    g.players[0].drones[0].dying = true;
    g.players[0].drones[1].dead = true;
    g.players[1].drones[0].dead = true;
    g.players[1].drones[1].scans[2] = Some(8);
    g.players[1].drones[1].turns_spent_with_scan = 3;
    g.players[1].drones[1].max_turns_spent_with_scan = 3;
    let surfaced = vec![vec![false, true], vec![false, false]];
    let depths = vec![vec![500, 0], vec![1200, 2500]];
    g.upkeep_drones(&surfaced, &depths);
    assert!(g.players[0].drones[0].dead && !g.players[0].drones[0].dying);
    assert!(!g.players[0].drones[1].dead);
    assert!(g.players[1].drones[0].dead);
    assert_eq!(g.players[1].drones[1].turns_spent_with_scan, 4);
    assert_eq!(g.players[1].drones[1].max_turns_spent_with_scan, 4);
    assert_eq!(g.players[0].drones[0].turns_spent_with_scan, 0);
    assert_eq!(g.players[0].drones[0].max_y, 500);
    assert_eq!(g.players[1].drones[1].max_y, 2500);
}

#[test]
fn finish_game_update_advances_the_turn() {
    let mut g = Game::new();
    assert!(g.finish_game_update().is_none());
    assert_eq!(g.game_turn, 2);
    g.game_turn = 200;
    g.players[0].drones[0].scans[0] = Some(4);
    let awards = g.finish_game_update();
    assert!(awards.is_some());
    assert_eq!(awards.unwrap().scans, vec![(0, 0)]);
    assert_eq!(g.game_turn, 201);
    assert_eq!(g.players[0].points, 2);
}
