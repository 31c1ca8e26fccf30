//! What the rules promise, stated over the game's inputs and results rather
//! than over the step-by-step definitions: how a turn's batteries follow the
//! light switch, what a drone scans, how each saved creature and each bonus
//! moves a score, how an opponent's claim lowers the highest reachable score,
//! and that a combo completed by a report is claimed by that report.
use vstd::prelude::*;
use crate::drone::DroneView;
use crate::drone::CREATURE_KINDS;
use crate::drone::FULL_BATTERY;
use crate::drone::LIGHT_BATTERY_COST;
use crate::game::Fish;
use crate::game::GameView;
use crate::game::PlayerView;
use crate::game::COLORS_PER_FISH;
use crate::game::FISH_TYPES;
use crate::game::PLAYERS;
use crate::game::kind;
use crate::game::scan_fishes;

verus! {

// ---------------------------------------------------------------------------
// Batteries
// ---------------------------------------------------------------------------

/// A turn of batteries: a drone's light is on exactly when it is switched
/// on, the drone is not dead and it has at least `LIGHT_BATTERY_COST` units;
/// a lit drone spends that much, a live unlit one recharges one unit up to
/// full, a dead one keeps its battery; nothing else about the drone changes.
pub proof fn batteries_follow_the_switch(g: GameView, q: int, e: int)
    requires
        0 <= q < g.players.len(),
        0 <= e < g.players[q].drones.len(),
    ensures
        g.batteries_done().players.len() == g.players.len(),
        g.batteries_done().players[q].drones.len() == g.players[q].drones.len(),
        g.batteries_done().players[q].drones[e].light_on == (g.players[q].drones[e].light_switch
            && !g.players[q].drones[e].dead && g.players[q].drones[e].battery >= LIGHT_BATTERY_COST),
        g.batteries_done().players[q].drones[e].light_on ==> g.batteries_done().players[q].drones[e].battery
            == g.players[q].drones[e].battery - LIGHT_BATTERY_COST,
        !g.batteries_done().players[q].drones[e].light_on && !g.players[q].drones[e].dead
            ==> g.batteries_done().players[q].drones[e].battery == if g.players[q].drones[e].battery < FULL_BATTERY {
            g.players[q].drones[e].battery + 1
        } else {
            FULL_BATTERY as int
        },
        g.players[q].drones[e].dead ==> g.batteries_done().players[q].drones[e].battery == g.players[q].drones[e].battery,
        g.batteries_done().players[q].drones[e] == (DroneView {
            light_on: g.batteries_done().players[q].drones[e].light_on,
            battery: g.batteries_done().players[q].drones[e].battery,
            ..g.players[q].drones[e]
        }),
        g.batteries_done().players[q] == (PlayerView {
            drones: g.batteries_done().players[q].drones,
            ..g.players[q]
        }),
        g.batteries_done() == (GameView { players: g.batteries_done().players, ..g }),
{
}

// ---------------------------------------------------------------------------
// Scanning
// ---------------------------------------------------------------------------

/// Kind of the `j`th creature listed in `in_range`.
pub open spec fn listed_kind(fishes: Seq<Fish>, in_range: Seq<usize>, j: int) -> int {
    kind(fishes[in_range[j] as int].color as int, fishes[in_range[j] as int].fish_type as int)
}

/// Id of the `j`th creature listed in `in_range`.
pub open spec fn listed_id(fishes: Seq<Fish>, in_range: Seq<usize>, j: int) -> i32 {
    fishes[in_range[j] as int].id
}

proof fn lemma_with_member(s: Seq<i32>, x: i32)
    ensures
        crate::game::with_member(s, x).contains(x),
        forall|y: i32| s.contains(y) ==> #[trigger] crate::game::with_member(s, x).contains(y),
        forall|y: i32| #[trigger] crate::game::with_member(s, x).contains(y) ==> s.contains(y) || y == x,
{
    if !s.contains(x) {
        assert(s.push(x)[s.len() as int] == x);
        assert forall|y: i32| s.contains(y) implies #[trigger] s.push(x).contains(y) by {
            let i = choose|i: int| 0 <= i < s.len() && s[i] == y;
            assert(s.push(x)[i] == y);
        }
        assert forall|y: i32| #[trigger] s.push(x).contains(y) implies s.contains(y) || y == x by {
            let i = choose|i: int| 0 <= i < s.len() + 1 && s.push(x)[i] == y;
            if i < s.len() {
                assert(s[i] == y);
            }
        }
    }
}

proof fn lemma_scan_fishes(d: DroneView, saved: Seq<Option<i32>>, fishes: Seq<Fish>, in_range: Seq<usize>, n: int)
    requires
        0 <= n <= in_range.len(),
        saved.len() == CREATURE_KINDS,
        d.scans.len() == CREATURE_KINDS,
        forall|i: int| 0 <= i < n ==> #[trigger] in_range[i] < fishes.len(),
        forall|i: int|
            0 <= i < fishes.len() ==> 0 <= (#[trigger] fishes[i]).color < COLORS_PER_FISH && 0 <= fishes[i].fish_type
                < FISH_TYPES,
    ensures
        scan_fishes(d, saved, fishes, in_range, n).scans.len() == CREATURE_KINDS,
        scan_fishes(d, saved, fishes, in_range, n) == (DroneView {
            scans: scan_fishes(d, saved, fishes, in_range, n).scans,
            fishes_scanned_this_turn: scan_fishes(d, saved, fishes, in_range, n).fishes_scanned_this_turn,
            ..d
        }),
        forall|k: int|
            0 <= k < CREATURE_KINDS && (d.scans[k] is Some || saved[k] is Some) ==> #[trigger] scan_fishes(
                d,
                saved,
                fishes,
                in_range,
                n,
            ).scans[k] == d.scans[k],
        forall|j: int|
            0 <= j < n && saved[#[trigger] listed_kind(fishes, in_range, j)] is None ==> scan_fishes(
                d,
                saved,
                fishes,
                in_range,
                n,
            ).scans[listed_kind(fishes, in_range, j)] is Some,
        forall|j: int|
            0 <= j < n && saved[#[trigger] listed_kind(fishes, in_range, j)] is None && d.scans[listed_kind(
                fishes,
                in_range,
                j,
            )] is None && (forall|i: int| 0 <= i < j ==> listed_kind(fishes, in_range, i) != listed_kind(fishes, in_range, j))
                ==> scan_fishes(d, saved, fishes, in_range, n).scans[listed_kind(fishes, in_range, j)] == Some(
                listed_id(fishes, in_range, j),
            ) && scan_fishes(d, saved, fishes, in_range, n).fishes_scanned_this_turn.contains(
                listed_id(fishes, in_range, j),
            ),
        forall|k: int|
            0 <= k < CREATURE_KINDS && d.scans[k] is None && (#[trigger] scan_fishes(d, saved, fishes, in_range, n).scans[k])
                is Some ==> exists|j: int|
                0 <= j < n && listed_kind(fishes, in_range, j) == k && scan_fishes(d, saved, fishes, in_range, n).scans[k]
                    == Some(#[trigger] listed_id(fishes, in_range, j)),
        forall|x: i32|
            d.fishes_scanned_this_turn.contains(x) ==> #[trigger] scan_fishes(
                d,
                saved,
                fishes,
                in_range,
                n,
            ).fishes_scanned_this_turn.contains(x),
        forall|x: i32|
            #[trigger] scan_fishes(d, saved, fishes, in_range, n).fishes_scanned_this_turn.contains(x)
                ==> d.fishes_scanned_this_turn.contains(x) || exists|j: int|
                0 <= j < n && x == #[trigger] listed_id(fishes, in_range, j),
    decreases n,
{
    if n > 0 {
        lemma_scan_fishes(d, saved, fishes, in_range, n - 1);
        let r0 = scan_fishes(d, saved, fishes, in_range, n - 1);
        let r = scan_fishes(d, saved, fishes, in_range, n);
        let f = fishes[in_range[n - 1] as int];
        let kn = listed_kind(fishes, in_range, n - 1);
        assert(in_range[n - 1] < fishes.len());
        assert(0 <= f.color < COLORS_PER_FISH && 0 <= f.fish_type < FISH_TYPES);
        assert(0 <= kn < CREATURE_KINDS);
        assert(r == crate::game::scan_fish(r0, saved, f));
        lemma_with_member(r0.fishes_scanned_this_turn, f.id);
        assert forall|j: int|
            0 <= j < n && saved[#[trigger] listed_kind(fishes, in_range, j)] is None implies r.scans[listed_kind(
                fishes,
                in_range,
                j,
            )] is Some by {
            let kj = listed_kind(fishes, in_range, j);
            assert(in_range[j] < fishes.len());
            assert(0 <= fishes[in_range[j] as int].color < COLORS_PER_FISH);
            assert(0 <= fishes[in_range[j] as int].fish_type < FISH_TYPES);
            if j < n - 1 {
                assert(r0.scans[kj] is Some);
            }
        }
        assert forall|j: int|
            0 <= j < n && saved[#[trigger] listed_kind(fishes, in_range, j)] is None && d.scans[listed_kind(
                fishes,
                in_range,
                j,
            )] is None && (forall|i: int| 0 <= i < j ==> listed_kind(fishes, in_range, i) != listed_kind(fishes, in_range, j))
                implies r.scans[listed_kind(fishes, in_range, j)] == Some(listed_id(fishes, in_range, j))
                && r.fishes_scanned_this_turn.contains(listed_id(fishes, in_range, j)) by {
            let kj = listed_kind(fishes, in_range, j);
            assert(in_range[j] < fishes.len());
            assert(0 <= fishes[in_range[j] as int].color < COLORS_PER_FISH);
            assert(0 <= fishes[in_range[j] as int].fish_type < FISH_TYPES);
            if j < n - 1 {
                assert(r0.scans[kj] == Some(listed_id(fishes, in_range, j)));
                assert(r0.fishes_scanned_this_turn.contains(listed_id(fishes, in_range, j)));
                assert(r.scans[kj] == r0.scans[kj]);
                assert(r.fishes_scanned_this_turn.contains(listed_id(fishes, in_range, j)));
            } else {
                if r0.scans[kj] is Some {
                    let i = choose|i: int|
                        0 <= i < n - 1 && listed_kind(fishes, in_range, i) == kj && r0.scans[kj] == Some(
                            #[trigger] listed_id(fishes, in_range, i),
                        );
                    assert(listed_kind(fishes, in_range, i) != kj);
                }
                assert(r0.scans[kj] is None);
                assert(r.scans[kj] == Some(f.id));
                assert(r.fishes_scanned_this_turn.contains(f.id));
            }
        }
        assert forall|k: int|
            0 <= k < CREATURE_KINDS && d.scans[k] is None && (#[trigger] r.scans[k]) is Some implies exists|j: int|
                0 <= j < n && listed_kind(fishes, in_range, j) == k && r.scans[k] == Some(
                    #[trigger] listed_id(fishes, in_range, j),
                ) by {
            if r0.scans[k] is Some {
                let i = choose|i: int|
                    0 <= i < n - 1 && listed_kind(fishes, in_range, i) == k && r0.scans[k] == Some(
                        #[trigger] listed_id(fishes, in_range, i),
                    );
                assert(r.scans[k] == r0.scans[k]);
            } else {
                assert(k == kn);
                assert(r.scans[k] == Some(listed_id(fishes, in_range, n - 1)));
            }
        }
        assert forall|x: i32| d.fishes_scanned_this_turn.contains(x) implies #[trigger] r.fishes_scanned_this_turn.contains(x) by {
            assert(r0.fishes_scanned_this_turn.contains(x));
        }
        assert forall|x: i32| #[trigger] r.fishes_scanned_this_turn.contains(x) implies d.fishes_scanned_this_turn.contains(x)
            || exists|j: int| 0 <= j < n && x == #[trigger] listed_id(fishes, in_range, j) by {
            if r0.fishes_scanned_this_turn.contains(x) {
                if !d.fishes_scanned_this_turn.contains(x) {
                    let j = choose|j: int| 0 <= j < n - 1 && x == #[trigger] listed_id(fishes, in_range, j);
                    assert(0 <= j < n && x == listed_id(fishes, in_range, j));
                }
            } else {
                assert(x == listed_id(fishes, in_range, n - 1));
            }
        }
    }
}

/// The shape `do_scan` asks of its creature lists.
pub open spec fn in_range_fits(g: GameView, in_range: Seq<Seq<Seq<usize>>>) -> bool {
    &&& in_range.len() == PLAYERS
    &&& forall|q: int| 0 <= q < PLAYERS ==> (#[trigger] in_range[q]).len() == g.players[q].drones.len()
    &&& forall|q: int, e: int, j: int|
        0 <= q < PLAYERS && 0 <= e < in_range[q].len() && 0 <= j < in_range[q][e].len() ==> #[trigger] in_range[q][e][j]
            < g.fishes.len()
}

/// A live drone scans every creature in range of it whose kind its player has
/// not saved: afterwards it holds a scan of that kind; the first creature of
/// a kind new to the drone is the one recorded, and it counts as scanned this
/// turn.
pub proof fn scan_takes_every_creature_in_range(g: GameView, in_range: Seq<Seq<Seq<usize>>>, p: int, d: int, j: int)
    requires
        g.wf(),
        in_range_fits(g, in_range),
        0 <= p < PLAYERS,
        0 <= d < g.players[p].drones.len(),
        !g.players[p].drones[d].dying,
        !g.players[p].drones[d].dead,
        0 <= j < in_range[p][d].len(),
        !g.saved(p, listed_kind(g.fishes, in_range[p][d], j)),
    ensures
        g.scanned(in_range).players[p].drones[d].scans[listed_kind(g.fishes, in_range[p][d], j)] is Some,
        g.players[p].drones[d].scans[listed_kind(g.fishes, in_range[p][d], j)] is None && (forall|i: int|
            0 <= i < j ==> listed_kind(g.fishes, in_range[p][d], i) != listed_kind(g.fishes, in_range[p][d], j))
            ==> g.scanned(in_range).players[p].drones[d].scans[listed_kind(g.fishes, in_range[p][d], j)] == Some(
            listed_id(g.fishes, in_range[p][d], j),
        ) && g.scanned(in_range).players[p].drones[d].fishes_scanned_this_turn.contains(
            listed_id(g.fishes, in_range[p][d], j),
        ),
{
    let l = in_range[p][d];
    assert(g.players[p].wf());
    assert(g.players[p].drones[d].scans.len() == CREATURE_KINDS);
    assert forall|i: int| 0 <= i < l.len() implies #[trigger] l[i] < g.fishes.len() by {
        assert(in_range[p][d][i] < g.fishes.len());
    }
    lemma_scan_fishes(g.players[p].drones[d], g.players[p].scans, g.fishes, l, l.len() as int);
    assert(g.scanned(in_range).players[p].drones[d] == scan_fishes(
        g.players[p].drones[d],
        g.players[p].scans,
        g.fishes,
        l,
        l.len() as int,
    ));
}

/// A scan changes nothing but what live drones carry and what they counted
/// this turn: a kind the drone already carried or its player saved keeps its
/// slot, a slot it fills holds a creature in range of that kind, and a dead
/// or dying drone is left as it was.
pub proof fn scan_fills_only_from_range(g: GameView, in_range: Seq<Seq<Seq<usize>>>, p: int, d: int, k: int)
    requires
        g.wf(),
        in_range_fits(g, in_range),
        0 <= p < PLAYERS,
        0 <= d < g.players[p].drones.len(),
        0 <= k < CREATURE_KINDS,
    ensures
        g.players[p].drones[d].dying || g.players[p].drones[d].dead ==> g.scanned(in_range).players[p].drones[d]
            == g.players[p].drones[d],
        g.players[p].drones[d].scans[k] is Some || g.saved(p, k) ==> g.scanned(in_range).players[p].drones[d].scans[k]
            == g.players[p].drones[d].scans[k],
        g.players[p].drones[d].scans[k] is None && g.scanned(in_range).players[p].drones[d].scans[k] is Some
            ==> exists|j: int|
            0 <= j < in_range[p][d].len() && listed_kind(g.fishes, in_range[p][d], j) == k
                && g.scanned(in_range).players[p].drones[d].scans[k] == Some(
                #[trigger] listed_id(g.fishes, in_range[p][d], j),
            ),
        g.scanned(in_range).players[p].drones[d] == (DroneView {
            scans: g.scanned(in_range).players[p].drones[d].scans,
            fishes_scanned_this_turn: g.scanned(in_range).players[p].drones[d].fishes_scanned_this_turn,
            ..g.players[p].drones[d]
        }),
        g.scanned(in_range).players[p].scans == g.players[p].scans,
        g.scanned(in_range).fishes == g.fishes,
        g.scanned(in_range).first_to_scan == g.first_to_scan,
{
    let l = in_range[p][d];
    assert(g.players[p].wf());
    assert(g.players[p].drones[d].scans.len() == CREATURE_KINDS);
    assert forall|i: int| 0 <= i < l.len() implies #[trigger] l[i] < g.fishes.len() by {
        assert(in_range[p][d][i] < g.fishes.len());
    }
    lemma_scan_fishes(g.players[p].drones[d], g.players[p].scans, g.fishes, l, l.len() as int);
}

// ---------------------------------------------------------------------------
// Sums that differ in one term
// ---------------------------------------------------------------------------

proof fn lemma_scan_points_diff(g: GameView, h: GameView, p: int, n: int, x0: int)
    requires
        forall|x: int| 0 <= x < n && x != x0 ==> #[trigger] g.scan_points(p, x) == h.scan_points(p, x),
    ensures
        h.scan_points_upto(p, n) - g.scan_points_upto(p, n) == if 0 <= x0 < n {
            h.scan_points(p, x0) - g.scan_points(p, x0)
        } else {
            0
        },
    decreases n,
{
    if n > 0 {
        lemma_scan_points_diff(g, h, p, n - 1, x0);
        if n - 1 != x0 {
            assert(g.scan_points(p, n - 1) == h.scan_points(p, n - 1));
        }
    }
}

proof fn lemma_type_points_diff(g: GameView, h: GameView, p: int, n: int, x0: int)
    requires
        forall|x: int| 0 <= x < n && x != x0 ==> #[trigger] g.type_points(p, x) == h.type_points(p, x),
    ensures
        h.type_points_upto(p, n) - g.type_points_upto(p, n) == if 0 <= x0 < n {
            h.type_points(p, x0) - g.type_points(p, x0)
        } else {
            0
        },
    decreases n,
{
    if n > 0 {
        lemma_type_points_diff(g, h, p, n - 1, x0);
        if n - 1 != x0 {
            assert(g.type_points(p, n - 1) == h.type_points(p, n - 1));
        }
    }
}

proof fn lemma_color_points_diff(g: GameView, h: GameView, p: int, n: int, x0: int)
    requires
        forall|x: int| 0 <= x < n && x != x0 ==> #[trigger] g.color_points(p, x) == h.color_points(p, x),
    ensures
        h.color_points_upto(p, n) - g.color_points_upto(p, n) == if 0 <= x0 < n {
            h.color_points(p, x0) - g.color_points(p, x0)
        } else {
            0
        },
    decreases n,
{
    if n > 0 {
        lemma_color_points_diff(g, h, p, n - 1, x0);
        if n - 1 != x0 {
            assert(g.color_points(p, n - 1) == h.color_points(p, n - 1));
        }
    }
}

proof fn lemma_scan_potential_diff(g: GameView, h: GameView, p: int, n: int, x0: int)
    requires
        forall|x: int| 0 <= x < n && x != x0 ==> #[trigger] g.scan_potential(p, x) == h.scan_potential(p, x),
    ensures
        h.scan_potential_upto(p, n) - g.scan_potential_upto(p, n) == if 0 <= x0 < n {
            h.scan_potential(p, x0) - g.scan_potential(p, x0)
        } else {
            0
        },
    decreases n,
{
    if n > 0 {
        lemma_scan_potential_diff(g, h, p, n - 1, x0);
        if n - 1 != x0 {
            assert(g.scan_potential(p, n - 1) == h.scan_potential(p, n - 1));
        }
    }
}

proof fn lemma_type_potential_diff(g: GameView, h: GameView, p: int, n: int, x0: int)
    requires
        forall|x: int| 0 <= x < n && x != x0 ==> #[trigger] g.type_potential(p, x) == h.type_potential(p, x),
    ensures
        h.type_potential_upto(p, n) - g.type_potential_upto(p, n) == if 0 <= x0 < n {
            h.type_potential(p, x0) - g.type_potential(p, x0)
        } else {
            0
        },
    decreases n,
{
    if n > 0 {
        lemma_type_potential_diff(g, h, p, n - 1, x0);
        if n - 1 != x0 {
            assert(g.type_potential(p, n - 1) == h.type_potential(p, n - 1));
        }
    }
}

proof fn lemma_color_potential_diff(g: GameView, h: GameView, p: int, n: int, x0: int)
    requires
        forall|x: int| 0 <= x < n && x != x0 ==> #[trigger] g.color_potential(p, x) == h.color_potential(p, x),
    ensures
        h.color_potential_upto(p, n) - g.color_potential_upto(p, n) == if 0 <= x0 < n {
            h.color_potential(p, x0) - g.color_potential(p, x0)
        } else {
            0
        },
    decreases n,
{
    if n > 0 {
        lemma_color_potential_diff(g, h, p, n - 1, x0);
        if n - 1 != x0 {
            assert(g.color_potential(p, n - 1) == h.color_potential(p, n - 1));
        }
    }
}

proof fn lemma_scan_points_zero(g: GameView, p: int, n: int)
    requires
        forall|x: int| 0 <= x < n ==> #[trigger] g.scan_points(p, x) == 0,
    ensures
        g.scan_points_upto(p, n) == 0,
    decreases n,
{
    if n > 0 {
        lemma_scan_points_zero(g, p, n - 1);
        assert(g.scan_points(p, n - 1) == 0);
    }
}

proof fn lemma_type_points_zero(g: GameView, p: int, n: int)
    requires
        forall|x: int| 0 <= x < n ==> #[trigger] g.type_points(p, x) == 0,
    ensures
        g.type_points_upto(p, n) == 0,
    decreases n,
{
    if n > 0 {
        lemma_type_points_zero(g, p, n - 1);
        assert(g.type_points(p, n - 1) == 0);
    }
}

proof fn lemma_color_points_zero(g: GameView, p: int, n: int)
    requires
        forall|x: int| 0 <= x < n ==> #[trigger] g.color_points(p, x) == 0,
    ensures
        g.color_points_upto(p, n) == 0,
    decreases n,
{
    if n > 0 {
        lemma_color_points_zero(g, p, n - 1);
        assert(g.color_points(p, n - 1) == 0);
    }
}

// ---------------------------------------------------------------------------
// Scores
// ---------------------------------------------------------------------------

proof fn lemma_kind_facts(c: int, t: int)
    requires
        0 <= c < COLORS_PER_FISH,
        0 <= t < FISH_TYPES,
    ensures
        0 <= kind(c, t) < CREATURE_KINDS,
        kind(c, t) % (FISH_TYPES as int) == t,
        forall|c2: int, t2: int|
            0 <= c2 < COLORS_PER_FISH && 0 <= t2 < FISH_TYPES && (c2 != c || t2 != t) ==> #[trigger] kind(c2, t2) != kind(
                c,
                t,
            ),
{
    assert((c * 3 + t) % 3 == t) by (nonlinear_arith)
        requires
            0 <= c,
            0 <= t < 3,
    ;
}

/// A player with no saved creature and no bonus has no points.
pub proof fn score_of_nothing(g: GameView, p: int)
    requires
        g.wf(),
        0 <= p < PLAYERS,
        forall|k: int| 0 <= k < CREATURE_KINDS ==> !#[trigger] g.saved(p, k),
        forall|k: int| 0 <= k < CREATURE_KINDS ==> #[trigger] g.first_to_scan[k] != Some(p as i32),
        forall|t: int| 0 <= t < FISH_TYPES ==> #[trigger] g.first_to_scan_all_fish_of_type[t] != Some(p as i32),
        forall|c: int| 0 <= c < COLORS_PER_FISH ==> #[trigger] g.first_to_scan_all_fish_of_color[c] != Some(p as i32),
    ensures
        g.score(p) == 0,
{
    assert forall|t: int| 0 <= t < FISH_TYPES implies #[trigger] g.type_points(p, t) == 0 by {
        lemma_kind_facts(0, t);
        assert(!g.saved(p, kind(0, t)));
    }
    assert forall|c: int| 0 <= c < COLORS_PER_FISH implies #[trigger] g.color_points(p, c) == 0 by {
        lemma_kind_facts(c, 0);
        assert(!g.saved(p, kind(c, 0)));
    }
    lemma_scan_points_zero(g, p, CREATURE_KINDS as int);
    lemma_type_points_zero(g, p, FISH_TYPES as int);
    lemma_color_points_zero(g, p, COLORS_PER_FISH as int);
}

/// Saving one more creature, of color `c` and fish type `t`, raises the
/// player's score by the creature's value (its fish type plus one), by that
/// value again if the player was first to save it, by `COLORS_PER_FISH` if it
/// completes the fish type and by `FISH_TYPES` if it completes the color.
pub proof fn score_counts_each_saved_creature(g: GameView, h: GameView, p: int, c: int, t: int, id: i32)
    requires
        g.wf(),
        0 <= p < PLAYERS,
        0 <= c < COLORS_PER_FISH,
        0 <= t < FISH_TYPES,
        g.players[p].scans[kind(c, t)] is None,
        h == (GameView {
            players: g.players.update(p, PlayerView { scans: g.players[p].scans.update(kind(c, t), Some(id)), ..g.players[p] }),
            ..g
        }),
    ensures
        h.score(p) == g.score(p) + (t + 1) + (if g.first_to_scan[kind(c, t)] == Some(p as i32) { t + 1 } else { 0 })
            + (if h.all_of_type(p, t) { COLORS_PER_FISH as int } else { 0 }) + (if h.all_of_color(p, c) {
            FISH_TYPES as int
        } else {
            0
        }),
{
    let k = kind(c, t);
    lemma_kind_facts(c, t);
    assert(h.players[p].scans == g.players[p].scans.update(k, Some(id)));
    assert forall|x: int| 0 <= x < CREATURE_KINDS && x != k implies #[trigger] g.scan_points(p, x) == h.scan_points(p, x) by {
        assert(h.players[p].scans[x] == g.players[p].scans[x]);
    }
    lemma_scan_points_diff(g, h, p, CREATURE_KINDS as int, k);
    assert(!g.all_of_type(p, t)) by {
        assert(g.players[p].scans[kind(c, t)] is None);
    }
    assert(!g.all_of_color(p, c)) by {
        assert(g.players[p].scans[kind(c, t)] is None);
    }
    assert forall|y: int| 0 <= y < FISH_TYPES && y != t implies #[trigger] g.type_points(p, y) == h.type_points(p, y) by {
        assert forall|c2: int| 0 <= c2 < COLORS_PER_FISH implies h.players[p].scans[kind(c2, y)] == g.players[p].scans[kind(
            c2,
            y,
        )] by {
            lemma_kind_facts(c2, y);
        }
        assert(g.all_of_type(p, y) == h.all_of_type(p, y));
    }
    lemma_type_points_diff(g, h, p, FISH_TYPES as int, t);
    assert forall|y: int| 0 <= y < COLORS_PER_FISH && y != c implies #[trigger] g.color_points(p, y) == h.color_points(p, y) by {
        assert forall|t2: int| 0 <= t2 < FISH_TYPES implies h.players[p].scans[kind(y, t2)] == g.players[p].scans[kind(
            y,
            t2,
        )] by {
            lemma_kind_facts(y, t2);
        }
        assert(g.all_of_color(p, y) == h.all_of_color(p, y));
    }
    lemma_color_points_diff(g, h, p, COLORS_PER_FISH as int, c);
}

/// Becoming first to save a creature kind adds the kind's value (fish type
/// plus one) to the score of a player who has saved it, and nothing to one
/// who has not.
pub proof fn score_counts_first_save(g: GameView, h: GameView, p: int, c: int, t: int)
    requires
        g.wf(),
        0 <= p < PLAYERS,
        0 <= c < COLORS_PER_FISH,
        0 <= t < FISH_TYPES,
        g.first_to_scan[kind(c, t)] != Some(p as i32),
        h == (GameView { first_to_scan: g.first_to_scan.update(kind(c, t), Some(p as i32)), ..g }),
    ensures
        h.score(p) == g.score(p) + if g.saved(p, kind(c, t)) { t + 1 } else { 0 },
{
    let k = kind(c, t);
    lemma_kind_facts(c, t);
    assert forall|x: int| 0 <= x < CREATURE_KINDS && x != k implies #[trigger] g.scan_points(p, x) == h.scan_points(p, x) by {
        assert(h.first_to_scan[x] == g.first_to_scan[x]);
    }
    lemma_scan_points_diff(g, h, p, CREATURE_KINDS as int, k);
    assert forall|y: int| 0 <= y < FISH_TYPES implies #[trigger] g.type_points(p, y) == h.type_points(p, y) by {}
    lemma_type_points_diff(g, h, p, FISH_TYPES as int, -1);
    assert forall|y: int| 0 <= y < COLORS_PER_FISH implies #[trigger] g.color_points(p, y) == h.color_points(p, y) by {}
    lemma_color_points_diff(g, h, p, COLORS_PER_FISH as int, -1);
}

/// Becoming first to complete fish type `t` adds `COLORS_PER_FISH` points.
pub proof fn score_counts_first_type(g: GameView, h: GameView, p: int, t: int)
    requires
        g.wf(),
        0 <= p < PLAYERS,
        0 <= t < FISH_TYPES,
        g.first_to_scan_all_fish_of_type[t] != Some(p as i32),
        h == (GameView {
            first_to_scan_all_fish_of_type: g.first_to_scan_all_fish_of_type.update(t, Some(p as i32)),
            ..g
        }),
    ensures
        h.score(p) == g.score(p) + COLORS_PER_FISH,
{
    assert forall|x: int| 0 <= x < CREATURE_KINDS implies #[trigger] g.scan_points(p, x) == h.scan_points(p, x) by {}
    lemma_scan_points_diff(g, h, p, CREATURE_KINDS as int, -1);
    assert forall|y: int| 0 <= y < FISH_TYPES && y != t implies #[trigger] g.type_points(p, y) == h.type_points(p, y) by {
        assert(h.first_to_scan_all_fish_of_type[y] == g.first_to_scan_all_fish_of_type[y]);
    }
    lemma_type_points_diff(g, h, p, FISH_TYPES as int, t);
    assert forall|y: int| 0 <= y < COLORS_PER_FISH implies #[trigger] g.color_points(p, y) == h.color_points(p, y) by {}
    lemma_color_points_diff(g, h, p, COLORS_PER_FISH as int, -1);
}

/// Becoming first to complete color `c` adds `FISH_TYPES` points.
pub proof fn score_counts_first_color(g: GameView, h: GameView, p: int, c: int)
    requires
        g.wf(),
        0 <= p < PLAYERS,
        0 <= c < COLORS_PER_FISH,
        g.first_to_scan_all_fish_of_color[c] != Some(p as i32),
        h == (GameView {
            first_to_scan_all_fish_of_color: g.first_to_scan_all_fish_of_color.update(c, Some(p as i32)),
            ..g
        }),
    ensures
        h.score(p) == g.score(p) + FISH_TYPES,
{
    assert forall|x: int| 0 <= x < CREATURE_KINDS implies #[trigger] g.scan_points(p, x) == h.scan_points(p, x) by {}
    lemma_scan_points_diff(g, h, p, CREATURE_KINDS as int, -1);
    assert forall|y: int| 0 <= y < FISH_TYPES implies #[trigger] g.type_points(p, y) == h.type_points(p, y) by {}
    lemma_type_points_diff(g, h, p, FISH_TYPES as int, -1);
    assert forall|y: int| 0 <= y < COLORS_PER_FISH && y != c implies #[trigger] g.color_points(p, y) == h.color_points(p, y) by {
        assert(h.first_to_scan_all_fish_of_color[y] == g.first_to_scan_all_fish_of_color[y]);
    }
    lemma_color_points_diff(g, h, p, COLORS_PER_FISH as int, c);
}

// ---------------------------------------------------------------------------
// Highest reachable score
// ---------------------------------------------------------------------------

/// Which kinds a player holds, can still get, and which combos remain
/// possible depend only on the players and the creatures in the game.
proof fn lemma_same_reach(g: GameView, h: GameView)
    requires
        h.players == g.players,
        h.fishes == g.fishes,
    ensures
        forall|p: int, k: int| #[trigger] h.saved(p, k) == g.saved(p, k),
        forall|p: int, k: int| #[trigger] h.held_by_drone(p, k) == g.held_by_drone(p, k),
        forall|k: int| #[trigger] h.escaped(k) == g.escaped(k),
        forall|p: int, k: int| #[trigger] h.lost(p, k) == g.lost(p, k),
        forall|p: int, t: int| #[trigger] h.type_combo_possible(p, t) == g.type_combo_possible(p, t),
        forall|p: int, c: int| #[trigger] h.color_combo_possible(p, c) == g.color_combo_possible(p, c),
{
    assert forall|p: int, k: int| #[trigger] h.lost(p, k) == g.lost(p, k) by {
        assert(h.escaped(k) == g.escaped(k));
        assert(h.held_by_drone(p, k) == g.held_by_drone(p, k));
    }
    assert forall|p: int, t: int| #[trigger] h.type_combo_possible(p, t) == g.type_combo_possible(p, t) by {
        assert(h.players[p] == g.players[p]);
        if g.type_combo_possible(p, t) {
            assert forall|c: int| 0 <= c < COLORS_PER_FISH implies !#[trigger] h.lost(p, kind(c, t)) by {
                assert(!g.lost(p, kind(c, t)));
            }
        }
        if h.type_combo_possible(p, t) {
            assert forall|c: int| 0 <= c < COLORS_PER_FISH implies !#[trigger] g.lost(p, kind(c, t)) by {
                assert(!h.lost(p, kind(c, t)));
            }
        }
    }
    assert forall|p: int, c: int| #[trigger] h.color_combo_possible(p, c) == g.color_combo_possible(p, c) by {
        assert(h.players[p] == g.players[p]);
        if g.color_combo_possible(p, c) {
            assert forall|t: int| 0 <= t < FISH_TYPES implies !#[trigger] h.lost(p, kind(c, t)) by {
                assert(!g.lost(p, kind(c, t)));
            }
        }
        if h.color_combo_possible(p, c) {
            assert forall|t: int| 0 <= t < FISH_TYPES implies !#[trigger] g.lost(p, kind(c, t)) by {
                assert(!h.lost(p, kind(c, t)));
            }
        }
    }
}

/// When the other player becomes first to complete color `c`, which nobody
/// held, the highest score player `p` can reach drops by `FISH_TYPES` if `p`
/// could still complete that color (it can no longer be first), and is
/// unchanged otherwise.
pub proof fn opponent_color_claim_lowers_max_score(g: GameView, h: GameView, p: int, c: int)
    requires
        g.wf(),
        0 <= p < PLAYERS,
        0 <= c < COLORS_PER_FISH,
        g.first_to_scan_all_fish_of_color[c] is None,
        h == (GameView {
            first_to_scan_all_fish_of_color: g.first_to_scan_all_fish_of_color.update(c, Some((1 - p) as i32)),
            ..g
        }),
    ensures
        h.max_score(p) == g.max_score(p) - if g.color_combo_possible(p, c) { FISH_TYPES as int } else { 0 },
{
    assert(h.fishes == g.fishes);
    assert(h.players == g.players);
    lemma_same_reach(g, h);
    assert forall|x: int| 0 <= x < CREATURE_KINDS implies #[trigger] g.scan_points(p, x) == h.scan_points(p, x) by {}
    lemma_scan_points_diff(g, h, p, CREATURE_KINDS as int, -1);
    assert forall|y: int| 0 <= y < FISH_TYPES implies #[trigger] g.type_points(p, y) == h.type_points(p, y) by {}
    lemma_type_points_diff(g, h, p, FISH_TYPES as int, -1);
    assert forall|y: int| 0 <= y < COLORS_PER_FISH implies #[trigger] g.color_points(p, y) == h.color_points(p, y) by {
        assert(h.first_to_scan_all_fish_of_color[y] != Some(p as i32) <==> g.first_to_scan_all_fish_of_color[y] != Some(p as i32));
    }
    lemma_color_points_diff(g, h, p, COLORS_PER_FISH as int, -1);
    assert forall|x: int| 0 <= x < CREATURE_KINDS implies #[trigger] g.scan_potential(p, x) == h.scan_potential(p, x) by {
        assert(g.held_by_drone(p, x) == h.held_by_drone(p, x));
        assert(g.escaped(x) == h.escaped(x));
    }
    lemma_scan_potential_diff(g, h, p, CREATURE_KINDS as int, -1);
    assert forall|y: int| 0 <= y < FISH_TYPES implies #[trigger] g.type_potential(p, y) == h.type_potential(p, y) by {
        assert(g.type_combo_possible(p, y) == h.type_combo_possible(p, y));
    }
    lemma_type_potential_diff(g, h, p, FISH_TYPES as int, -1);
    assert forall|y: int| 0 <= y < COLORS_PER_FISH && y != c implies #[trigger] g.color_potential(p, y) == h.color_potential(p, y) by {
        assert(g.color_combo_possible(p, y) == h.color_combo_possible(p, y));
        assert(h.first_to_scan_all_fish_of_color[y] == g.first_to_scan_all_fish_of_color[y]);
    }
    assert(g.color_combo_possible(p, c) == h.color_combo_possible(p, c));
    lemma_color_potential_diff(g, h, p, COLORS_PER_FISH as int, c);
}

/// When the other player becomes first to complete fish type `t`, which
/// nobody held, the highest score player `p` can reach drops by
/// `COLORS_PER_FISH` if `p` could still complete that type, and is unchanged
/// otherwise.
pub proof fn opponent_type_claim_lowers_max_score(g: GameView, h: GameView, p: int, t: int)
    requires
        g.wf(),
        0 <= p < PLAYERS,
        0 <= t < FISH_TYPES,
        g.first_to_scan_all_fish_of_type[t] is None,
        h == (GameView {
            first_to_scan_all_fish_of_type: g.first_to_scan_all_fish_of_type.update(t, Some((1 - p) as i32)),
            ..g
        }),
    ensures
        h.max_score(p) == g.max_score(p) - if g.type_combo_possible(p, t) { COLORS_PER_FISH as int } else { 0 },
{
    assert(h.fishes == g.fishes);
    assert(h.players == g.players);
    lemma_same_reach(g, h);
    assert forall|x: int| 0 <= x < CREATURE_KINDS implies #[trigger] g.scan_points(p, x) == h.scan_points(p, x) by {}
    lemma_scan_points_diff(g, h, p, CREATURE_KINDS as int, -1);
    assert forall|y: int| 0 <= y < FISH_TYPES implies #[trigger] g.type_points(p, y) == h.type_points(p, y) by {
        assert(h.first_to_scan_all_fish_of_type[y] != Some(p as i32) <==> g.first_to_scan_all_fish_of_type[y] != Some(p as i32));
    }
    lemma_type_points_diff(g, h, p, FISH_TYPES as int, -1);
    assert forall|y: int| 0 <= y < COLORS_PER_FISH implies #[trigger] g.color_points(p, y) == h.color_points(p, y) by {}
    lemma_color_points_diff(g, h, p, COLORS_PER_FISH as int, -1);
    assert forall|x: int| 0 <= x < CREATURE_KINDS implies #[trigger] g.scan_potential(p, x) == h.scan_potential(p, x) by {
        assert(g.held_by_drone(p, x) == h.held_by_drone(p, x));
        assert(g.escaped(x) == h.escaped(x));
    }
    lemma_scan_potential_diff(g, h, p, CREATURE_KINDS as int, -1);
    assert forall|y: int| 0 <= y < FISH_TYPES && y != t implies #[trigger] g.type_potential(p, y) == h.type_potential(p, y) by {
        assert(g.type_combo_possible(p, y) == h.type_combo_possible(p, y));
        assert(h.first_to_scan_all_fish_of_type[y] == g.first_to_scan_all_fish_of_type[y]);
    }
    assert(g.type_combo_possible(p, t) == h.type_combo_possible(p, t));
    lemma_type_potential_diff(g, h, p, FISH_TYPES as int, t);
    assert forall|y: int| 0 <= y < COLORS_PER_FISH implies #[trigger] g.color_potential(p, y) == h.color_potential(p, y) by {
        assert(g.color_combo_possible(p, y) == h.color_combo_possible(p, y));
    }
    lemma_color_potential_diff(g, h, p, COLORS_PER_FISH as int, -1);
}

/// When the other player becomes first to save creature kind `kind(c, t)`,
/// which nobody held, the highest score player `p` can reach drops by the
/// kind's value (fish type plus one) if `p` has not saved it and can still
/// get it (a drone of `p` carries it or it is still in the game), and is
/// unchanged otherwise.
pub proof fn opponent_first_save_lowers_max_score(g: GameView, h: GameView, p: int, c: int, t: int)
    requires
        g.wf(),
        0 <= p < PLAYERS,
        0 <= c < COLORS_PER_FISH,
        0 <= t < FISH_TYPES,
        g.first_to_scan[kind(c, t)] is None,
        h == (GameView { first_to_scan: g.first_to_scan.update(kind(c, t), Some((1 - p) as i32)), ..g }),
    ensures
        h.max_score(p) == g.max_score(p) - if !g.saved(p, kind(c, t)) && (g.held_by_drone(p, kind(c, t)) || !g.escaped(
            kind(c, t),
        )) {
            t + 1
        } else {
            0
        },
{
    assert(h.fishes == g.fishes);
    assert(h.players == g.players);
    lemma_same_reach(g, h);
    let k = kind(c, t);
    lemma_kind_facts(c, t);
    assert forall|x: int| 0 <= x < CREATURE_KINDS implies #[trigger] g.scan_points(p, x) == h.scan_points(p, x) by {
        assert(h.first_to_scan[x] == Some(p as i32) <==> g.first_to_scan[x] == Some(p as i32));
    }
    lemma_scan_points_diff(g, h, p, CREATURE_KINDS as int, -1);
    assert forall|y: int| 0 <= y < FISH_TYPES implies #[trigger] g.type_points(p, y) == h.type_points(p, y) by {}
    lemma_type_points_diff(g, h, p, FISH_TYPES as int, -1);
    assert forall|y: int| 0 <= y < COLORS_PER_FISH implies #[trigger] g.color_points(p, y) == h.color_points(p, y) by {}
    lemma_color_points_diff(g, h, p, COLORS_PER_FISH as int, -1);
    assert forall|x: int| 0 <= x < CREATURE_KINDS && x != k implies #[trigger] g.scan_potential(p, x) == h.scan_potential(p, x) by {
        assert(g.held_by_drone(p, x) == h.held_by_drone(p, x));
        assert(g.escaped(x) == h.escaped(x));
        assert(h.first_to_scan[x] == g.first_to_scan[x]);
    }
    assert(g.held_by_drone(p, k) == h.held_by_drone(p, k));
    assert(g.escaped(k) == h.escaped(k));
    lemma_scan_potential_diff(g, h, p, CREATURE_KINDS as int, k);
    assert forall|y: int| 0 <= y < FISH_TYPES implies #[trigger] g.type_potential(p, y) == h.type_potential(p, y) by {
        assert(g.type_combo_possible(p, y) == h.type_combo_possible(p, y));
    }
    lemma_type_potential_diff(g, h, p, FISH_TYPES as int, -1);
    assert forall|y: int| 0 <= y < COLORS_PER_FISH implies #[trigger] g.color_potential(p, y) == h.color_potential(p, y) by {
        assert(g.color_combo_possible(p, y) == h.color_combo_possible(p, y));
    }
    lemma_color_potential_diff(g, h, p, COLORS_PER_FISH as int, -1);
}

// ---------------------------------------------------------------------------
// Reports
// ---------------------------------------------------------------------------

/// What the reports of the first `n` drones of player `q` do to the saved
/// scans: a scan saved before stays saved, a kind carried by one of those
/// drones that is alive becomes saved, and a kind neither saved nor carried
/// by any drone of `q` stays unsaved; the later drones, the other player and
/// the combo tables are untouched.
proof fn lemma_report_drones_saves(g: GameView, q: int, n: int)
    requires
        g.wf(),
        0 <= q < PLAYERS,
        0 <= n <= g.players[q].drones.len(),
    ensures
        g.report_drones(q, n).wf(),
        g.report_drones(q, n).players[q].drones.len() == g.players[q].drones.len(),
        g.report_drones(q, n).players[1 - q] == g.players[1 - q],
        g.report_drones(q, n).first_to_scan_all_fish_of_color == g.first_to_scan_all_fish_of_color,
        g.report_drones(q, n).first_to_scan_all_fish_of_color_temp == g.first_to_scan_all_fish_of_color_temp,
        g.report_drones(q, n).first_to_scan_all_fish_of_type == g.first_to_scan_all_fish_of_type,
        g.report_drones(q, n).first_to_scan_all_fish_of_type_temp == g.first_to_scan_all_fish_of_type_temp,
        forall|e: int| n <= e < g.players[q].drones.len() ==> #[trigger] g.report_drones(q, n).players[q].drones[e] == g.players[q].drones[e],
        forall|k: int| 0 <= k < CREATURE_KINDS && g.saved(q, k) ==> #[trigger] g.report_drones(q, n).saved(q, k),
        forall|k: int, e: int|
            0 <= k < CREATURE_KINDS && 0 <= e < n && !g.players[q].drones[e].dying && !g.players[q].drones[e].dead
                && (#[trigger] g.players[q].drones[e].scans[k]) is Some ==> #[trigger] g.report_drones(q, n).saved(q, k),
        forall|k: int|
            0 <= k < CREATURE_KINDS && !g.saved(q, k) && (forall|e: int|
                0 <= e < g.players[q].drones.len() ==> (#[trigger] g.players[q].drones[e].scans[k]) is None)
                ==> !#[trigger] g.report_drones(q, n).saved(q, k),
    decreases n,
{
    g.lemma_report_drones_keeps(q, n);
    if n > 0 {
        lemma_report_drones_saves(g, q, n - 1);
        let g1 = g.report_drones(q, n - 1);
        let dr = g1.players[q].drones[n - 1];
        assert(dr == g.players[q].drones[n - 1]);
        let r = g.report_drones(q, n);
        if !(dr.dying || dr.dead) {
            let r0 = g1.report_drone(q, n - 1);
            assert(r0.players[q].scans == crate::game::merged(g1.players[q].scans, dr.scans));
            assert(g1.players[q].scans.len() == CREATURE_KINDS);
            assert forall|k: int| 0 <= k < CREATURE_KINDS implies #[trigger] r.saved(q, k) == (g1.saved(q, k) || dr.scans[k] is Some) by {
                assert(r.players[q].scans == r0.players[q].scans);
            }
            assert forall|e: int| n <= e < g.players[q].drones.len() implies #[trigger] r.players[q].drones[e] == g.players[q].drones[e] by {
                assert(r.players[q].drones[e] == g1.players[q].drones[e]);
            }
            assert forall|k: int, e: int|
                0 <= k < CREATURE_KINDS && 0 <= e < n && !g.players[q].drones[e].dying && !g.players[q].drones[e].dead
                    && (#[trigger] g.players[q].drones[e].scans[k]) is Some implies #[trigger] r.saved(q, k) by {
                if e < n - 1 {
                    assert(g1.saved(q, k));
                }
            }
            assert forall|k: int|
                0 <= k < CREATURE_KINDS && !g.saved(q, k) && (forall|e: int|
                    0 <= e < g.players[q].drones.len() ==> (#[trigger] g.players[q].drones[e].scans[k]) is None)
                    implies !#[trigger] r.saved(q, k) by {
                assert(!g1.saved(q, k));
                assert(g.players[q].drones[n - 1].scans[k] is None);
            }
        } else {
            assert(r == g1);
            assert forall|k: int, e: int|
                0 <= k < CREATURE_KINDS && 0 <= e < n && !g.players[q].drones[e].dying && !g.players[q].drones[e].dead
                    && (#[trigger] g.players[q].drones[e].scans[k]) is Some implies #[trigger] r.saved(q, k) by {
                assert(e < n - 1);
            }
        }
    }
}

/// The state after player 0 reported and claimed its combos, and after both.
proof fn lemma_report_steps(g: GameView)
    requires
        g.wf(),
    ensures
        g.reported_upto(1) == g.report_drones(0, g.players[0].drones.len() as int).detect_combos(0),
        g.reported_upto(PLAYERS as int) == g.reported_upto(1).report_drones(
            1,
            g.reported_upto(1).players[1].drones.len() as int,
        ).detect_combos(1),
{
    assert(g.reported_upto(0) == g);
}

/// A player whose live drone brings in the last creatures of color `c` it was
/// missing, when nobody holds or claims that color and the other player
/// cannot complete it this turn, is first to complete the color once the
/// turn's report is done.
pub proof fn report_claims_completed_color(g: GameView, p: int, d: int, c: int, t1: int)
    requires
        g.wf(),
        0 <= p < PLAYERS,
        0 <= d < g.players[p].drones.len(),
        !g.players[p].drones[d].dying,
        !g.players[p].drones[d].dead,
        0 <= c < COLORS_PER_FISH,
        forall|t: int|
            0 <= t < FISH_TYPES ==> #[trigger] g.players[p].scans[kind(c, t)] is Some || g.players[p].drones[d].scans[kind(
                c,
                t,
            )] is Some,
        g.first_to_scan_all_fish_of_color[c] is None,
        g.first_to_scan_all_fish_of_color_temp[c] is None,
        0 <= t1 < FISH_TYPES,
        g.players[1 - p].scans[kind(c, t1)] is None,
        forall|e: int| 0 <= e < g.players[1 - p].drones.len() ==> (#[trigger] g.players[1 - p].drones[e]).scans[kind(c, t1)] is None,
    ensures
        g.reported().first_to_scan_all_fish_of_color[c] == Some(p as i32),
{
    lemma_report_steps(g);
    lemma_kind_facts(c, t1);
    let a = g.report_drones(0, g.players[0].drones.len() as int);
    lemma_report_drones_saves(g, 0, g.players[0].drones.len() as int);
    let b = a.detect_combos(0);
    assert(b.players == a.players);
    assert(b.wf());
    let cc = b.report_drones(1, b.players[1].drones.len() as int);
    lemma_report_drones_saves(b, 1, b.players[1].drones.len() as int);
    let dd = cc.detect_combos(1);
    assert(g.reported_upto(PLAYERS as int) == dd);
    if p == 0 {
        assert forall|t: int| 0 <= t < FISH_TYPES implies #[trigger] a.players[0].scans[kind(c, t)] is Some by {
            lemma_kind_facts(c, t);
            assert(a.saved(0, kind(c, t)));
        }
        assert(a.all_of_color(0, c));
        assert(b.first_to_scan_all_fish_of_color_temp[c] == Some(0i32));
        assert(b.players[1] == g.players[1]);
        assert(!cc.saved(1, kind(c, t1)));
        assert(!cc.all_of_color(1, c));
        assert(dd.first_to_scan_all_fish_of_color_temp[c] == Some(0i32));
    } else {
        assert(!a.saved(0, kind(c, t1)));
        assert(!a.all_of_color(0, c));
        assert(b.first_to_scan_all_fish_of_color_temp[c] is None);
        assert(b.players[1] == g.players[1]);
        assert forall|t: int| 0 <= t < FISH_TYPES implies #[trigger] cc.players[1].scans[kind(c, t)] is Some by {
            lemma_kind_facts(c, t);
            assert(cc.saved(1, kind(c, t)));
        }
        assert(cc.all_of_color(1, c));
        assert(dd.first_to_scan_all_fish_of_color_temp[c] == Some(1i32));
    }
}

/// A player whose live drone brings in the last creatures of fish type `t` it
/// was missing, when nobody holds or claims that type and the other player
/// cannot complete it this turn, is first to complete the type once the
/// turn's report is done.
pub proof fn report_claims_completed_type(g: GameView, p: int, d: int, t: int, c1: int)
    requires
        g.wf(),
        0 <= p < PLAYERS,
        0 <= d < g.players[p].drones.len(),
        !g.players[p].drones[d].dying,
        !g.players[p].drones[d].dead,
        0 <= t < FISH_TYPES,
        forall|c: int|
            0 <= c < COLORS_PER_FISH ==> #[trigger] g.players[p].scans[kind(c, t)] is Some || g.players[p].drones[d].scans[kind(
                c,
                t,
            )] is Some,
        g.first_to_scan_all_fish_of_type[t] is None,
        g.first_to_scan_all_fish_of_type_temp[t] is None,
        0 <= c1 < COLORS_PER_FISH,
        g.players[1 - p].scans[kind(c1, t)] is None,
        forall|e: int| 0 <= e < g.players[1 - p].drones.len() ==> (#[trigger] g.players[1 - p].drones[e]).scans[kind(c1, t)] is None,
    ensures
        g.reported().first_to_scan_all_fish_of_type[t] == Some(p as i32),
{
    lemma_report_steps(g);
    lemma_kind_facts(c1, t);
    let a = g.report_drones(0, g.players[0].drones.len() as int);
    lemma_report_drones_saves(g, 0, g.players[0].drones.len() as int);
    let b = a.detect_combos(0);
    assert(b.players == a.players);
    assert(b.wf());
    let cc = b.report_drones(1, b.players[1].drones.len() as int);
    lemma_report_drones_saves(b, 1, b.players[1].drones.len() as int);
    let dd = cc.detect_combos(1);
    assert(g.reported_upto(PLAYERS as int) == dd);
    if p == 0 {
        assert forall|c: int| 0 <= c < COLORS_PER_FISH implies #[trigger] a.players[0].scans[kind(c, t)] is Some by {
            lemma_kind_facts(c, t);
            assert(a.saved(0, kind(c, t)));
        }
        assert(a.all_of_type(0, t));
        assert(b.first_to_scan_all_fish_of_type_temp[t] == Some(0i32));
        assert(b.players[1] == g.players[1]);
        assert(!cc.saved(1, kind(c1, t)));
        assert(!cc.all_of_type(1, t));
        assert(dd.first_to_scan_all_fish_of_type_temp[t] == Some(0i32));
    } else {
        assert(!a.saved(0, kind(c1, t)));
        assert(!a.all_of_type(0, t));
        assert(b.first_to_scan_all_fish_of_type_temp[t] is None);
        assert(b.players[1] == g.players[1]);
        assert forall|c: int| 0 <= c < COLORS_PER_FISH implies #[trigger] cc.players[1].scans[kind(c, t)] is Some by {
            lemma_kind_facts(c, t);
            assert(cc.saved(1, kind(c, t)));
        }
        assert(cc.all_of_type(1, t));
        assert(dd.first_to_scan_all_fish_of_type_temp[t] == Some(1i32));
    }
}

/// What the reports of the first `n` drones of player `q`, dead or alive, do
/// to the saved scans at the end of the game (as in
/// `lemma_report_drones_saves`).
proof fn lemma_report_every_drone_saves(g: GameView, q: int, n: int)
    requires
        g.wf(),
        0 <= q < PLAYERS,
        0 <= n <= g.players[q].drones.len(),
    ensures
        g.report_every_drone(q, n).wf(),
        g.report_every_drone(q, n).players[q].drones.len() == g.players[q].drones.len(),
        g.report_every_drone(q, n).players[1 - q] == g.players[1 - q],
        g.report_every_drone(q, n).first_to_scan_all_fish_of_color == g.first_to_scan_all_fish_of_color,
        g.report_every_drone(q, n).first_to_scan_all_fish_of_color_temp == g.first_to_scan_all_fish_of_color_temp,
        g.report_every_drone(q, n).first_to_scan_all_fish_of_type == g.first_to_scan_all_fish_of_type,
        g.report_every_drone(q, n).first_to_scan_all_fish_of_type_temp == g.first_to_scan_all_fish_of_type_temp,
        forall|e: int| n <= e < g.players[q].drones.len() ==> #[trigger] g.report_every_drone(q, n).players[q].drones[e] == g.players[q].drones[e],
        forall|k: int| 0 <= k < CREATURE_KINDS && g.saved(q, k) ==> #[trigger] g.report_every_drone(q, n).saved(q, k),
        forall|k: int, e: int|
            0 <= k < CREATURE_KINDS && 0 <= e < n && (#[trigger] g.players[q].drones[e].scans[k]) is Some
                ==> #[trigger] g.report_every_drone(q, n).saved(q, k),
        forall|k: int|
            0 <= k < CREATURE_KINDS && !g.saved(q, k) && (forall|e: int|
                0 <= e < g.players[q].drones.len() ==> (#[trigger] g.players[q].drones[e].scans[k]) is None)
                ==> !#[trigger] g.report_every_drone(q, n).saved(q, k),
    decreases n,
{
    if n > 0 {
        lemma_report_every_drone_saves(g, q, n - 1);
        let g1 = g.report_every_drone(q, n - 1);
        let dr = g1.players[q].drones[n - 1];
        assert(dr == g.players[q].drones[n - 1]);
        g1.lemma_report_drone_keeps(q, n - 1);
        let r = g.report_every_drone(q, n);
        assert(r == g1.report_drone(q, n - 1));
        assert(r.players[q].scans == crate::game::merged(g1.players[q].scans, dr.scans));
        assert(g1.players[q].scans.len() == CREATURE_KINDS);
        assert forall|k: int| 0 <= k < CREATURE_KINDS implies #[trigger] r.saved(q, k) == (g1.saved(q, k) || dr.scans[k] is Some) by {}
        assert forall|e: int| n <= e < g.players[q].drones.len() implies #[trigger] r.players[q].drones[e] == g.players[q].drones[e] by {
            assert(r.players[q].drones[e] == g1.players[q].drones[e]);
        }
        assert forall|k: int, e: int|
            0 <= k < CREATURE_KINDS && 0 <= e < n && (#[trigger] g.players[q].drones[e].scans[k]) is Some implies #[trigger] r.saved(q, k) by {
            if e < n - 1 {
                assert(g1.saved(q, k));
            }
        }
        assert forall|k: int|
            0 <= k < CREATURE_KINDS && !g.saved(q, k) && (forall|e: int|
                0 <= e < g.players[q].drones.len() ==> (#[trigger] g.players[q].drones[e].scans[k]) is None)
                implies !#[trigger] r.saved(q, k) by {
            assert(!g1.saved(q, k));
            assert(g.players[q].drones[n - 1].scans[k] is None);
        }
    }
}

/// At the end of the game a player whose drone, dead or alive, brings in the
/// last creatures of color `c` it was missing, when nobody holds or claims
/// that color and the other player cannot complete it, is first to complete
/// the color once the final reports are done.
pub proof fn final_report_claims_completed_color(g: GameView, p: int, d: int, c: int, t1: int)
    requires
        g.wf(),
        0 <= p < PLAYERS,
        0 <= d < g.players[p].drones.len(),
        0 <= c < COLORS_PER_FISH,
        forall|t: int|
            0 <= t < FISH_TYPES ==> #[trigger] g.players[p].scans[kind(c, t)] is Some || g.players[p].drones[d].scans[kind(
                c,
                t,
            )] is Some,
        g.first_to_scan_all_fish_of_color[c] is None,
        g.first_to_scan_all_fish_of_color_temp[c] is None,
        0 <= t1 < FISH_TYPES,
        g.players[1 - p].scans[kind(c, t1)] is None,
        forall|e: int| 0 <= e < g.players[1 - p].drones.len() ==> (#[trigger] g.players[1 - p].drones[e]).scans[kind(c, t1)] is None,
    ensures
        g.scored_on_end().first_to_scan_all_fish_of_color[c] == Some(p as i32),
{
    assert(g.final_reports_upto(0) == g);
    lemma_kind_facts(c, t1);
    let a = g.report_every_drone(0, g.players[0].drones.len() as int);
    lemma_report_every_drone_saves(g, 0, g.players[0].drones.len() as int);
    let b = a.detect_combos(0);
    assert(g.final_reports_upto(1) == b);
    assert(b.players == a.players);
    assert(b.wf());
    let cc = b.report_every_drone(1, b.players[1].drones.len() as int);
    lemma_report_every_drone_saves(b, 1, b.players[1].drones.len() as int);
    let dd = cc.detect_combos(1);
    assert(g.final_reports_upto(PLAYERS as int) == dd);
    if p == 0 {
        assert forall|t: int| 0 <= t < FISH_TYPES implies #[trigger] a.players[0].scans[kind(c, t)] is Some by {
            lemma_kind_facts(c, t);
            assert(a.saved(0, kind(c, t)));
        }
        assert(a.all_of_color(0, c));
        assert(b.first_to_scan_all_fish_of_color_temp[c] == Some(0i32));
        assert(b.players[1] == g.players[1]);
        assert(!cc.saved(1, kind(c, t1)));
        assert(!cc.all_of_color(1, c));
        assert(dd.first_to_scan_all_fish_of_color_temp[c] == Some(0i32));
    } else {
        assert(!a.saved(0, kind(c, t1)));
        assert(!a.all_of_color(0, c));
        assert(b.first_to_scan_all_fish_of_color_temp[c] is None);
        assert(b.players[1] == g.players[1]);
        assert forall|t: int| 0 <= t < FISH_TYPES implies #[trigger] cc.players[1].scans[kind(c, t)] is Some by {
            lemma_kind_facts(c, t);
            assert(cc.saved(1, kind(c, t)));
        }
        assert(cc.all_of_color(1, c));
        assert(dd.first_to_scan_all_fish_of_color_temp[c] == Some(1i32));
    }
}

/// At the end of the game a player whose drone, dead or alive, brings in the
/// last creatures of fish type `t` it was missing, when nobody holds or
/// claims that type and the other player cannot complete it, is first to
/// complete the type once the final reports are done.
pub proof fn final_report_claims_completed_type(g: GameView, p: int, d: int, t: int, c1: int)
    requires
        g.wf(),
        0 <= p < PLAYERS,
        0 <= d < g.players[p].drones.len(),
        0 <= t < FISH_TYPES,
        forall|c: int|
            0 <= c < COLORS_PER_FISH ==> #[trigger] g.players[p].scans[kind(c, t)] is Some || g.players[p].drones[d].scans[kind(
                c,
                t,
            )] is Some,
        g.first_to_scan_all_fish_of_type[t] is None,
        g.first_to_scan_all_fish_of_type_temp[t] is None,
        0 <= c1 < COLORS_PER_FISH,
        g.players[1 - p].scans[kind(c1, t)] is None,
        forall|e: int| 0 <= e < g.players[1 - p].drones.len() ==> (#[trigger] g.players[1 - p].drones[e]).scans[kind(c1, t)] is None,
    ensures
        g.scored_on_end().first_to_scan_all_fish_of_type[t] == Some(p as i32),
{
    assert(g.final_reports_upto(0) == g);
    lemma_kind_facts(c1, t);
    let a = g.report_every_drone(0, g.players[0].drones.len() as int);
    lemma_report_every_drone_saves(g, 0, g.players[0].drones.len() as int);
    let b = a.detect_combos(0);
    assert(g.final_reports_upto(1) == b);
    assert(b.players == a.players);
    assert(b.wf());
    let cc = b.report_every_drone(1, b.players[1].drones.len() as int);
    lemma_report_every_drone_saves(b, 1, b.players[1].drones.len() as int);
    let dd = cc.detect_combos(1);
    assert(g.final_reports_upto(PLAYERS as int) == dd);
    if p == 0 {
        assert forall|c: int| 0 <= c < COLORS_PER_FISH implies #[trigger] a.players[0].scans[kind(c, t)] is Some by {
            lemma_kind_facts(c, t);
            assert(a.saved(0, kind(c, t)));
        }
        assert(a.all_of_type(0, t));
        assert(b.first_to_scan_all_fish_of_type_temp[t] == Some(0i32));
        assert(b.players[1] == g.players[1]);
        assert(!cc.saved(1, kind(c1, t)));
        assert(!cc.all_of_type(1, t));
        assert(dd.first_to_scan_all_fish_of_type_temp[t] == Some(0i32));
    } else {
        assert(!a.saved(0, kind(c1, t)));
        assert(!a.all_of_type(0, t));
        assert(b.first_to_scan_all_fish_of_type_temp[t] is None);
        assert(b.players[1] == g.players[1]);
        assert forall|c: int| 0 <= c < COLORS_PER_FISH implies #[trigger] cc.players[1].scans[kind(c, t)] is Some by {
            lemma_kind_facts(c, t);
            assert(cc.saved(1, kind(c, t)));
        }
        assert(cc.all_of_type(1, t));
        assert(dd.first_to_scan_all_fish_of_type_temp[t] == Some(1i32));
    }
}

// ---------------------------------------------------------------------------
// Settling claims, points, upkeep
// ---------------------------------------------------------------------------

/// Settling claims: a bonus someone holds stays with its holder, a bonus
/// nobody holds goes to whoever claimed it this turn (nobody if the claim was
/// cancelled), and no claim stays pending; nothing else changes.
pub proof fn settling_keeps_holders_and_grants_claims(g: GameView)
    requires
        g.wf(),
    ensures
        forall|k: int|
            0 <= k < CREATURE_KINDS ==> #[trigger] g.persisted().first_to_scan[k] == if g.first_to_scan[k] is Some {
                g.first_to_scan[k]
            } else {
                g.first_to_scan_temp[k]
            },
        forall|t: int|
            0 <= t < FISH_TYPES ==> #[trigger] g.persisted().first_to_scan_all_fish_of_type[t] == if g.first_to_scan_all_fish_of_type[t] is Some {
                g.first_to_scan_all_fish_of_type[t]
            } else {
                g.first_to_scan_all_fish_of_type_temp[t]
            },
        forall|c: int|
            0 <= c < COLORS_PER_FISH ==> #[trigger] g.persisted().first_to_scan_all_fish_of_color[c] == if g.first_to_scan_all_fish_of_color[c] is Some {
                g.first_to_scan_all_fish_of_color[c]
            } else {
                g.first_to_scan_all_fish_of_color_temp[c]
            },
        forall|k: int| 0 <= k < CREATURE_KINDS ==> #[trigger] g.persisted().first_to_scan_temp[k] is None,
        forall|t: int| 0 <= t < FISH_TYPES ==> #[trigger] g.persisted().first_to_scan_all_fish_of_type_temp[t] is None,
        forall|c: int| 0 <= c < COLORS_PER_FISH ==> #[trigger] g.persisted().first_to_scan_all_fish_of_color_temp[c] is None,
        g.persisted().first_to_scan.len() == CREATURE_KINDS,
        g.persisted().first_to_scan_temp.len() == CREATURE_KINDS,
        g.persisted().players == g.players,
        g.persisted().fishes == g.fishes,
        g.persisted().turn_saved_fish == g.turn_saved_fish,
        g.persisted().game_turn == g.game_turn,
        g.persisted().fish_scanned == g.fish_scanned,
{
}

/// After a turn's report, and after the end-of-game scoring, each player's
/// points are its score in the resulting state.
pub proof fn reports_leave_points_equal_to_scores(g: GameView, p: int)
    requires
        g.wf(),
        0 <= p < PLAYERS,
    ensures
        g.reported().players[p].points == g.reported().score(p),
        g.scored_on_end().players[p].points == g.scored_on_end().score(p),
{
    let s = g.reported_upto(PLAYERS as int).persisted();
    let r = s.with_points();
    assert(g.reported_upto(PLAYERS as int).players.len() == PLAYERS) by {
        lemma_report_steps(g);
        lemma_report_drones_saves(g, 0, g.players[0].drones.len() as int);
        let b = g.reported_upto(1);
        assert(b.wf());
        lemma_report_drones_saves(b, 1, b.players[1].drones.len() as int);
    }
    lemma_points_free(s, r, p);
    let s2 = g.final_reports_upto(PLAYERS as int).persisted();
    let r2 = s2.with_points();
    assert(g.final_reports_upto(PLAYERS as int).players.len() == PLAYERS) by {
        assert(g.final_reports_upto(0) == g);
        lemma_report_every_drone_saves(g, 0, g.players[0].drones.len() as int);
        let b = g.final_reports_upto(1);
        assert(b.wf());
        lemma_report_every_drone_saves(b, 1, b.players[1].drones.len() as int);
    }
    lemma_points_free(s2, r2, p);
}

/// A score does not depend on the points recorded for the players.
proof fn lemma_points_free(s: GameView, r: GameView, p: int)
    requires
        0 <= p < PLAYERS,
        s.players.len() == PLAYERS,
        r == s.with_points(),
    ensures
        r.players[p].points == r.score(p),
{
    assert forall|x: int| 0 <= x < CREATURE_KINDS implies #[trigger] s.scan_points(p, x) == r.scan_points(p, x) by {}
    lemma_scan_points_diff(s, r, p, CREATURE_KINDS as int, -1);
    assert forall|y: int| 0 <= y < FISH_TYPES implies #[trigger] s.type_points(p, y) == r.type_points(p, y) by {
        assert(s.all_of_type(p, y) == r.all_of_type(p, y));
    }
    lemma_type_points_diff(s, r, p, FISH_TYPES as int, -1);
    assert forall|y: int| 0 <= y < COLORS_PER_FISH implies #[trigger] s.color_points(p, y) == r.color_points(p, y) by {
        assert(s.all_of_color(p, y) == r.all_of_color(p, y));
    }
    lemma_color_points_diff(s, r, p, COLORS_PER_FISH as int, -1);
    s.lemma_score_bounds(p, CREATURE_KINDS as int);
    s.lemma_score_bounds(p, FISH_TYPES as int);
    s.lemma_score_bounds(p, COLORS_PER_FISH as int);
    assert(r.players[p].points == s.score(p) as i32);
}

proof fn lemma_scan_count_zero(s: Seq<Option<i32>>)
    ensures
        (crate::game::scan_count(s) == 0) == (forall|k: int| 0 <= k < s.len() ==> #[trigger] s[k] is None),
    decreases s.len(),
{
    if s.len() > 0 {
        lemma_scan_count_zero(s.drop_last());
        if crate::game::scan_count(s) == 0 {
            assert forall|k: int| 0 <= k < s.len() implies #[trigger] s[k] is None by {
                if k < s.len() - 1 {
                    assert(s.drop_last()[k] is None);
                }
            }
        }
        if forall|k: int| 0 <= k < s.len() ==> #[trigger] s[k] is None {
            assert forall|k: int| 0 <= k < s.drop_last().len() implies #[trigger] s.drop_last()[k] is None by {
                assert(s[k] is None);
            }
            assert(s[s.len() - 1] is None);
        }
    }
}

/// A drone's upkeep at the end of a turn: a dying drone is now dead, a dead
/// one at the surface lives again, no drone stays dying; a drone carrying
/// scans has held them one turn longer (and its record is the longest such
/// stretch), one carrying none has held them for no turn; its deepest point
/// takes in the depth reached; nothing else about it changes.
pub proof fn upkeep_advances_drone(g: GameView, surfaced: Seq<Seq<bool>>, depths: Seq<Seq<i32>>, q: int, e: int)
    requires
        g.wf(),
        0 <= q < PLAYERS,
        0 <= e < g.players[q].drones.len(),
        (exists|k: int| 0 <= k < CREATURE_KINDS && #[trigger] g.players[q].drones[e].scans[k] is Some)
            ==> g.players[q].drones[e].turns_spent_with_scan < i32::MAX,
    ensures
        !g.upkept(surfaced, depths).players[q].drones[e].dying,
        g.upkept(surfaced, depths).players[q].drones[e].dead == (g.players[q].drones[e].dying || (
        g.players[q].drones[e].dead && !surfaced[q][e])),
        (forall|k: int| 0 <= k < CREATURE_KINDS ==> #[trigger] g.players[q].drones[e].scans[k] is None)
            ==> g.upkept(surfaced, depths).players[q].drones[e].turns_spent_with_scan == 0
            && g.upkept(surfaced, depths).players[q].drones[e].max_turns_spent_with_scan
            == g.players[q].drones[e].max_turns_spent_with_scan,
        (exists|k: int| 0 <= k < CREATURE_KINDS && #[trigger] g.players[q].drones[e].scans[k] is Some)
            ==> g.upkept(surfaced, depths).players[q].drones[e].turns_spent_with_scan
            == g.players[q].drones[e].turns_spent_with_scan + 1
            && g.upkept(surfaced, depths).players[q].drones[e].max_turns_spent_with_scan == if g.players[q].drones[e].turns_spent_with_scan + 1
            > g.players[q].drones[e].max_turns_spent_with_scan {
            g.players[q].drones[e].turns_spent_with_scan + 1
        } else {
            g.players[q].drones[e].max_turns_spent_with_scan as int
        },
        g.upkept(surfaced, depths).players[q].drones[e].max_y == if depths[q][e] > g.players[q].drones[e].max_y {
            depths[q][e]
        } else {
            g.players[q].drones[e].max_y
        },
        g.upkept(surfaced, depths).players[q].drones[e] == (DroneView {
            dying: g.upkept(surfaced, depths).players[q].drones[e].dying,
            dead: g.upkept(surfaced, depths).players[q].drones[e].dead,
            turns_spent_with_scan: g.upkept(surfaced, depths).players[q].drones[e].turns_spent_with_scan,
            max_turns_spent_with_scan: g.upkept(surfaced, depths).players[q].drones[e].max_turns_spent_with_scan,
            max_y: g.upkept(surfaced, depths).players[q].drones[e].max_y,
            ..g.players[q].drones[e]
        }),
{
    let d = g.players[q].drones[e];
    assert(g.players[q].wf());
    assert(d.scans.len() == CREATURE_KINDS);
    lemma_scan_count_zero(d.scans);
}

/// The game is over exactly when the last turn is reached, when a player's
/// points exceed the highest score the other can still reach, or when both
/// players have saved every creature still in the game.
pub proof fn game_over_conditions(g: GameView)
    requires
        g.wf(),
    ensures
        g.game_turn >= crate::game::LAST_TURN ==> g.over(),
        g.players[1].points > g.max_score(0) ==> g.over(),
        g.players[0].points > g.max_score(1) ==> g.over(),
        (forall|p: int, i: int|
            0 <= p < PLAYERS && 0 <= i < g.fishes.len() ==> #[trigger] g.players[p].scans[kind(
                g.fishes[i].color as int,
                g.fishes[i].fish_type as int,
            )] is Some) ==> g.over(),
        g.over() ==> g.game_turn >= crate::game::LAST_TURN || g.players[1].points > g.max_score(0) || g.players[0].points
            > g.max_score(1) || (forall|p: int, i: int|
            0 <= p < PLAYERS && 0 <= i < g.fishes.len() ==> #[trigger] g.players[p].scans[kind(
                g.fishes[i].color as int,
                g.fishes[i].fish_type as int,
            )] is Some),
{
    if forall|p: int, i: int|
        0 <= p < PLAYERS && 0 <= i < g.fishes.len() ==> #[trigger] g.players[p].scans[kind(
            g.fishes[i].color as int,
            g.fishes[i].fish_type as int,
        )] is Some {
        assert forall|p: int| 0 <= p < PLAYERS implies #[trigger] g.saved_all_remaining(p) by {
            assert forall|i: int| 0 <= i < g.fishes.len() implies #[trigger] g.saved(
                p,
                kind(g.fishes[i].color as int, g.fishes[i].fish_type as int),
            ) by {
                assert(g.players[p].scans[kind(g.fishes[i].color as int, g.fishes[i].fish_type as int)] is Some);
            }
        }
    }
    if g.over() && g.all_remaining_saved() {
        assert forall|p: int, i: int|
            0 <= p < PLAYERS && 0 <= i < g.fishes.len() implies #[trigger] g.players[p].scans[kind(
                g.fishes[i].color as int,
                g.fishes[i].fish_type as int,
            )] is Some by {
            assert(g.saved_all_remaining(p));
            assert(g.saved(p, kind(g.fishes[i].color as int, g.fishes[i].fish_type as int)));
        }
    }
}

} // verus!
