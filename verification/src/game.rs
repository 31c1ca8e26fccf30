//! The rules of the dive: scanning creatures, reporting scans, first-to-save
//! bonuses, combo bonuses, scores, batteries and the end of the game.
//!
//! A creature kind is a pair of a color (`0..COLORS_PER_FISH`) and a fish type
//! (`0..FISH_TYPES`); slot `color * FISH_TYPES + fish_type` of a scan vector
//! holds the scan of that kind.
use vstd::prelude::*;
use crate::drone::Drone;
use crate::drone::DroneView;
use crate::drone::CREATURE_KINDS;
use crate::drone::no_scans;
use crate::drone::recharged;
use crate::drone::fresh_drone;
use crate::drone::LIGHT_BATTERY_COST;

verus! {

pub const COLORS_PER_FISH: i32 = 4;

pub const FISH_TYPES: i32 = 3;

pub const PLAYERS: usize = 2;

/// Drones each player starts with.
pub const DRONES_PER_PLAYER: usize = 2;

/// Most scans a drone carries.
pub const DRONE_MAX_SCANS: i32 = i32::MAX;

/// Turn from which the game is over.
pub const LAST_TURN: i32 = 200;

/// A creature: its id, color and fish type. Where it swims is kept by the
/// simulation that moves it.
#[derive(Clone, Copy, Debug, PartialEq, Eq, Structural)]
pub struct Fish {
    pub id: i32,
    pub color: i32,
    pub fish_type: i32,
}

pub struct Player {
    pub index: i32,
    pub drones: Vec<Drone>,
    /// Saved scans, one slot per creature kind, holding the scanned fish's id.
    pub scans: Vec<Option<i32>>,
    /// Number of scans saved by each report that saved any.
    pub count_fish_saved: Vec<i32>,
    pub points: i32,
    /// Ids of the creatures the player is shown.
    pub visible_fishes: Vec<i32>,
}

pub struct Game {
    pub players: Vec<Player>,
    /// Creatures still in the game.
    pub fishes: Vec<Fish>,
    /// Player who first saved each creature kind.
    pub first_to_scan: Vec<Option<i32>>,
    pub first_to_scan_temp: Vec<Option<i32>>,
    /// Player who first saved every creature of each color.
    pub first_to_scan_all_fish_of_color: Vec<Option<i32>>,
    pub first_to_scan_all_fish_of_color_temp: Vec<Option<i32>>,
    /// Player who first saved every creature of each fish type.
    pub first_to_scan_all_fish_of_type: Vec<Option<i32>>,
    pub first_to_scan_all_fish_of_type_temp: Vec<Option<i32>>,
    pub game_turn: i32,
    /// Turn at which each player last reported each creature kind.
    pub turn_saved_fish: Vec<Vec<i32>>,
    pub fish_scanned: i32,
}

/// First-to-save awards made by one report.
pub struct Awards {
    /// Player and creature-kind slot of each creature kind first saved.
    pub scans: Vec<(i32, i32)>,
    /// Player and fish type of each type first completed.
    pub types: Vec<(i32, i32)>,
    /// Player and color of each color first completed.
    pub colors: Vec<(i32, i32)>,
}

// ---------------------------------------------------------------------------
// Specification
// ---------------------------------------------------------------------------

/// Slot of the creature kind of that color and fish type.
pub open spec fn kind(color: int, fish_type: int) -> int {
    color * FISH_TYPES + fish_type
}

pub open spec fn kind_type(k: int) -> int {
    k % FISH_TYPES as int
}

/// Points a creature kind is worth: one more than its fish type.
pub open spec fn kind_value(k: int) -> int {
    kind_type(k) + 1
}

/// Number of filled slots.
pub open spec fn scan_count(s: Seq<Option<i32>>) -> nat
    decreases s.len(),
{
    if s.len() == 0 {
        0
    } else {
        scan_count(s.drop_last()) + if s.last() is Some { 1nat } else { 0 }
    }
}

/// Saved scans with the drone's scans added, a slot already filled keeping
/// its scan.
pub open spec fn merged(saved: Seq<Option<i32>>, extra: Seq<Option<i32>>) -> Seq<Option<i32>> {
    Seq::new(saved.len(), |k: int| if saved[k] is Some { saved[k] } else { extra[k] })
}

/// A first-to-save entry that stands for nobody.
pub open spec fn unclaimed(entry: Option<i32>) -> bool {
    match entry {
        None => true,
        Some(v) => v == -1,
    }
}

/// A first-to-save entry that does not name player `p`.
pub open spec fn not_claimed_by(entry: Option<i32>, p: int) -> bool {
    match entry {
        None => true,
        Some(v) => v != p,
    }
}

/// A pending claim: the first claim registers the player, a second one in
/// the same turn cancels it.
pub open spec fn toggled(entry: Option<i32>, p: int) -> Option<i32> {
    if entry is Some {
        None
    } else {
        Some(p as i32)
    }
}

/// A permanent entry keeps its value; an empty one takes the pending claim.
pub open spec fn settled(entry: Option<i32>, pending: Option<i32>) -> Option<i32> {
    if entry is Some {
        entry
    } else {
        pending
    }
}

/// Player an entry names, `-1` for nobody.
pub open spec fn holder_of(entry: Option<i32>) -> i32 {
    match entry {
        Some(v) => v,
        None => -1i32,
    }
}

/// Number of slots empty in `saved` and filled in `extra`.
pub open spec fn fresh_count(saved: Seq<Option<i32>>, extra: Seq<Option<i32>>) -> nat
    decreases saved.len(),
{
    if saved.len() == 0 {
        0
    } else {
        fresh_count(saved.drop_last(), extra.drop_last()) + if saved.last() is None && extra.last() is Some {
            1nat
        } else {
            0
        }
    }
}

/// Pending claims listed as (player, slot) in slot order.
pub open spec fn pending_list(pending: Seq<Option<i32>>, n: int) -> Seq<(i32, i32)>
    decreases n,
{
    if n <= 0 {
        Seq::empty()
    } else {
        pending_list(pending, n - 1) + match pending[n - 1] {
            Some(p) => seq![(p, (n - 1) as i32)],
            None => Seq::empty(),
        }
    }
}

/// `s` with `x` added unless already there.
pub open spec fn with_member(s: Seq<i32>, x: i32) -> Seq<i32> {
    if s.contains(x) {
        s
    } else {
        s.push(x)
    }
}

/// Ids of the creatures, in order.
pub open spec fn fish_ids(fishes: Seq<Fish>) -> Seq<i32> {
    Seq::new(fishes.len(), |i: int| fishes[i].id)
}

/// A drone scans fish `f`: a kind neither saved by its player nor already
/// carried is scanned, and the fish counts as scanned this turn.
pub open spec fn scan_fish(d: DroneView, saved: Seq<Option<i32>>, f: Fish) -> DroneView {
    let k = kind(f.color as int, f.fish_type as int);
    if saved[k] is None && d.scans[k] is None {
        DroneView {
            scans: d.scans.update(k, Some(f.id)),
            fishes_scanned_this_turn: with_member(d.fishes_scanned_this_turn, f.id),
            ..d
        }
    } else {
        d
    }
}

/// A drone scans, in order, the first `n` fish of `in_range` (indices into
/// `fishes`).
pub open spec fn scan_fishes(d: DroneView, saved: Seq<Option<i32>>, fishes: Seq<Fish>, in_range: Seq<usize>, n: int) -> DroneView
    decreases n,
{
    if n <= 0 {
        d
    } else {
        scan_fish(scan_fishes(d, saved, fishes, in_range, n - 1), saved, fishes[in_range[n - 1] as int])
    }
}

/// Ids of the first `n` fish of `in_range` added in order to `s`.
pub open spec fn with_members(s: Seq<i32>, fishes: Seq<Fish>, in_range: Seq<usize>, n: int) -> Seq<i32>
    decreases n,
{
    if n <= 0 {
        s
    } else {
        with_member(with_members(s, fishes, in_range, n - 1), fishes[in_range[n - 1] as int].id)
    }
}

/// Creatures at the start of a game: for each even color and each fish type
/// a pair of mirrored creatures, the next color's one listed first.
pub open spec fn initial_fishes() -> Seq<Fish> {
    seq![
        (Fish { id: 5, color: 1, fish_type: 0 }),
        (Fish { id: 4, color: 0, fish_type: 0 }),
        (Fish { id: 7, color: 1, fish_type: 1 }),
        (Fish { id: 6, color: 0, fish_type: 1 }),
        (Fish { id: 9, color: 1, fish_type: 2 }),
        (Fish { id: 8, color: 0, fish_type: 2 }),
        (Fish { id: 11, color: 3, fish_type: 0 }),
        (Fish { id: 10, color: 2, fish_type: 0 }),
        (Fish { id: 13, color: 3, fish_type: 1 }),
        (Fish { id: 12, color: 2, fish_type: 1 }),
        (Fish { id: 15, color: 3, fish_type: 2 }),
        (Fish { id: 14, color: 2, fish_type: 2 }),
    ]
}

/// A player at the start of a game: drones numbered alternately with the
/// other player's, nothing saved, shown every creature.
pub open spec fn initial_player(p: int) -> PlayerView {
    PlayerView {
        index: p as i32,
        drones: seq![fresh_drone(p as i32), fresh_drone((p + PLAYERS) as i32)],
        scans: no_scans(),
        count_fish_saved: Seq::empty(),
        points: 0,
        visible_fishes: fish_ids(initial_fishes()),
    }
}

/// The game at its start: first turn, nothing claimed, no saving turn
/// recorded.
pub open spec fn initial_game() -> GameView {
    GameView {
        players: seq![initial_player(0), initial_player(1)],
        fishes: initial_fishes(),
        first_to_scan: no_scans(),
        first_to_scan_temp: no_scans(),
        first_to_scan_all_fish_of_color: Seq::new(COLORS_PER_FISH as nat, |c: int| None),
        first_to_scan_all_fish_of_color_temp: Seq::new(COLORS_PER_FISH as nat, |c: int| None),
        first_to_scan_all_fish_of_type: Seq::new(FISH_TYPES as nat, |t: int| None),
        first_to_scan_all_fish_of_type_temp: Seq::new(FISH_TYPES as nat, |t: int| None),
        game_turn: 1,
        turn_saved_fish: seq![Seq::new(CREATURE_KINDS as nat, |k: int| -1i32), Seq::new(CREATURE_KINDS as nat, |k: int| -1i32)],
        fish_scanned: 0,
    }
}

/// A drone's upkeep at the end of a turn: a dying drone is now dead, a dead
/// one back at the surface lives again; the turns it has held scans for, and
/// the deepest it has been, are updated.
pub open spec fn upkeep(d: DroneView, surfaced: bool, depth: i32) -> DroneView {
    let dying = if d.dying { false } else { d.dying };
    let dead = if d.dying { true } else if d.dead && surfaced { false } else { d.dead };
    let turns = if scan_count(d.scans) == 0 { 0 } else { d.turns_spent_with_scan + 1 };
    let max_turns = if scan_count(d.scans) != 0 && turns > d.max_turns_spent_with_scan {
        turns
    } else {
        d.max_turns_spent_with_scan as int
    };
    DroneView {
        dying,
        dead,
        turns_spent_with_scan: turns as i32,
        max_turns_spent_with_scan: max_turns as i32,
        max_y: if depth > d.max_y { depth } else { d.max_y },
        ..d
    }
}

/// One turn of a drone's battery: a dead drone's light goes off; otherwise
/// the light is on exactly when switched on with enough battery, and a lit
/// drone spends `LIGHT_BATTERY_COST` units while an unlit one recharges one.
pub open spec fn battery_turn(d: DroneView) -> DroneView {
    if d.dead {
        DroneView { light_on: false, ..d }
    } else if d.light_switch && d.battery >= LIGHT_BATTERY_COST {
        DroneView { light_on: true, battery: (d.battery - LIGHT_BATTERY_COST) as i32, ..d }
    } else {
        DroneView { light_on: false, battery: recharged(d.battery as int) as i32, ..d }
    }
}

proof fn lemma_scan_count_bound(s: Seq<Option<i32>>)
    ensures
        scan_count(s) <= s.len(),
    decreases s.len(),
{
    if s.len() > 0 {
        lemma_scan_count_bound(s.drop_last());
    }
}

proof fn lemma_fresh_count_prefix(saved: Seq<Option<i32>>, extra: Seq<Option<i32>>, j: int)
    requires
        saved.len() == extra.len(),
        0 <= j <= saved.len(),
    ensures
        fresh_count(saved.take(j), extra.take(j)) <= fresh_count(saved, extra),
    decreases saved.len(),
{
    if j == saved.len() {
        assert(saved.take(j) =~= saved);
        assert(extra.take(j) =~= extra);
    } else {
        assert(saved.take(j) =~= saved.drop_last().take(j));
        assert(extra.take(j) =~= extra.drop_last().take(j));
        lemma_fresh_count_prefix(saved.drop_last(), extra.drop_last(), j);
    }
}

/// Counting fresh slots slot by slot: the first `j + 1` slots count the
/// first `j` and slot `j`.
proof fn lemma_fresh_count_step(saved: Seq<Option<i32>>, extra: Seq<Option<i32>>, j: int)
    requires
        saved.len() == extra.len(),
        0 <= j < saved.len(),
    ensures
        fresh_count(saved.take(j + 1), extra.take(j + 1)) == fresh_count(saved.take(j), extra.take(j)) + if saved[j] is None
            && extra[j] is Some {
            1nat
        } else {
            0
        },
{
    assert(saved.take(j + 1).drop_last() =~= saved.take(j));
    assert(extra.take(j + 1).drop_last() =~= extra.take(j));
}

/// Merging scans into saved ones adds exactly the fresh ones.
proof fn lemma_merged_count(saved: Seq<Option<i32>>, extra: Seq<Option<i32>>)
    requires
        saved.len() == extra.len(),
    ensures
        scan_count(merged(saved, extra)) == scan_count(saved) + fresh_count(saved, extra),
        fresh_count(saved, extra) > 0 <==> exists|k: int| 0 <= k < saved.len() && saved[k] is None && extra[k] is Some,
    decreases saved.len(),
{
    if saved.len() > 0 {
        let n = saved.len() - 1;
        lemma_merged_count(saved.drop_last(), extra.drop_last());
        assert(merged(saved, extra).drop_last() =~= merged(saved.drop_last(), extra.drop_last()));
        if fresh_count(saved.drop_last(), extra.drop_last()) > 0 {
            let k = choose|k: int| 0 <= k < n && saved.drop_last()[k] is None && extra.drop_last()[k] is Some;
            assert(saved[k] is None && extra[k] is Some);
        }
        if exists|k: int| 0 <= k < saved.len() && saved[k] is None && extra[k] is Some {
            let k = choose|k: int| 0 <= k < saved.len() && saved[k] is None && extra[k] is Some;
            if k < n {
                assert(saved.drop_last()[k] is None && extra.drop_last()[k] is Some);
            }
        }
    }
}

pub struct PlayerView {
    pub index: i32,
    pub drones: Seq<DroneView>,
    pub scans: Seq<Option<i32>>,
    pub count_fish_saved: Seq<i32>,
    pub points: i32,
    pub visible_fishes: Seq<i32>,
}

/// The state of the game, as the rules see it.
pub struct GameView {
    pub players: Seq<PlayerView>,
    pub fishes: Seq<Fish>,
    pub first_to_scan: Seq<Option<i32>>,
    pub first_to_scan_temp: Seq<Option<i32>>,
    pub first_to_scan_all_fish_of_color: Seq<Option<i32>>,
    pub first_to_scan_all_fish_of_color_temp: Seq<Option<i32>>,
    pub first_to_scan_all_fish_of_type: Seq<Option<i32>>,
    pub first_to_scan_all_fish_of_type_temp: Seq<Option<i32>>,
    pub game_turn: i32,
    pub turn_saved_fish: Seq<Seq<i32>>,
    pub fish_scanned: i32,
}

impl View for Player {
    type V = PlayerView;

    open spec fn view(&self) -> PlayerView {
        PlayerView {
            index: self.index,
            drones: Seq::new(self.drones@.len(), |d: int| self.drones@[d]@),
            scans: self.scans@,
            count_fish_saved: self.count_fish_saved@,
            points: self.points,
            visible_fishes: self.visible_fishes@,
        }
    }
}

impl View for Game {
    type V = GameView;

    open spec fn view(&self) -> GameView {
        GameView {
            players: Seq::new(self.players@.len(), |p: int| self.players@[p]@),
            fishes: self.fishes@,
            first_to_scan: self.first_to_scan@,
            first_to_scan_temp: self.first_to_scan_temp@,
            first_to_scan_all_fish_of_color: self.first_to_scan_all_fish_of_color@,
            first_to_scan_all_fish_of_color_temp: self.first_to_scan_all_fish_of_color_temp@,
            first_to_scan_all_fish_of_type: self.first_to_scan_all_fish_of_type@,
            first_to_scan_all_fish_of_type_temp: self.first_to_scan_all_fish_of_type_temp@,
            game_turn: self.game_turn,
            turn_saved_fish: Seq::new(self.turn_saved_fish@.len(), |p: int| self.turn_saved_fish@[p]@),
            fish_scanned: self.fish_scanned,
        }
    }
}

impl PlayerView {
    /// Has saved every creature of fish type `t`.
    pub open spec fn all_of_type(self, t: int) -> bool {
        forall|c: int| 0 <= c < COLORS_PER_FISH ==> #[trigger] self.scans[kind(c, t)] is Some
    }

    /// Has saved every creature of color `c`.
    pub open spec fn all_of_color(self, c: int) -> bool {
        forall|t: int| 0 <= t < FISH_TYPES ==> #[trigger] self.scans[kind(c, t)] is Some
    }

    pub open spec fn wf(self) -> bool {
        &&& self.scans.len() == CREATURE_KINDS
        &&& forall|d: int| 0 <= d < self.drones.len() ==> (#[trigger] self.drones[d]).scans.len() == CREATURE_KINDS
    }
}

impl Player {
    pub open spec fn wf(&self) -> bool {
        &&& self.scans@.len() == CREATURE_KINDS
        &&& forall|d: int| 0 <= d < self.drones@.len() ==> (#[trigger] self.drones@[d]).scans@.len() == CREATURE_KINDS
    }
}

impl Game {
    /// Shape of the state: two players with their indices, one slot per
    /// creature kind, color and type in the tables, and creatures of known
    /// colors and types.
    pub open spec fn wf(&self) -> bool {
        &&& self.players@.len() == PLAYERS
        &&& forall|p: int| 0 <= p < PLAYERS ==> (#[trigger] self.players@[p]).wf() && self.players@[p].index == p
        &&& self.first_to_scan@.len() == CREATURE_KINDS
        &&& self.first_to_scan_temp@.len() == CREATURE_KINDS
        &&& self.first_to_scan_all_fish_of_color@.len() == COLORS_PER_FISH
        &&& self.first_to_scan_all_fish_of_color_temp@.len() == COLORS_PER_FISH
        &&& self.first_to_scan_all_fish_of_type@.len() == FISH_TYPES
        &&& self.first_to_scan_all_fish_of_type_temp@.len() == FISH_TYPES
        &&& self.turn_saved_fish@.len() == PLAYERS
        &&& forall|p: int| 0 <= p < PLAYERS ==> (#[trigger] self.turn_saved_fish@[p])@.len() == CREATURE_KINDS
        &&& forall|i: int| 0 <= i < self.fishes@.len() ==> {
            &&& 0 <= (#[trigger] self.fishes@[i]).color < COLORS_PER_FISH
            &&& 0 <= self.fishes@[i].fish_type < FISH_TYPES
        }
    }

    /// The view of a well-formed game is well formed.
    pub proof fn lemma_view_wf(&self)
        requires
            self.wf(),
        ensures
            self@.wf(),
    {
        assert forall|p: int| 0 <= p < PLAYERS implies (#[trigger] self@.players[p]).wf() && self@.players[p].index == p by {
            assert(self.players@[p].wf());
        }
        assert forall|p: int| 0 <= p < PLAYERS implies (#[trigger] self@.turn_saved_fish[p]).len() == CREATURE_KINDS by {
            assert(self.turn_saved_fish@[p]@.len() == CREATURE_KINDS);
        }
    }
}

impl GameView {
    /// Shape of the state: two players with their indices, one slot per
    /// creature kind, color and type in the tables, and creatures of known
    /// colors and types.
    pub open spec fn wf(self) -> bool {
        &&& self.players.len() == PLAYERS
        &&& forall|p: int| 0 <= p < PLAYERS ==> (#[trigger] self.players[p]).wf() && self.players[p].index == p
        &&& self.first_to_scan.len() == CREATURE_KINDS
        &&& self.first_to_scan_temp.len() == CREATURE_KINDS
        &&& self.first_to_scan_all_fish_of_color.len() == COLORS_PER_FISH
        &&& self.first_to_scan_all_fish_of_color_temp.len() == COLORS_PER_FISH
        &&& self.first_to_scan_all_fish_of_type.len() == FISH_TYPES
        &&& self.first_to_scan_all_fish_of_type_temp.len() == FISH_TYPES
        &&& self.turn_saved_fish.len() == PLAYERS
        &&& forall|p: int| 0 <= p < PLAYERS ==> (#[trigger] self.turn_saved_fish[p]).len() == CREATURE_KINDS
        &&& forall|i: int| 0 <= i < self.fishes.len() ==> {
            &&& 0 <= (#[trigger] self.fishes[i]).color < COLORS_PER_FISH
            &&& 0 <= self.fishes[i].fish_type < FISH_TYPES
        }
    }

    /// Player `p` has saved a scan of kind `k`.
    pub open spec fn saved(self, p: int, k: int) -> bool {
        self.players[p].scans[k] is Some
    }

    /// A drone of player `p` carries an unsaved scan of kind `k`.
    pub open spec fn held_by_drone(self, p: int, k: int) -> bool {
        exists|d: int| 0 <= d < self.players[p].drones.len() && (#[trigger] self.players[p].drones[d]).scans[k] is Some
    }

    /// No creature of kind `k` is left in the game.
    pub open spec fn escaped(self, k: int) -> bool {
        !exists|i: int| 0 <= i < self.fishes.len() && kind((#[trigger] self.fishes[i]).color as int, self.fishes[i].fish_type as int) == k
    }

    pub open spec fn all_of_type(self, p: int, t: int) -> bool {
        self.players[p].all_of_type(t)
    }

    pub open spec fn all_of_color(self, p: int, c: int) -> bool {
        self.players[p].all_of_color(c)
    }

    /// Player `p` has saved every creature still in the game.
    pub open spec fn saved_all_remaining(self, p: int) -> bool {
        forall|i: int| 0 <= i < self.fishes.len() ==> #[trigger] self.saved(p, kind(self.fishes[i].color as int, self.fishes[i].fish_type as int))
    }

    /// Points player `p` has for its saved scan of kind `k`: the kind's value,
    /// twice if `p` was first to save it.
    pub open spec fn scan_points(self, p: int, k: int) -> int {
        if self.saved(p, k) {
            kind_value(k) + if self.first_to_scan[k] == Some(p as i32) { kind_value(k) } else { 0 }
        } else {
            0
        }
    }

    pub open spec fn scan_points_upto(self, p: int, n: int) -> int
        decreases n,
    {
        if n <= 0 {
            0
        } else {
            self.scan_points_upto(p, n - 1) + self.scan_points(p, n - 1)
        }
    }

    /// Bonus for all creatures of fish type `t`, doubled for the first to
    /// complete it.
    pub open spec fn type_points(self, p: int, t: int) -> int {
        (if self.all_of_type(p, t) { COLORS_PER_FISH as int } else { 0 })
            + (if self.first_to_scan_all_fish_of_type[t] == Some(p as i32) { COLORS_PER_FISH as int } else { 0 })
    }

    pub open spec fn type_points_upto(self, p: int, n: int) -> int
        decreases n,
    {
        if n <= 0 {
            0
        } else {
            self.type_points_upto(p, n - 1) + self.type_points(p, n - 1)
        }
    }

    /// Bonus for all creatures of color `c`, doubled for the first to
    /// complete it.
    pub open spec fn color_points(self, p: int, c: int) -> int {
        (if self.all_of_color(p, c) { FISH_TYPES as int } else { 0 })
            + (if self.first_to_scan_all_fish_of_color[c] == Some(p as i32) { FISH_TYPES as int } else { 0 })
    }

    pub open spec fn color_points_upto(self, p: int, n: int) -> int
        decreases n,
    {
        if n <= 0 {
            0
        } else {
            self.color_points_upto(p, n - 1) + self.color_points(p, n - 1)
        }
    }

    /// Score of player `p`.
    pub open spec fn score(self, p: int) -> int {
        self.scan_points_upto(p, CREATURE_KINDS as int) + self.type_points_upto(p, FISH_TYPES as int)
            + self.color_points_upto(p, COLORS_PER_FISH as int)
    }

    /// Points player `p` may still gain from creature kind `k`: a kind it has
    /// not saved but one of its drones carries, or that is still in the game.
    pub open spec fn scan_potential(self, p: int, k: int) -> int {
        if !self.saved(p, k) && (self.held_by_drone(p, k) || !self.escaped(k)) {
            kind_value(k) + if unclaimed(self.first_to_scan[k]) { kind_value(k) } else { 0 }
        } else {
            0
        }
    }

    pub open spec fn scan_potential_upto(self, p: int, n: int) -> int
        decreases n,
    {
        if n <= 0 {
            0
        } else {
            self.scan_potential_upto(p, n - 1) + self.scan_potential(p, n - 1)
        }
    }

    /// The creature of kind `k` is gone for player `p`: not in the game, not
    /// carried by its drones and not saved.
    pub open spec fn lost(self, p: int, k: int) -> bool {
        self.escaped(k) && !self.held_by_drone(p, k) && !self.saved(p, k)
    }

    /// Player `p` has not completed fish type `t` but still can.
    pub open spec fn type_combo_possible(self, p: int, t: int) -> bool {
        &&& !self.all_of_type(p, t)
        &&& forall|c: int| 0 <= c < COLORS_PER_FISH ==> !#[trigger] self.lost(p, kind(c, t))
    }

    /// Player `p` has not completed color `c` but still can.
    pub open spec fn color_combo_possible(self, p: int, c: int) -> bool {
        &&& !self.all_of_color(p, c)
        &&& forall|t: int| 0 <= t < FISH_TYPES ==> !#[trigger] self.lost(p, kind(c, t))
    }

    pub open spec fn type_potential(self, p: int, t: int) -> int {
        if self.type_combo_possible(p, t) {
            COLORS_PER_FISH as int + if not_claimed_by(self.first_to_scan_all_fish_of_type[t], 1 - p) {
                COLORS_PER_FISH as int
            } else {
                0
            }
        } else {
            0
        }
    }

    pub open spec fn type_potential_upto(self, p: int, n: int) -> int
        decreases n,
    {
        if n <= 0 {
            0
        } else {
            self.type_potential_upto(p, n - 1) + self.type_potential(p, n - 1)
        }
    }

    pub open spec fn color_potential(self, p: int, c: int) -> int {
        if self.color_combo_possible(p, c) {
            FISH_TYPES as int + if not_claimed_by(self.first_to_scan_all_fish_of_color[c], 1 - p) {
                FISH_TYPES as int
            } else {
                0
            }
        } else {
            0
        }
    }

    pub open spec fn color_potential_upto(self, p: int, n: int) -> int
        decreases n,
    {
        if n <= 0 {
            0
        } else {
            self.color_potential_upto(p, n - 1) + self.color_potential(p, n - 1)
        }
    }

    /// Highest score player `p` can still reach.
    pub open spec fn max_score(self, p: int) -> int {
        self.score(p) + self.scan_potential_upto(p, CREATURE_KINDS as int) + self.type_potential_upto(
            p,
            FISH_TYPES as int,
        ) + self.color_potential_upto(p, COLORS_PER_FISH as int)
    }

    /// Every drone's battery after one turn.
    pub open spec fn batteries_done(self) -> GameView {
        GameView {
            players: Seq::new(
                self.players.len(),
                |q: int| PlayerView {
                    drones: Seq::new(self.players[q].drones.len(), |e: int| battery_turn(self.players[q].drones[e])),
                    ..self.players[q]
                },
            ),
            ..self
        }
    }

    /// Every live drone scans the creatures in range of it
    /// (`in_range[p][d]` lists, as indices into `fishes`, those in range of
    /// drone `d` of player `p`); a player with a live drone is then shown
    /// every creature.
    pub open spec fn scanned(self, in_range: Seq<Seq<Seq<usize>>>) -> GameView {
        GameView {
            players: Seq::new(
                self.players.len(),
                |q: int| {
                    let pl = self.players[q];
                    PlayerView {
                        drones: Seq::new(
                            pl.drones.len(),
                            |e: int|
                                if pl.drones[e].dying || pl.drones[e].dead {
                                    pl.drones[e]
                                } else {
                                    scan_fishes(pl.drones[e], pl.scans, self.fishes, in_range[q][e], in_range[q][e].len() as int)
                                },
                        ),
                        visible_fishes: if exists|e: int| 0 <= e < pl.drones.len() && !(#[trigger] pl.drones[e]).dying && !pl.drones[e].dead {
                            fish_ids(self.fishes)
                        } else {
                            pl.visible_fishes
                        },
                        ..pl
                    }
                },
            ),
            ..self
        }
    }

    /// Every player is shown no creature.
    pub open spec fn cleared_player_info(self) -> GameView {
        GameView {
            players: Seq::new(
                self.players.len(),
                |q: int| PlayerView { visible_fishes: Seq::empty(), ..self.players[q] },
            ),
            ..self
        }
    }

    /// Every drone's upkeep; `surfaced[p][d]` tells whether drone `d` of
    /// player `p` is at the surface and `depths[p][d]` its depth as an
    /// integer.
    pub open spec fn upkept(self, surfaced: Seq<Seq<bool>>, depths: Seq<Seq<i32>>) -> GameView {
        GameView {
            players: Seq::new(
                self.players.len(),
                |q: int| PlayerView {
                    drones: Seq::new(
                        self.players[q].drones.len(),
                        |e: int| upkeep(self.players[q].drones[e], surfaced[q][e], depths[q][e]),
                    ),
                    ..self.players[q]
                },
            ),
            ..self
        }
    }

    /// Scans counted by the reports of the first `n` drones of player `p`:
    /// each live drone's report counts the kinds it saves for the first time.
    pub open spec fn report_drones_count(self, p: int, n: int) -> int
        decreases n,
    {
        if n <= 0 {
            0
        } else {
            let g = self.report_drones(p, n - 1);
            let dr = g.players[p].drones[n - 1];
            self.report_drones_count(p, n - 1) + if dr.dying || dr.dead {
                0
            } else {
                fresh_count(g.players[p].scans, dr.scans) as int
            }
        }
    }

    /// Scans counted by the reports of the first `n` drones of player `p`
    /// when every drone reports.
    pub open spec fn report_every_drone_count(self, p: int, n: int) -> int
        decreases n,
    {
        if n <= 0 {
            0
        } else {
            let g = self.report_every_drone(p, n - 1);
            self.report_every_drone_count(p, n - 1) + fresh_count(g.players[p].scans, g.players[p].drones[n - 1].scans) as int
        }
    }

    /// Scans counted by a turn's report.
    pub open spec fn report_count(self) -> int {
        let h = self.reported_upto(1);
        self.report_drones_count(0, self.players[0].drones.len() as int) + h.report_drones_count(
            1,
            h.players[1].drones.len() as int,
        )
    }

    /// Scans counted by the end-of-game reports.
    pub open spec fn final_report_count(self) -> int {
        let h = self.final_reports_upto(1);
        self.report_every_drone_count(0, self.players[0].drones.len() as int) + h.report_every_drone_count(
            1,
            h.players[1].drones.len() as int,
        )
    }

    /// Reports of one player's drones leave the other player as it was.
    proof fn lemma_other_player_kept(self, p: int, n: int)
        requires
            self.players.len() == PLAYERS,
            0 <= p < PLAYERS,
        ensures
            self.report_drones(p, n).players.len() == PLAYERS,
            self.report_drones(p, n).players[1 - p] == self.players[1 - p],
            self.report_every_drone(p, n).players.len() == PLAYERS,
            self.report_every_drone(p, n).players[1 - p] == self.players[1 - p],
        decreases n,
    {
        if n > 0 {
            self.lemma_other_player_kept(p, n - 1);
        }
    }

    proof fn lemma_report_count_mono(self, p: int, i: int, j: int)
        requires
            0 <= i <= j,
        ensures
            0 <= self.report_drones_count(p, i) <= self.report_drones_count(p, j),
            0 <= self.report_every_drone_count(p, i) <= self.report_every_drone_count(p, j),
        decreases j,
    {
        if i < j {
            self.lemma_report_count_mono(p, i, j - 1);
        } else if j > 0 {
            self.lemma_report_count_mono(p, j - 1, j - 1);
        }
    }

    /// Both players have saved every creature still in the game.
    pub open spec fn all_remaining_saved(self) -> bool {
        forall|p: int| 0 <= p < PLAYERS ==> #[trigger] self.saved_all_remaining(p)
    }

    /// The game is over: every remaining creature is saved by both players,
    /// the last turn is reached, or a player can no longer catch up.
    pub open spec fn over(self) -> bool {
        ||| self.all_remaining_saved()
        ||| self.game_turn >= LAST_TURN
        ||| self.max_score(0) < self.players[1].points
        ||| self.max_score(1) < self.players[0].points
    }
}


impl GameView {
    /// Drone `d` of player `p` reports: each kind the drone carries that `p`
    /// has not saved yet gets this turn as its saving turn and one more count
    /// of scanned fish, and a first-to-save claim for it is registered (or a
    /// pending one, made by the other player this turn, cancelled) while
    /// nobody holds it yet; then the drone's scans join the saved ones and the
    /// drone keeps none.
    pub open spec fn report_drone(self, p: int, d: int) -> GameView {
        let pl = self.players[p];
        let dr = pl.drones[d];
        let carried = scan_count(dr.scans);
        GameView {
            players: self.players.update(
                p,
                PlayerView {
                    drones: pl.drones.update(d, DroneView { scans: no_scans(), ..dr }),
                    scans: merged(pl.scans, dr.scans),
                    count_fish_saved: if carried > 0 {
                        pl.count_fish_saved.push(carried as i32)
                    } else {
                        pl.count_fish_saved
                    },
                    ..pl
                },
            ),
            first_to_scan_temp: Seq::new(
                CREATURE_KINDS as nat,
                |k: int|
                    if dr.scans[k] is Some && pl.scans[k] is None && self.first_to_scan[k] is None {
                        toggled(self.first_to_scan_temp[k], p)
                    } else {
                        self.first_to_scan_temp[k]
                    },
            ),
            turn_saved_fish: self.turn_saved_fish.update(
                p,
                Seq::new(
                    CREATURE_KINDS as nat,
                    |k: int|
                        if dr.scans[k] is Some && pl.scans[k] is None {
                            self.game_turn
                        } else {
                            self.turn_saved_fish[p][k]
                        },
                ),
            ),
            fish_scanned: (self.fish_scanned + fresh_count(pl.scans, dr.scans)) as i32,
            ..self
        }
    }

    /// Drone `d` of player `p` carries a kind that `p` has not saved.
    pub open spec fn saves_new(self, p: int, d: int) -> bool {
        exists|k: int|
            0 <= k < CREATURE_KINDS && self.players[p].drones[d].scans[k] is Some && self.players[p].scans[k] is None
    }

    pub open spec fn mark_reported(self, p: int, d: int) -> GameView {
        let pl = self.players[p];
        GameView {
            players: self.players.update(
                p,
                PlayerView { drones: pl.drones.update(d, DroneView { did_report: true, ..pl.drones[d] }), ..pl },
            ),
            ..self
        }
    }

    /// The first `n` drones of player `p` report in turn; dead or dying ones
    /// do not, and one that saves something new is marked as having reported.
    pub open spec fn report_drones(self, p: int, n: int) -> GameView
        decreases n,
    {
        if n <= 0 {
            self
        } else {
            let g = self.report_drones(p, n - 1);
            let dr = g.players[p].drones[n - 1];
            if dr.dying || dr.dead {
                g
            } else if g.saves_new(p, n - 1) {
                g.report_drone(p, n - 1).mark_reported(p, n - 1)
            } else {
                g.report_drone(p, n - 1)
            }
        }
    }

    /// The first `n` drones of player `p` all report in turn.
    pub open spec fn report_every_drone(self, p: int, n: int) -> GameView
        decreases n,
    {
        if n <= 0 {
            self
        } else {
            self.report_every_drone(p, n - 1).report_drone(p, n - 1)
        }
    }

    /// Player `p` claims the combos it has completed that nobody holds yet
    /// (a second claim in the same turn cancels the first).
    pub open spec fn detect_combos(self, p: int) -> GameView {
        GameView {
            first_to_scan_all_fish_of_type_temp: Seq::new(
                FISH_TYPES as nat,
                |t: int|
                    if self.first_to_scan_all_fish_of_type[t] is None && self.all_of_type(p, t) {
                        toggled(self.first_to_scan_all_fish_of_type_temp[t], p)
                    } else {
                        self.first_to_scan_all_fish_of_type_temp[t]
                    },
            ),
            first_to_scan_all_fish_of_color_temp: Seq::new(
                COLORS_PER_FISH as nat,
                |c: int|
                    if self.first_to_scan_all_fish_of_color[c] is None && self.all_of_color(p, c) {
                        toggled(self.first_to_scan_all_fish_of_color_temp[c], p)
                    } else {
                        self.first_to_scan_all_fish_of_color_temp[c]
                    },
            ),
            ..self
        }
    }

    /// Pending claims become permanent where nobody holds the bonus yet, and
    /// the pending tables are emptied.
    pub open spec fn persisted(self) -> GameView {
        GameView {
            first_to_scan: Seq::new(
                CREATURE_KINDS as nat,
                |k: int| settled(self.first_to_scan[k], self.first_to_scan_temp[k]),
            ),
            first_to_scan_temp: no_scans(),
            first_to_scan_all_fish_of_type: Seq::new(
                FISH_TYPES as nat,
                |t: int| settled(self.first_to_scan_all_fish_of_type[t], self.first_to_scan_all_fish_of_type_temp[t]),
            ),
            first_to_scan_all_fish_of_type_temp: Seq::new(FISH_TYPES as nat, |t: int| None),
            first_to_scan_all_fish_of_color: Seq::new(
                COLORS_PER_FISH as nat,
                |c: int| settled(self.first_to_scan_all_fish_of_color[c], self.first_to_scan_all_fish_of_color_temp[c]),
            ),
            first_to_scan_all_fish_of_color_temp: Seq::new(COLORS_PER_FISH as nat, |c: int| None),
            ..self
        }
    }

    /// Each player's points become its score.
    pub open spec fn with_points(self) -> GameView {
        GameView {
            players: Seq::new(
                self.players.len(),
                |i: int| PlayerView { points: self.score(i) as i32, ..self.players[i] },
            ),
            ..self
        }
    }

    /// Players `0..n` report in turn: each one's live drones report, then
    /// its combos are claimed.
    pub open spec fn reported_upto(self, n: int) -> GameView
        decreases n,
    {
        if n <= 0 {
            self
        } else {
            let h = self.reported_upto(n - 1);
            h.report_drones(n - 1, h.players[n - 1].drones.len() as int).detect_combos(n - 1)
        }
    }

    /// End-of-turn report: each player's live drones report, then its combos
    /// are claimed; claims are settled and points recomputed.
    pub open spec fn reported(self) -> GameView {
        self.reported_upto(PLAYERS as int).persisted().with_points()
    }

    /// Players `0..n` report in turn at the end of the game: all their drones
    /// report, then their combos are claimed.
    pub open spec fn final_reports_upto(self, n: int) -> GameView
        decreases n,
    {
        if n <= 0 {
            self
        } else {
            let h = self.final_reports_upto(n - 1);
            h.report_every_drone(n - 1, h.players[n - 1].drones.len() as int).detect_combos(n - 1)
        }
    }

    /// End-of-game scoring: every drone of each player reports, then its
    /// combos are claimed; claims are settled and points recomputed.
    pub open spec fn scored_on_end(self) -> GameView {
        self.final_reports_upto(PLAYERS as int).persisted().with_points()
    }
}

// ---------------------------------------------------------------------------
// Bounds on the sums
// ---------------------------------------------------------------------------

impl GameView {
    pub(crate) proof fn lemma_score_bounds(self, p: int, n: int)
        ensures
            0 <= self.scan_points_upto(p, n) <= 6 * (if n < 0 { 0 } else { n }),
            0 <= self.type_points_upto(p, n) <= 8 * (if n < 0 { 0 } else { n }),
            0 <= self.color_points_upto(p, n) <= 6 * (if n < 0 { 0 } else { n }),
            0 <= self.scan_potential_upto(p, n) <= 6 * (if n < 0 { 0 } else { n }),
            0 <= self.type_potential_upto(p, n) <= 8 * (if n < 0 { 0 } else { n }),
            0 <= self.color_potential_upto(p, n) <= 6 * (if n < 0 { 0 } else { n }),
        decreases n,
    {
        if n > 0 {
            self.lemma_score_bounds(p, n - 1);
        }
    }
}



// ---------------------------------------------------------------------------
// Laws
// ---------------------------------------------------------------------------

/// A turn of batteries keeps a battery between empty and full: a drone
/// lights only with at least `LIGHT_BATTERY_COST` units, and recharging stops
/// at full.
pub proof fn battery_stays_in_range(d: DroneView)
    requires
        0 <= d.battery <= crate::drone::FULL_BATTERY,
    ensures
        0 <= battery_turn(d).battery <= crate::drone::FULL_BATTERY,
        battery_turn(d).light_on ==> d.battery >= LIGHT_BATTERY_COST,
{
}

impl GameView {
    /// A player's score never exceeds the highest score it can still reach.
    pub proof fn score_at_most_max_score(self, p: int)
        ensures
            self.score(p) <= self.max_score(p),
    {
        self.lemma_score_bounds(p, CREATURE_KINDS as int);
        self.lemma_score_bounds(p, FISH_TYPES as int);
        self.lemma_score_bounds(p, COLORS_PER_FISH as int);
    }

    /// When both players complete the same fish type or color in the same
    /// turn, and nobody held or claimed it before, neither gets the
    /// first-to-complete bonus.
    pub proof fn simultaneous_combos_cancel(self, t: int, c: int)
        requires
            0 <= t < FISH_TYPES,
            0 <= c < COLORS_PER_FISH,
            self.players.len() == PLAYERS,
            self.first_to_scan_all_fish_of_type[t] is None,
            self.first_to_scan_all_fish_of_type_temp[t] is None,
            self.first_to_scan_all_fish_of_color[c] is None,
            self.first_to_scan_all_fish_of_color_temp[c] is None,
            self.all_of_type(0, t),
            self.all_of_type(1, t),
            self.all_of_color(0, c),
            self.all_of_color(1, c),
        ensures
            self.detect_combos(0).detect_combos(1).persisted().first_to_scan_all_fish_of_type[t] is None,
            self.detect_combos(0).detect_combos(1).persisted().first_to_scan_all_fish_of_color[c] is None,
    {
        let g = self.detect_combos(0);
        assert(g.players == self.players);
        assert(g.all_of_type(1, t));
        assert(g.all_of_color(1, c));
    }

    /// The first player to report a kind nobody holds or claims becomes,
    /// once claims are settled, the first to have saved it; the kind's saving
    /// turn is the current turn.
    pub proof fn first_report_claims(self, p: int, d: int, k: int)
        requires
            self.wf(),
            0 <= p < PLAYERS,
            0 <= d < self.players[p].drones.len(),
            0 <= k < CREATURE_KINDS,
            self.players[p].drones[d].scans[k] is Some,
            self.players[p].scans[k] is None,
            self.first_to_scan[k] is None,
            self.first_to_scan_temp[k] is None,
        ensures
            self.report_drone(p, d).persisted().first_to_scan[k] == Some(p as i32),
            self.report_drone(p, d).turn_saved_fish[p][k] == self.game_turn,
            self.report_drone(p, d).saved(p, k),
    {
    }

    /// When both players report the same kind in the same turn, and nobody
    /// held or claimed it before, neither gets the first-to-save bonus.
    pub proof fn simultaneous_saves_cancel(self, d0: int, d1: int, k: int)
        requires
            self.wf(),
            0 <= d0 < self.players[0].drones.len(),
            0 <= d1 < self.players[1].drones.len(),
            0 <= k < CREATURE_KINDS,
            self.players[0].drones[d0].scans[k] is Some,
            self.players[1].drones[d1].scans[k] is Some,
            self.players[0].scans[k] is None,
            self.players[1].scans[k] is None,
            self.first_to_scan[k] is None,
            self.first_to_scan_temp[k] is None,
        ensures
            self.report_drone(0, d0).report_drone(1, d1).persisted().first_to_scan[k] is None,
    {
        let g = self.report_drone(0, d0);
        assert(g.players[1] == self.players[1]);
    }

    /// Reporting a kind the player has already saved changes neither its
    /// claim nor its saving turn, so a player's own drones never cancel each
    /// other's claims.
    pub proof fn saved_kind_report_keeps_claim(self, p: int, d: int, k: int)
        requires
            self.wf(),
            0 <= p < PLAYERS,
            0 <= d < self.players[p].drones.len(),
            0 <= k < CREATURE_KINDS,
            self.players[p].scans[k] is Some,
        ensures
            self.report_drone(p, d).first_to_scan_temp[k] == self.first_to_scan_temp[k],
            self.report_drone(p, d).turn_saved_fish[p][k] == self.turn_saved_fish[p][k],
    {
    }

    pub(crate) proof fn lemma_report_drone_keeps(self, p: int, d: int)
        requires
            self.wf(),
            0 <= p < PLAYERS,
            0 <= d < self.players[p].drones.len(),
        ensures
            self.report_drone(p, d).first_to_scan == self.first_to_scan,
            self.report_drone(p, d).first_to_scan_all_fish_of_type == self.first_to_scan_all_fish_of_type,
            self.report_drone(p, d).first_to_scan_all_fish_of_color == self.first_to_scan_all_fish_of_color,
            forall|q: int, k: int| 0 <= q < PLAYERS && 0 <= k < CREATURE_KINDS && #[trigger] self.saved(q, k) ==> self.report_drone(p, d).saved(q, k),
            self.report_drone(p, d).wf(),
            self.report_drone(p, d).players[p].drones.len() == self.players[p].drones.len(),
            self.report_drone(p, d).players[1 - p] == self.players[1 - p],
    {
        let r = self.report_drone(p, d);
        assert forall|q: int| 0 <= q < PLAYERS implies (#[trigger] r.players[q]).wf() && r.players[q].index == q by {
            if q == p {
                assert forall|e: int| 0 <= e < r.players[q].drones.len() implies (#[trigger] r.players[q].drones[e]).scans.len() == CREATURE_KINDS by {
                    if e != d {
                        assert(r.players[q].drones[e] == self.players[q].drones[e]);
                    }
                }
            }
        }
        assert forall|q: int| 0 <= q < PLAYERS implies (#[trigger] r.turn_saved_fish[q]).len() == CREATURE_KINDS by {
        }
    }

    pub(crate) proof fn lemma_report_drones_keeps(self, p: int, n: int)
        requires
            self.wf(),
            0 <= p < PLAYERS,
            0 <= n <= self.players[p].drones.len(),
        ensures
            self.report_drones(p, n).first_to_scan == self.first_to_scan,
            self.report_drones(p, n).first_to_scan_all_fish_of_type == self.first_to_scan_all_fish_of_type,
            self.report_drones(p, n).first_to_scan_all_fish_of_color == self.first_to_scan_all_fish_of_color,
            forall|q: int, k: int| 0 <= q < PLAYERS && 0 <= k < CREATURE_KINDS && #[trigger] self.saved(q, k) ==> self.report_drones(p, n).saved(q, k),
            self.report_drones(p, n).wf(),
            self.report_drones(p, n).players[p].drones.len() == self.players[p].drones.len(),
            self.report_drones(p, n).players[1 - p] == self.players[1 - p],
        decreases n,
    {
        if n > 0 {
            self.lemma_report_drones_keeps(p, n - 1);
            let g = self.report_drones(p, n - 1);
            g.lemma_report_drone_keeps(p, n - 1);
            let h = g.report_drone(p, n - 1);
            if !(g.players[p].drones[n - 1].dying || g.players[p].drones[n - 1].dead) && g.saves_new(p, n - 1) {
                let m = h.mark_reported(p, n - 1);
                assert(forall|q: int, k: int| 0 <= q < PLAYERS && 0 <= k < CREATURE_KINDS ==> (m.saved(q, k) == h.saved(q, k)));
                assert forall|q: int| 0 <= q < PLAYERS implies (#[trigger] m.players[q]).wf() && m.players[q].index == q by {
                    if q == p {
                        assert forall|e: int| 0 <= e < m.players[q].drones.len() implies (#[trigger] m.players[q].drones[e]).scans.len() == CREATURE_KINDS by {
                            assert(h.players[q].drones[e].scans.len() == CREATURE_KINDS);
                        }
                    }
                }
            }
        }
    }

    proof fn lemma_reported_upto_keeps(self, n: int)
        requires
            self.wf(),
            0 <= n <= PLAYERS,
        ensures
            self.reported_upto(n).first_to_scan == self.first_to_scan,
            self.reported_upto(n).first_to_scan_all_fish_of_type == self.first_to_scan_all_fish_of_type,
            self.reported_upto(n).first_to_scan_all_fish_of_color == self.first_to_scan_all_fish_of_color,
            forall|q: int, k: int| 0 <= q < PLAYERS && 0 <= k < CREATURE_KINDS && #[trigger] self.saved(q, k) ==> self.reported_upto(n).saved(q, k),
            self.reported_upto(n).wf(),
        decreases n,
    {
        if n > 0 {
            self.lemma_reported_upto_keeps(n - 1);
            let h = self.reported_upto(n - 1);
            h.lemma_report_drones_keeps(n - 1, h.players[n - 1].drones.len() as int);
            let r = h.report_drones(n - 1, h.players[n - 1].drones.len() as int);
            let dc = r.detect_combos(n - 1);
            assert(dc.players == r.players);
            assert(forall|q: int, k: int| 0 <= q < PLAYERS && 0 <= k < CREATURE_KINDS ==> (dc.saved(q, k) == r.saved(q, k)));
        }
    }

    proof fn lemma_report_every_drone_turn(self, p: int, n: int)
        ensures
            self.report_every_drone(p, n).game_turn == self.game_turn,
        decreases n,
    {
        if n > 0 {
            self.lemma_report_every_drone_turn(p, n - 1);
        }
    }

    proof fn lemma_final_reports_turn(self, n: int)
        ensures
            self.final_reports_upto(n).game_turn == self.game_turn,
        decreases n,
    {
        if n > 0 {
            self.lemma_final_reports_turn(n - 1);
            let h = self.final_reports_upto(n - 1);
            h.lemma_report_every_drone_turn(n - 1, h.players[n - 1].drones.len() as int);
        }
    }

    /// A first-to-save or first-to-complete bonus, once held, stays with its
    /// holder through a turn's report, and every scan saved before the report
    /// is still saved after it.
    pub proof fn report_keeps_bonuses_and_saved_scans(self)
        requires
            self.wf(),
        ensures
            forall|k: int| 0 <= k < CREATURE_KINDS && (#[trigger] self.first_to_scan[k]) is Some ==> self.reported().first_to_scan[k] == self.first_to_scan[k],
            forall|t: int| 0 <= t < FISH_TYPES && (#[trigger] self.first_to_scan_all_fish_of_type[t]) is Some ==> self.reported().first_to_scan_all_fish_of_type[t] == self.first_to_scan_all_fish_of_type[t],
            forall|c: int| 0 <= c < COLORS_PER_FISH && (#[trigger] self.first_to_scan_all_fish_of_color[c]) is Some ==> self.reported().first_to_scan_all_fish_of_color[c] == self.first_to_scan_all_fish_of_color[c],
            forall|q: int, k: int| 0 <= q < PLAYERS && 0 <= k < CREATURE_KINDS && #[trigger] self.saved(q, k) ==> self.reported().saved(q, k),
    {
        self.lemma_reported_upto_keeps(PLAYERS as int);
        let r = self.reported_upto(PLAYERS as int);
        let s = r.persisted();
        assert(forall|q: int, k: int| 0 <= q < PLAYERS && 0 <= k < CREATURE_KINDS ==> (s.saved(q, k) == r.saved(q, k)));
        assert(forall|q: int, k: int| 0 <= q < PLAYERS && 0 <= k < CREATURE_KINDS ==> (s.with_points().saved(q, k) == s.saved(q, k)));
    }
}

// ---------------------------------------------------------------------------
// Executable helpers
// ---------------------------------------------------------------------------

/// Number of filled slots.
fn count_scans(s: &Vec<Option<i32>>) -> (r: usize)
    ensures
        r == scan_count(s@),
{
    let mut r: usize = 0;
    let mut i: usize = 0;
    while i < s.len()
        invariant
            i <= s@.len(),
            r == scan_count(s@.take(i as int)),
            r <= i,
        decreases s@.len() - i,
    {
        assert(s@.take(i + 1).drop_last() =~= s@.take(i as int));
        if s[i].is_some() {
            r = r + 1;
        }
        i = i + 1;
    }
    assert(s@.take(s@.len() as int) =~= s@);
    r
}

/// Adds `x` to `s` unless it is already there.
/// Whether `x` is listed in `s`.
fn id_listed(s: &Vec<i32>, x: i32) -> (r: bool)
    ensures
        r == s@.contains(x),
{
    let mut i: usize = 0;
    while i < s.len()
        invariant
            i <= s@.len(),
            forall|j: int| 0 <= j < i ==> s@[j] != x,
        decreases s@.len() - i,
    {
        if s[i] == x {
            assert(s@[i as int] == x);
            return true;
        }
        i = i + 1;
    }
    false
}

fn insert_id(s: &mut Vec<i32>, x: i32)
    ensures
        final(s)@ == with_member(old(s)@, x),
{
    let mut i: usize = 0;
    while i < s.len()
        invariant
            i <= s@.len(),
            s@ == old(s)@,
            forall|j: int| 0 <= j < i ==> s@[j] != x,
        decreases s@.len() - i,
    {
        if s[i] == x {
            assert(s@.contains(x));
            return;
        }
        i = i + 1;
    }
    assert(!s@.contains(x));
    s.push(x);
}

/// `n` copies of `v`.
fn filled<T: Copy>(n: usize, v: T) -> (r: Vec<T>)
    ensures
        r@ == Seq::new(n as nat, |i: int| v),
{
    let mut r: Vec<T> = Vec::new();
    let mut i: usize = 0;
    while i < n
        invariant
            i <= n,
            r@ == Seq::new(i as nat, |j: int| v),
        decreases n - i,
    {
        r.push(v);
        i = i + 1;
        assert(r@ =~= Seq::new(i as nat, |j: int| v));
    }
    r
}

/// Makes pending claims permanent where nothing is held yet, empties the
/// pending claims, and lists them as (player, slot).
fn settle_claims(first: &mut Vec<Option<i32>>, pending: &mut Vec<Option<i32>>) -> (awarded: Vec<(i32, i32)>)
    requires
        old(first)@.len() == old(pending)@.len(),
        old(pending)@.len() <= i32::MAX,
    ensures
        final(first)@ == Seq::new(old(first)@.len(), |k: int| settled(old(first)@[k], old(pending)@[k])),
        final(pending)@ == Seq::new(old(pending)@.len(), |k: int| None::<i32>),
        awarded@ == pending_list(old(pending)@, old(pending)@.len() as int),
{
    let ghost first0 = first@;
    let ghost pending0 = pending@;
    let n = pending.len();
    let mut awarded: Vec<(i32, i32)> = Vec::new();
    let mut k: usize = 0;
    while k < n
        invariant
            n == pending0.len(),
            n == first0.len(),
            n <= i32::MAX,
            k <= n,
            first@.len() == n,
            pending@.len() == n,
            forall|i: int| 0 <= i < n ==> #[trigger] first@[i] == if i < k {
                settled(first0[i], pending0[i])
            } else {
                first0[i]
            },
            forall|i: int| 0 <= i < n ==> #[trigger] pending@[i] == if i < k { None } else { pending0[i] },
            awarded@ == pending_list(pending0, k as int),
        decreases n - k,
    {
        match pending[k] {
            Some(player_index) => {
                if first[k].is_none() {
                    first.set(k, Some(player_index));
                }
                awarded.push((player_index, k as i32));
            },
            None => {},
        }
        pending.set(k, None);
        k = k + 1;
    }
    assert(first@ =~= Seq::new(n as nat, |k: int| settled(first0[k], pending0[k])));
    assert(pending@ =~= Seq::new(n as nat, |k: int| None::<i32>));
    awarded
}

// ---------------------------------------------------------------------------
// Executable code
// ---------------------------------------------------------------------------

impl Player {
    pub fn get_index(&self) -> (r: i32)
        ensures
            r == self.index,
    {
        self.index
    }
}


impl Player {
    /// Drone `drone_index` scans, in order, the fish of `fishes` listed in
    /// `in_range`; each is also shown to the player.
    fn scan_with_drone(&mut self, drone_index: usize, fishes: &Vec<Fish>, in_range: &Vec<usize>)
        requires
            old(self).wf(),
            drone_index < old(self).drones@.len(),
            forall|j: int| 0 <= j < in_range@.len() ==> (#[trigger] in_range@[j]) < fishes@.len(),
            forall|i: int| 0 <= i < fishes@.len() ==> {
                &&& 0 <= (#[trigger] fishes@[i]).color < COLORS_PER_FISH
                &&& 0 <= fishes@[i].fish_type < FISH_TYPES
            },
        ensures
            final(self).wf(),
            final(self)@ == (PlayerView {
                drones: old(self)@.drones.update(
                    drone_index as int,
                    scan_fishes(old(self)@.drones[drone_index as int], old(self)@.scans, fishes@, in_range@, in_range@.len() as int),
                ),
                visible_fishes: with_members(old(self)@.visible_fishes, fishes@, in_range@, in_range@.len() as int),
                ..old(self)@
            }),
    {
        let ghost p0 = self@;
        let ghost d = drone_index as int;
        assert(p0.drones.update(d, p0.drones[d]) =~= p0.drones);
        let mut j: usize = 0;
        while j < in_range.len()
            invariant
                self.wf(),
                self.drones@.len() == p0.drones.len(),
                d == drone_index as int,
                drone_index < p0.drones.len(),
                j <= in_range@.len(),
                forall|j: int| 0 <= j < in_range@.len() ==> (#[trigger] in_range@[j]) < fishes@.len(),
                forall|i: int| 0 <= i < fishes@.len() ==> {
                    &&& 0 <= (#[trigger] fishes@[i]).color < COLORS_PER_FISH
                    &&& 0 <= fishes@[i].fish_type < FISH_TYPES
                },
                p0.scans.len() == CREATURE_KINDS,
                self@ == (PlayerView {
                    drones: p0.drones.update(d, scan_fishes(p0.drones[d], p0.scans, fishes@, in_range@, j as int)),
                    visible_fishes: with_members(p0.visible_fishes, fishes@, in_range@, j as int),
                    ..p0
                }),
            decreases in_range@.len() - j,
        {
            let ghost before = self@;
            let fish = fishes[in_range[j]];
            assert(in_range@[j as int] < fishes@.len());
            assert(fish == fishes@[in_range@[j as int] as int]);
            assert(0 <= fish.color < COLORS_PER_FISH && 0 <= fish.fish_type < FISH_TYPES);
            insert_id(&mut self.visible_fishes, fish.id);
            let k = (fish.color * FISH_TYPES + fish.fish_type) as usize;
            assert(k as int == kind(fish.color as int, fish.fish_type as int));
            let ghost dr0 = before.drones[d];
            assert(dr0 == scan_fishes(p0.drones[d], p0.scans, fishes@, in_range@, j as int));
            assert(self.drones@[d].scans@.len() == CREATURE_KINDS);
            proof {
                lemma_scan_count_bound(self.drones@[d].scans@);
            }
            assert(scan_count(self.drones@[d].scans@) < DRONE_MAX_SCANS as usize);
            if count_scans(&self.drones[drone_index].scans) < DRONE_MAX_SCANS as usize {
                if self.scans[k].is_none() {
                    if self.drones[drone_index].scans[k].is_none() {
                        self.drones[drone_index].scans.set(k, Some(fish.id));
                        insert_id(&mut self.drones[drone_index].fishes_scanned_this_turn, fish.id);
                    }
                }
            }
            proof {
                let want = scan_fishes(p0.drones[d], p0.scans, fishes@, in_range@, j + 1);
                assert(self@.drones[d] == want);
                assert forall|e: int| 0 <= e < p0.drones.len() && e != d implies self@.drones[e] == p0.drones[e] by {
                    assert(self.drones@[e]@ == before.drones[e]);
                }
                assert(self@.drones =~= p0.drones.update(d, want));
                assert forall|e: int| 0 <= e < self.drones@.len() implies (#[trigger] self.drones@[e]).scans@.len() == CREATURE_KINDS by {
                    if e != d {
                        assert(self.drones@[e]@ == before.drones[e]);
                    }
                }
            }
            j = j + 1;
        }
    }
}


impl Game {
    /// The rules state of a new game: two players with two drones each,
    /// twelve creatures, first turn (see `initial_game`).
    pub fn new() -> (g: Game)
        ensures
            g.wf(),
            g@ == initial_game(),
    {
        let mut entity_count: i32 = 0;
        let mut players: Vec<Player> = Vec::new();
        let mut i: usize = 0;
        while i < PLAYERS
            invariant
                i <= PLAYERS,
                players@.len() == i,
                forall|q: int| 0 <= q < i ==> (#[trigger] players@[q]).index == q && players@[q].drones@.len() == 0
                    && players@[q].scans@ == no_scans() && players@[q].count_fish_saved@.len() == 0
                    && players@[q].points == 0 && players@[q].visible_fishes@.len() == 0,
            decreases PLAYERS - i,
        {
            players.push(Player {
                index: i as i32,
                drones: Vec::new(),
                scans: filled(CREATURE_KINDS, None),
                count_fish_saved: Vec::new(),
                points: 0,
                visible_fishes: Vec::new(),
            });
            i = i + 1;
        }
        // drones, numbered in turn for each player
        let mut round: usize = 0;
        while round < DRONES_PER_PLAYER
            invariant
                round <= DRONES_PER_PLAYER,
                entity_count == PLAYERS * round,
                players@.len() == PLAYERS,
                forall|q: int| 0 <= q < PLAYERS ==> (#[trigger] players@[q]).index == q && players@[q].drones@.len() == round
                    && players@[q].scans@ == no_scans() && players@[q].count_fish_saved@.len() == 0
                    && players@[q].points == 0 && players@[q].visible_fishes@.len() == 0
                    && forall|e: int| 0 <= e < round ==> (#[trigger] players@[q].drones@[e])@ == fresh_drone((PLAYERS * e + q) as i32),
            decreases DRONES_PER_PLAYER - round,
        {
            let mut player_index: usize = 0;
            while player_index < PLAYERS
                invariant
                    round < DRONES_PER_PLAYER,
                    player_index <= PLAYERS,
                    entity_count == PLAYERS * round + player_index,
                    players@.len() == PLAYERS,
                    forall|q: int| 0 <= q < PLAYERS ==> (#[trigger] players@[q]).index == q
                        && players@[q].drones@.len() == (if q < player_index { round + 1 } else { round as int })
                        && players@[q].scans@ == no_scans() && players@[q].count_fish_saved@.len() == 0
                        && players@[q].points == 0 && players@[q].visible_fishes@.len() == 0
                        && forall|e: int| 0 <= e < players@[q].drones@.len() ==> (#[trigger] players@[q].drones@[e])@ == fresh_drone((PLAYERS * e + q) as i32),
                decreases PLAYERS - player_index,
            {
                let ghost players0 = players@;
                let drone = Drone::new(entity_count);
                players[player_index].drones.push(drone);
                entity_count = entity_count + 1;
                assert forall|q: int| 0 <= q < PLAYERS && q != player_index implies #[trigger] players@[q] == players0[q] by {}
                player_index = player_index + 1;
            }
            round = round + 1;
        }
        // creatures: a mirrored pair for each even color and fish type
        let mut fishes: Vec<Fish> = Vec::new();
        let mut col: i32 = 0;
        while col < COLORS_PER_FISH
            invariant
                0 <= col <= COLORS_PER_FISH,
                col % 2 == 0,
                entity_count == 4 + 3 * col,
                fishes@ == initial_fishes().take(3 * col),
            decreases COLORS_PER_FISH - col,
        {
            let mut type_idx: i32 = 0;
            while type_idx < FISH_TYPES
                invariant
                    0 <= col < COLORS_PER_FISH,
                    col % 2 == 0,
                    0 <= type_idx <= FISH_TYPES,
                    entity_count == 4 + 3 * col + 2 * type_idx,
                    fishes@ == initial_fishes().take(3 * col + 2 * type_idx),
                decreases FISH_TYPES - type_idx,
            {
                let f = Fish { id: entity_count, color: col, fish_type: type_idx };
                entity_count = entity_count + 1;
                let o = Fish { id: entity_count, color: col + 1, fish_type: type_idx };
                fishes.push(o);
                fishes.push(f);
                entity_count = entity_count + 1;
                assert(fishes@ =~= initial_fishes().take(3 * col + 2 * type_idx + 2));
                type_idx = type_idx + 1;
            }
            col = col + 2;
        }
        assert(fishes@ =~= initial_fishes());
        let mut game = Game {
            players,
            fishes,
            first_to_scan: filled(CREATURE_KINDS, None),
            first_to_scan_temp: filled(CREATURE_KINDS, None),
            first_to_scan_all_fish_of_color: filled(COLORS_PER_FISH as usize, None),
            first_to_scan_all_fish_of_color_temp: filled(COLORS_PER_FISH as usize, None),
            first_to_scan_all_fish_of_type: filled(FISH_TYPES as usize, None),
            first_to_scan_all_fish_of_type_temp: filled(FISH_TYPES as usize, None),
            game_turn: 1,
            turn_saved_fish: Vec::new(),
            fish_scanned: 0,
        };
        game.turn_saved_fish.push(filled(CREATURE_KINDS, -1));
        game.turn_saved_fish.push(filled(CREATURE_KINDS, -1));
        assert(game@.turn_saved_fish =~= initial_game().turn_saved_fish);
        let ghost before = game@;
        // every player is shown every creature
        let mut player_index: usize = 0;
        while player_index < PLAYERS
            invariant
                player_index <= PLAYERS,
                game@ == (GameView { players: game@.players, ..before }),
                before.turn_saved_fish == initial_game().turn_saved_fish,
                game.players@.len() == PLAYERS,
                game.fishes@ == initial_fishes(),
                forall|q: int| 0 <= q < PLAYERS ==> (#[trigger] game.players@[q]).index == q
                    && game.players@[q].drones@.len() == DRONES_PER_PLAYER
                    && game.players@[q].scans@ == no_scans() && game.players@[q].count_fish_saved@.len() == 0
                    && game.players@[q].points == 0
                    && game.players@[q].visible_fishes@ == (if q < player_index { fish_ids(initial_fishes()) } else { Seq::<i32>::empty() })
                    && forall|e: int| 0 <= e < DRONES_PER_PLAYER ==> (#[trigger] game.players@[q].drones@[e])@ == fresh_drone((PLAYERS * e + q) as i32),
            decreases PLAYERS - player_index,
        {
            let ghost players0 = game.players@;
            let ids = game.fish_id_list();
            game.players[player_index].visible_fishes = ids;
            assert forall|q: int| 0 <= q < PLAYERS && q != player_index implies #[trigger] game.players@[q] == players0[q] by {}
            player_index = player_index + 1;
        }
        proof {
            let want = initial_game();
            assert forall|q: int| 0 <= q < PLAYERS implies #[trigger] game@.players[q] == want.players[q] by {
                assert(game@.players[q].drones =~= want.players[q].drones);
                assert(game@.players[q].count_fish_saved =~= want.players[q].count_fish_saved);
            }
            assert(game@.players =~= want.players);
            assert(game@ =~= want);
        }
        game
    }
}

impl Game {
    pub fn player_scanned_scan(&self, player_index: usize, k: usize) -> (r: bool)
        requires
            self.wf(),
            player_index < PLAYERS,
            k < CREATURE_KINDS,
        ensures
            r == self@.saved(player_index as int, k as int),
    {
        self.players[player_index].scans[k].is_some()
    }

    pub fn player_scanned(&self, player_index: usize, fish: &Fish) -> (r: bool)
        requires
            self.wf(),
            player_index < PLAYERS,
            0 <= fish.color < COLORS_PER_FISH,
            0 <= fish.fish_type < FISH_TYPES,
        ensures
            r == self@.saved(player_index as int, kind(fish.color as int, fish.fish_type as int)),
    {
        self.player_scanned_scan(player_index, (fish.color * FISH_TYPES + fish.fish_type) as usize)
    }

    pub fn has_scanned_all_remaining_fish(&self, player_index: usize) -> (r: bool)
        requires
            self.wf(),
            player_index < PLAYERS,
        ensures
            r == self@.saved_all_remaining(player_index as int),
    {
        let n = self.fishes.len();
        let mut i: usize = 0;
        while i < n
            invariant
                self.wf(),
                player_index < PLAYERS,
                n == self.fishes@.len(),
                i <= n,
                forall|j: int| 0 <= j < i ==> #[trigger] self@.saved(player_index as int, kind(self.fishes@[j].color as int, self.fishes@[j].fish_type as int)),
            decreases n - i,
        {
            if !self.player_scanned(player_index, &self.fishes[i]) {
                assert(!self@.saved(player_index as int, kind(self@.fishes[i as int].color as int, self@.fishes[i as int].fish_type as int)));
                return false;
            }
            i = i + 1;
        }
        true
    }

    pub fn has_fish_escaped(&self, k: usize) -> (r: bool)
        requires
            self.wf(),
            k < CREATURE_KINDS,
        ensures
            r == self@.escaped(k as int),
    {
        let n = self.fishes.len();
        let mut i: usize = 0;
        while i < n
            invariant
                self.wf(),
                k < CREATURE_KINDS,
                n == self.fishes@.len(),
                i <= n,
                forall|j: int| 0 <= j < i ==> kind((#[trigger] self.fishes@[j]).color as int, self.fishes@[j].fish_type as int) != k,
            decreases n - i,
        {
            let fish = &self.fishes[i];
            if fish.color * FISH_TYPES + fish.fish_type == k as i32 {
                assert(kind(self@.fishes[i as int].color as int, self@.fishes[i as int].fish_type as int) == k);
                return false;
            }
            i = i + 1;
        }
        true
    }

    pub fn is_fish_scanned_by_player_drone(&self, k: usize, player_index: usize) -> (r: bool)
        requires
            self.wf(),
            k < CREATURE_KINDS,
            player_index < PLAYERS,
        ensures
            r == self@.held_by_drone(player_index as int, k as int),
    {
        let drones = &self.players[player_index].drones;
        let n = drones.len();
        let mut d: usize = 0;
        while d < n
            invariant
                self.wf(),
                k < CREATURE_KINDS,
                player_index < PLAYERS,
                drones == &self.players@[player_index as int].drones,
                n == drones@.len(),
                d <= n,
                forall|j: int| 0 <= j < d ==> (#[trigger] drones@[j]).scans@[k as int] is None,
            decreases n - d,
        {
            assert(self.players@[player_index as int].wf());
            assert(drones@[d as int].scans@.len() == CREATURE_KINDS);
            if drones[d].scans[k].is_some() {
                assert(self@.players[player_index as int].drones[d as int].scans[k as int] is Some);
                return true;
            }
            d = d + 1;
        }
        false
    }

    pub fn player_scanned_all_fish_of_type(&self, player_index: usize, fish_type: i32) -> (r: bool)
        requires
            self.wf(),
            player_index < PLAYERS,
            0 <= fish_type < FISH_TYPES,
        ensures
            r == self@.all_of_type(player_index as int, fish_type as int),
    {
        let mut color: i32 = 0;
        while color < COLORS_PER_FISH
            invariant
                self.wf(),
                player_index < PLAYERS,
                0 <= fish_type < FISH_TYPES,
                0 <= color <= COLORS_PER_FISH,
                forall|c: int| 0 <= c < color ==> #[trigger] self@.players[player_index as int].scans[kind(c, fish_type as int)] is Some,
            decreases COLORS_PER_FISH - color,
        {
            if !self.player_scanned_scan(player_index, (color * FISH_TYPES + fish_type) as usize) {
                assert(!self@.saved(player_index as int, kind(color as int, fish_type as int)));
                return false;
            }
            color = color + 1;
        }
        true
    }

    pub fn player_scanned_all_fish_of_color(&self, player_index: usize, color: i32) -> (r: bool)
        requires
            self.wf(),
            player_index < PLAYERS,
            0 <= color < COLORS_PER_FISH,
        ensures
            r == self@.all_of_color(player_index as int, color as int),
    {
        let mut fish_type: i32 = 0;
        while fish_type < FISH_TYPES
            invariant
                self.wf(),
                player_index < PLAYERS,
                0 <= color < COLORS_PER_FISH,
                0 <= fish_type <= FISH_TYPES,
                forall|t: int| 0 <= t < fish_type ==> #[trigger] self@.players[player_index as int].scans[kind(color as int, t)] is Some,
            decreases FISH_TYPES - fish_type,
        {
            if !self.player_scanned_scan(player_index, (color * FISH_TYPES + fish_type) as usize) {
                assert(!self@.saved(player_index as int, kind(color as int, fish_type as int)));
                return false;
            }
            fish_type = fish_type + 1;
        }
        true
    }

    pub fn is_type_combo_still_possible(&self, player_index: usize, fish_type: i32) -> (r: bool)
        requires
            self.wf(),
            player_index < PLAYERS,
            0 <= fish_type < FISH_TYPES,
        ensures
            r == self@.type_combo_possible(player_index as int, fish_type as int),
    {
        if self.player_scanned_all_fish_of_type(player_index, fish_type) {
            return false;
        }
        let mut color: i32 = 0;
        while color < COLORS_PER_FISH
            invariant
                self.wf(),
                player_index < PLAYERS,
                0 <= fish_type < FISH_TYPES,
                0 <= color <= COLORS_PER_FISH,
                forall|c: int| 0 <= c < color ==> !#[trigger] self@.lost(player_index as int, kind(c, fish_type as int)),
            decreases COLORS_PER_FISH - color,
        {
            let k = (color * FISH_TYPES + fish_type) as usize;
            if self.has_fish_escaped(k) && !self.is_fish_scanned_by_player_drone(k, player_index)
                && !self.player_scanned_scan(player_index, k) {
                assert(self@.lost(player_index as int, kind(color as int, fish_type as int)));
                return false;
            }
            color = color + 1;
        }
        true
    }

    pub fn is_color_combo_still_possible(&self, player_index: usize, color: i32) -> (r: bool)
        requires
            self.wf(),
            player_index < PLAYERS,
            0 <= color < COLORS_PER_FISH,
        ensures
            r == self@.color_combo_possible(player_index as int, color as int),
    {
        if self.player_scanned_all_fish_of_color(player_index, color) {
            return false;
        }
        let mut fish_type: i32 = 0;
        while fish_type < FISH_TYPES
            invariant
                self.wf(),
                player_index < PLAYERS,
                0 <= color < COLORS_PER_FISH,
                0 <= fish_type <= FISH_TYPES,
                forall|t: int| 0 <= t < fish_type ==> !#[trigger] self@.lost(player_index as int, kind(color as int, t)),
            decreases FISH_TYPES - fish_type,
        {
            let k = (color * FISH_TYPES + fish_type) as usize;
            if self.has_fish_escaped(k) && !self.is_fish_scanned_by_player_drone(k, player_index)
                && !self.player_scanned_scan(player_index, k) {
                assert(self@.lost(player_index as int, kind(color as int, fish_type as int)));
                return false;
            }
            fish_type = fish_type + 1;
        }
        true
    }

    pub fn compute_player_score(&self, player_index: usize) -> (r: i32)
        requires
            self.wf(),
            player_index < PLAYERS,
        ensures
            r == self@.score(player_index as int),
    {
        let ghost p = player_index as int;
        let player = &self.players[player_index];
        assert(self.players@[p].wf() && self.players@[p].index == p);
        let mut total: i32 = 0;
        let mut k: usize = 0;
        while k < CREATURE_KINDS
            invariant
                self.wf(),
                player_index < PLAYERS,
                p == player_index as int,
                player == &self.players@[p],
                k <= CREATURE_KINDS,
                total == self@.scan_points_upto(p, k as int),
                0 <= total <= 6 * k,
            decreases CREATURE_KINDS - k,
        {
            if player.scans[k].is_some() {
                let fish_type = (k as i32) % FISH_TYPES;
                total = total + fish_type + 1;
                let first = match self.first_to_scan[k] {
                    Some(val) => val == player.get_index(),
                    None => false,
                };
                if first {
                    total = total + fish_type + 1;
                }
            }
            assert(self@.scan_points_upto(p, k + 1) == self@.scan_points_upto(p, k as int) + self@.scan_points(p, k as int));
            k = k + 1;
        }
        let mut fish_type: i32 = 0;
        while fish_type < FISH_TYPES
            invariant
                self.wf(),
                player_index < PLAYERS,
                p == player_index as int,
                player == &self.players@[p],
                0 <= fish_type <= FISH_TYPES,
                total == self@.scan_points_upto(p, CREATURE_KINDS as int) + self@.type_points_upto(p, fish_type as int),
                0 <= total <= 72 + 8 * fish_type,
            decreases FISH_TYPES - fish_type,
        {
            if self.player_scanned_all_fish_of_type(player.index as usize, fish_type) {
                total = total + COLORS_PER_FISH;
            }
            let first = match self.first_to_scan_all_fish_of_type[fish_type as usize] {
                Some(val) => val == player.get_index(),
                None => false,
            };
            if first {
                total = total + COLORS_PER_FISH;
            }
            assert(self@.type_points_upto(p, fish_type + 1) == self@.type_points_upto(p, fish_type as int) + self@.type_points(p, fish_type as int));
            fish_type = fish_type + 1;
        }
        let mut color: i32 = 0;
        while color < COLORS_PER_FISH
            invariant
                self.wf(),
                player_index < PLAYERS,
                p == player_index as int,
                player == &self.players@[p],
                0 <= color <= COLORS_PER_FISH,
                total == self@.scan_points_upto(p, CREATURE_KINDS as int) + self@.type_points_upto(p, FISH_TYPES as int)
                    + self@.color_points_upto(p, color as int),
                0 <= total <= 96 + 6 * color,
            decreases COLORS_PER_FISH - color,
        {
            if self.player_scanned_all_fish_of_color(player_index, color) {
                total = total + FISH_TYPES;
            }
            let first = match self.first_to_scan_all_fish_of_color[color as usize] {
                Some(val) => val == player_index as i32,
                None => false,
            };
            if first {
                total = total + FISH_TYPES;
            }
            assert(self@.color_points_upto(p, color + 1) == self@.color_points_upto(p, color as int) + self@.color_points(p, color as int));
            color = color + 1;
        }
        total
    }

    pub fn compute_max_player_score(&self, player_index: usize) -> (r: i32)
        requires
            self.wf(),
            player_index < PLAYERS,
        ensures
            r == self@.max_score(player_index as int),
    {
        let ghost p = player_index as int;
        proof {
            self@.lemma_score_bounds(p, CREATURE_KINDS as int);
            self@.lemma_score_bounds(p, FISH_TYPES as int);
            self@.lemma_score_bounds(p, COLORS_PER_FISH as int);
        }
        let mut total = self.compute_player_score(player_index);
        let p2 = &self.players[1 - player_index];
        assert(self.players@[1 - p].index == 1 - p);
        let ghost base = total as int;
        let mut color: i32 = 0;
        while color < COLORS_PER_FISH
            invariant
                self.wf(),
                player_index < PLAYERS,
                p == player_index as int,
                base == self@.score(p),
                0 <= base <= 120,
                0 <= color <= COLORS_PER_FISH,
                total == base + self@.scan_potential_upto(p, color * FISH_TYPES),
                base <= total <= base + 6 * (color * FISH_TYPES),
            decreases COLORS_PER_FISH - color,
        {
            let mut fish_type: i32 = 0;
            while fish_type < FISH_TYPES
                invariant
                    self.wf(),
                    player_index < PLAYERS,
                    p == player_index as int,
                    base == self@.score(p),
                    0 <= base <= 120,
                    0 <= color < COLORS_PER_FISH,
                    0 <= fish_type <= FISH_TYPES,
                    total == base + self@.scan_potential_upto(p, color * FISH_TYPES + fish_type),
                    base <= total <= base + 6 * (color * FISH_TYPES + fish_type),
                decreases FISH_TYPES - fish_type,
            {
                let k = (color * FISH_TYPES + fish_type) as usize;
                if !self.player_scanned_scan(player_index, k) {
                    if self.is_fish_scanned_by_player_drone(k, player_index) || !self.has_fish_escaped(k) {
                        total = total + fish_type + 1;
                        let open = match self.first_to_scan[k] {
                            Some(val) => val == -1,
                            None => true,
                        };
                        if open {
                            total = total + fish_type + 1;
                        }
                    }
                }
                assert(kind_type(k as int) == fish_type as int);
                assert(self@.scan_potential_upto(p, k + 1) == self@.scan_potential_upto(p, k as int) + self@.scan_potential(p, k as int));
                fish_type = fish_type + 1;
            }
            color = color + 1;
        }
        let ghost base2 = total as int;
        let mut fish_type: i32 = 0;
        while fish_type < FISH_TYPES
            invariant
                self.wf(),
                player_index < PLAYERS,
                p == player_index as int,
                p2 == &self.players@[1 - p],
                base2 == self@.score(p) + self@.scan_potential_upto(p, CREATURE_KINDS as int),
                0 <= base2 <= 192,
                0 <= fish_type <= FISH_TYPES,
                total == base2 + self@.type_potential_upto(p, fish_type as int),
                base2 <= total <= base2 + 8 * fish_type,
            decreases FISH_TYPES - fish_type,
        {
            if self.is_type_combo_still_possible(player_index, fish_type) {
                total = total + COLORS_PER_FISH;
                let open = match self.first_to_scan_all_fish_of_type[fish_type as usize] {
                    Some(val) => val != p2.get_index(),
                    None => true,
                };
                if open {
                    total = total + COLORS_PER_FISH;
                }
            }
            assert(self@.type_potential_upto(p, fish_type + 1) == self@.type_potential_upto(p, fish_type as int) + self@.type_potential(p, fish_type as int));
            fish_type = fish_type + 1;
        }
        let ghost base3 = total as int;
        let mut color: i32 = 0;
        while color < COLORS_PER_FISH
            invariant
                self.wf(),
                player_index < PLAYERS,
                p == player_index as int,
                p2 == &self.players@[1 - p],
                base3 == self@.score(p) + self@.scan_potential_upto(p, CREATURE_KINDS as int)
                    + self@.type_potential_upto(p, FISH_TYPES as int),
                0 <= base3 <= 216,
                0 <= color <= COLORS_PER_FISH,
                total == base3 + self@.color_potential_upto(p, color as int),
                base3 <= total <= base3 + 6 * color,
            decreases COLORS_PER_FISH - color,
        {
            if self.is_color_combo_still_possible(player_index, color) {
                total = total + FISH_TYPES;
                let open = match self.first_to_scan_all_fish_of_color[color as usize] {
                    Some(val) => val != p2.get_index(),
                    None => true,
                };
                if open {
                    total = total + FISH_TYPES;
                }
            }
            assert(self@.color_potential_upto(p, color + 1) == self@.color_potential_upto(p, color as int) + self@.color_potential(p, color as int));
            color = color + 1;
        }
        total
    }

    pub fn both_players_have_scanned_all_remaining_fish(&self) -> (r: bool)
        requires
            self.wf(),
        ensures
            r == self@.all_remaining_saved(),
    {
        let mut i: usize = 0;
        while i < self.players.len()
            invariant
                self.wf(),
                i <= PLAYERS,
                forall|p: int| 0 <= p < i ==> #[trigger] self@.saved_all_remaining(p),
            decreases PLAYERS - i,
        {
            if !self.has_scanned_all_remaining_fish(self.players[i].index as usize) {
                return false;
            }
            i = i + 1;
        }
        true
    }

    pub fn is_game_over(&self) -> (r: bool)
        requires
            self.wf(),
        ensures
            r == self@.over(),
    {
        if self.both_players_have_scanned_all_remaining_fish() {
            true
        } else {
            self.game_turn >= LAST_TURN || self.compute_max_player_score(0) < self.players[1].points
                || self.compute_max_player_score(1) < self.players[0].points
        }
    }

    pub fn has_first_to_scan_bonus(&self, player: &Player, k: usize) -> (r: bool)
        requires
            self.wf(),
            k < CREATURE_KINDS,
        ensures
            r == (holder_of(self.first_to_scan@[k as int]) == player.index),
    {
        let holder = match self.first_to_scan[k] {
            Some(val) => val,
            None => -1,
        };
        holder == player.get_index()
    }

    pub fn has_first_to_scan_all_fish_of_type(&self, player: &Player, fish_type: i32) -> (r: bool)
        requires
            self.wf(),
            0 <= fish_type < FISH_TYPES,
        ensures
            r == (holder_of(self@.first_to_scan_all_fish_of_type[fish_type as int]) == player.index),
    {
        let holder = match self.first_to_scan_all_fish_of_type[fish_type as usize] {
            Some(val) => val,
            None => -1,
        };
        holder == player.get_index()
    }

    pub fn has_first_to_scan_all_fish_of_color(&self, player: &Player, color: i32) -> (r: bool)
        requires
            self.wf(),
            0 <= color < COLORS_PER_FISH,
        ensures
            r == (holder_of(self@.first_to_scan_all_fish_of_color[color as int]) == player.index),
    {
        let holder = match self.first_to_scan_all_fish_of_color[color as usize] {
            Some(val) => val,
            None => -1,
        };
        holder == player.get_index()
    }

    /// Player `player_index` claims the combos it has completed that nobody
    /// holds yet.
    pub fn detect_first_to_combo_bonuses(&mut self, player_index: usize)
        requires
            old(self).wf(),
            player_index < PLAYERS,
        ensures
            final(self).wf(),
            final(self)@ == old(self)@.detect_combos(player_index as int),
    {
        let ghost g = self@;
        let ghost p = player_index as int;
        proof {
            self.lemma_view_wf();
        }
        let mut fish_type: i32 = 0;
        while fish_type < FISH_TYPES
            invariant
                self.wf(),
                player_index < PLAYERS,
                p == player_index as int,
                0 <= fish_type <= FISH_TYPES,
                g.wf(),
                self@ == (GameView { first_to_scan_all_fish_of_type_temp: self@.first_to_scan_all_fish_of_type_temp, ..g }),
                forall|t: int| 0 <= t < FISH_TYPES ==> #[trigger] self@.first_to_scan_all_fish_of_type_temp[t] == if t < fish_type {
                    g.detect_combos(p).first_to_scan_all_fish_of_type_temp[t]
                } else {
                    g.first_to_scan_all_fish_of_type_temp[t]
                },
            decreases FISH_TYPES - fish_type,
        {
            let t = fish_type as usize;
            assert(t as int == fish_type as int);
            let ghost before = self@.first_to_scan_all_fish_of_type_temp;
            assert(before[t as int] == g.first_to_scan_all_fish_of_type_temp[t as int]);
            assert(g.detect_combos(p).first_to_scan_all_fish_of_type_temp[t as int] == if g.first_to_scan_all_fish_of_type[t as int] is None && g.all_of_type(p, t as int) {
                toggled(g.first_to_scan_all_fish_of_type_temp[t as int], p)
            } else {
                g.first_to_scan_all_fish_of_type_temp[t as int]
            });
            if self.first_to_scan_all_fish_of_type[t].is_none() {
                if self.player_scanned_all_fish_of_type(player_index, fish_type) {
                    if self.first_to_scan_all_fish_of_type_temp[t].is_some() {
                        self.first_to_scan_all_fish_of_type_temp.set(t, None);
                    } else {
                        assert(toggled(before[t as int], p) == Some(player_index as i32));
                        self.first_to_scan_all_fish_of_type_temp.set(t, Some(player_index as i32));
                    }
                }
            }
            assert(self@.players == g.players);
            assert(self@.first_to_scan_all_fish_of_type_temp[t as int] == g.detect_combos(p).first_to_scan_all_fish_of_type_temp[t as int]);
            assert(forall|x: int| 0 <= x < FISH_TYPES && x != t ==> self@.first_to_scan_all_fish_of_type_temp[x] == before[x]);
            fish_type = fish_type + 1;
        }
        assert(self@.first_to_scan_all_fish_of_type_temp =~= g.detect_combos(p).first_to_scan_all_fish_of_type_temp);
        let mut color: i32 = 0;
        while color < COLORS_PER_FISH
            invariant
                self.wf(),
                player_index < PLAYERS,
                p == player_index as int,
                0 <= color <= COLORS_PER_FISH,
                g.wf(),
                self@ == (GameView {
                    first_to_scan_all_fish_of_type_temp: g.detect_combos(p).first_to_scan_all_fish_of_type_temp,
                    first_to_scan_all_fish_of_color_temp: self@.first_to_scan_all_fish_of_color_temp,
                    ..g
                }),
                forall|c: int| 0 <= c < COLORS_PER_FISH ==> #[trigger] self@.first_to_scan_all_fish_of_color_temp[c] == if c < color {
                    g.detect_combos(p).first_to_scan_all_fish_of_color_temp[c]
                } else {
                    g.first_to_scan_all_fish_of_color_temp[c]
                },
            decreases COLORS_PER_FISH - color,
        {
            let c = color as usize;
            assert(c as int == color as int);
            let ghost before = self@.first_to_scan_all_fish_of_color_temp;
            assert(before[c as int] == g.first_to_scan_all_fish_of_color_temp[c as int]);
            assert(g.detect_combos(p).first_to_scan_all_fish_of_color_temp[c as int] == if g.first_to_scan_all_fish_of_color[c as int] is None && g.all_of_color(p, c as int) {
                toggled(g.first_to_scan_all_fish_of_color_temp[c as int], p)
            } else {
                g.first_to_scan_all_fish_of_color_temp[c as int]
            });
            if self.first_to_scan_all_fish_of_color[c].is_none() {
                if self.player_scanned_all_fish_of_color(player_index, color) {
                    if self.first_to_scan_all_fish_of_color_temp[c].is_some() {
                        self.first_to_scan_all_fish_of_color_temp.set(c, None);
                    } else {
                        self.first_to_scan_all_fish_of_color_temp.set(c, Some(player_index as i32));
                    }
                }
            }
            assert(self@.players == g.players);
            assert(self@.first_to_scan_all_fish_of_color_temp[c as int] == g.detect_combos(p).first_to_scan_all_fish_of_color_temp[c as int]);
            assert(forall|x: int| 0 <= x < COLORS_PER_FISH && x != c ==> self@.first_to_scan_all_fish_of_color_temp[x] == before[x]);
            color = color + 1;
        }
        assert(self@.first_to_scan_all_fish_of_color_temp =~= g.detect_combos(p).first_to_scan_all_fish_of_color_temp);
    }

    /// Pending first-to-save claims become permanent where nobody holds the
    /// bonus yet; returns the claims that were pending.
    pub fn persist_first_to_scan_bonuses(&mut self) -> (awards: Awards)
        requires
            old(self).wf(),
        ensures
            final(self).wf(),
            final(self)@ == old(self)@.persisted(),
            awards.scans@ == pending_list(old(self)@.first_to_scan_temp, CREATURE_KINDS as int),
            awards.types@ == pending_list(old(self)@.first_to_scan_all_fish_of_type_temp, FISH_TYPES as int),
            awards.colors@ == pending_list(old(self)@.first_to_scan_all_fish_of_color_temp, COLORS_PER_FISH as int),
    {
        let ghost g = self@;
        let scans = settle_claims(&mut self.first_to_scan, &mut self.first_to_scan_temp);
        let types = settle_claims(&mut self.first_to_scan_all_fish_of_type, &mut self.first_to_scan_all_fish_of_type_temp);
        let colors = settle_claims(&mut self.first_to_scan_all_fish_of_color, &mut self.first_to_scan_all_fish_of_color_temp);
        assert(self@.first_to_scan_temp =~= no_scans());
        assert(self@ =~= g.persisted());
        Awards { scans, types, colors }
    }

    /// Drone `drone_index` of player `player_index` reports (see
    /// `GameView::report_drone`); returns whether it saved a kind the player
    /// had not saved yet.
    pub fn apply_scans_for_report(&mut self, player_index: usize, drone_index: usize) -> (r: bool)
        requires
            old(self).wf(),
            player_index < PLAYERS,
            drone_index < old(self).players@[player_index as int].drones@.len(),
            old(self).fish_scanned + fresh_count(
                old(self)@.players[player_index as int].scans,
                old(self)@.players[player_index as int].drones[drone_index as int].scans,
            ) <= i32::MAX,
        ensures
            final(self).wf(),
            final(self)@ == old(self)@.report_drone(player_index as int, drone_index as int),
            r == old(self)@.saves_new(player_index as int, drone_index as int),
    {
        let ghost g = self@;
        let ghost p = player_index as int;
        let ghost d = drone_index as int;
        proof {
            self.lemma_view_wf();
            assert(self.players@[p].wf());
            assert(self.turn_saved_fish@[p]@.len() == CREATURE_KINDS);
            assert(g.players[p].drones[d].scans.len() == CREATURE_KINDS);
            assert(self.players@[p].drones@[d].scans@.len() == CREATURE_KINDS);
        }
        let ghost saved0 = g.players[p].scans;
        let ghost carried0 = g.players[p].drones[d].scans;
        let game_turn = self.game_turn;
        let mut k: usize = 0;
        while k < CREATURE_KINDS
            invariant
                self.wf(),
                g.wf(),
                player_index < PLAYERS,
                p == player_index as int,
                d == drone_index as int,
                drone_index < g.players[p].drones.len(),
                game_turn == g.game_turn,
                saved0 == g.players[p].scans,
                carried0 == g.players[p].drones[d].scans,
                saved0.len() == CREATURE_KINDS,
                carried0.len() == CREATURE_KINDS,
                g.fish_scanned + fresh_count(saved0, carried0) <= i32::MAX,
                k <= CREATURE_KINDS,
                self@ == (GameView {
                    first_to_scan_temp: self@.first_to_scan_temp,
                    turn_saved_fish: self@.turn_saved_fish,
                    fish_scanned: self@.fish_scanned,
                    ..g
                }),
                forall|i: int| 0 <= i < CREATURE_KINDS ==> #[trigger] self@.first_to_scan_temp[i] == if i < k {
                    g.report_drone(p, d).first_to_scan_temp[i]
                } else {
                    g.first_to_scan_temp[i]
                },
                self@.turn_saved_fish.len() == PLAYERS,
                self@.turn_saved_fish[1 - p] == g.turn_saved_fish[1 - p],
                self@.turn_saved_fish[p].len() == CREATURE_KINDS,
                forall|i: int| 0 <= i < CREATURE_KINDS ==> #[trigger] self@.turn_saved_fish[p][i] == if i < k {
                    g.report_drone(p, d).turn_saved_fish[p][i]
                } else {
                    g.turn_saved_fish[p][i]
                },
                self@.fish_scanned == g.fish_scanned + fresh_count(saved0.take(k as int), carried0.take(k as int)),
            decreases CREATURE_KINDS - k,
        {
            let ghost temp0 = self@.first_to_scan_temp;
            let ghost row0 = self@.turn_saved_fish[p];
            proof {
                lemma_fresh_count_step(saved0, carried0, k as int);
                lemma_fresh_count_prefix(saved0, carried0, k + 1);
                assert(self.players@[p].wf());
                assert(self.players@[p].drones@[d].scans@.len() == CREATURE_KINDS);
            }
            if self.players[player_index].scans[k].is_none()
                && self.players[player_index].drones[drone_index].scans[k].is_some() {
                if self.first_to_scan[k].is_none() {
                    if self.first_to_scan_temp[k].is_some() {
                        self.first_to_scan_temp.set(k, None);
                    } else {
                        self.first_to_scan_temp.set(k, Some(player_index as i32));
                    }
                }
                self.turn_saved_fish[player_index].set(k, game_turn);
                self.fish_scanned = self.fish_scanned + 1;
            }
            assert(forall|i: int| 0 <= i < CREATURE_KINDS && i != k ==> self@.first_to_scan_temp[i] == temp0[i]);
            assert(forall|i: int| 0 <= i < CREATURE_KINDS && i != k ==> self@.turn_saved_fish[p][i] == row0[i]);
            k = k + 1;
        }
        assert(saved0.take(CREATURE_KINDS as int) =~= saved0);
        assert(carried0.take(CREATURE_KINDS as int) =~= carried0);
        assert(self@.first_to_scan_temp =~= g.report_drone(p, d).first_to_scan_temp);
        assert(self@.turn_saved_fish[p] =~= g.report_drone(p, d).turn_saved_fish[p]);
        assert(self@.turn_saved_fish =~= g.report_drone(p, d).turn_saved_fish);
        let carried = count_scans(&self.players[player_index].drones[drone_index].scans);
        if carried > 0 {
            self.players[player_index].count_fish_saved.push(carried as i32);
        }
        let size_before = count_scans(&self.players[player_index].scans);
        let ghost mid = self@;
        let mut k: usize = 0;
        while k < CREATURE_KINDS
            invariant
                self.wf(),
                player_index < PLAYERS,
                p == player_index as int,
                d == drone_index as int,
                drone_index < self.players@[p].drones@.len(),
                saved0.len() == CREATURE_KINDS,
                carried0.len() == CREATURE_KINDS,
                k <= CREATURE_KINDS,
                self@ == (GameView { players: self@.players, ..mid }),
                self@.players[1 - p] == mid.players[1 - p],
                self@.players[p] == (PlayerView {
                    scans: self@.players[p].scans,
                    drones: self@.players[p].drones,
                    ..mid.players[p]
                }),
                self@.players[p].drones.len() == mid.players[p].drones.len(),
                forall|e: int| 0 <= e < mid.players[p].drones.len() && e != d ==> #[trigger] self@.players[p].drones[e] == mid.players[p].drones[e],
                self@.players[p].drones[d] == (DroneView { scans: self@.players[p].drones[d].scans, ..mid.players[p].drones[d] }),
                forall|i: int| 0 <= i < CREATURE_KINDS ==> #[trigger] self@.players[p].scans[i] == if i < k {
                    merged(saved0, carried0)[i]
                } else {
                    saved0[i]
                },
                forall|i: int| 0 <= i < CREATURE_KINDS ==> #[trigger] self@.players[p].drones[d].scans[i] == if i < k {
                    None
                } else {
                    carried0[i]
                },
            decreases CREATURE_KINDS - k,
        {
            let ghost scans0 = self@.players[p].scans;
            let ghost dscans0 = self@.players[p].drones[d].scans;
            let ghost drones0 = self@.players[p].drones;
            assert(self.players@[p].wf());
            assert(self.players@[p].drones@[d].scans@.len() == CREATURE_KINDS);
            let slot = self.players[player_index].drones[drone_index].scans[k];
            if self.players[player_index].scans[k].is_none() && slot.is_some() {
                self.players[player_index].scans.set(k, slot);
            }
            self.players[player_index].drones[drone_index].scans.set(k, None);
            assert(forall|i: int| 0 <= i < CREATURE_KINDS && i != k ==> self@.players[p].scans[i] == scans0[i]);
            assert(forall|i: int| 0 <= i < CREATURE_KINDS && i != k ==> self@.players[p].drones[d].scans[i] == dscans0[i]);
            assert forall|e: int| 0 <= e < mid.players[p].drones.len() && e != d implies #[trigger] self@.players[p].drones[e] == mid.players[p].drones[e] by {
                assert(self@.players[p].drones[e] == drones0[e]);
                assert(drones0[e] == mid.players[p].drones[e]);
            }
            k = k + 1;
        }
        let size_after = count_scans(&self.players[player_index].scans);
        proof {
            lemma_merged_count(saved0, carried0);
            assert(self@.players[p].scans =~= merged(saved0, carried0));
            assert(self@.players[p].drones[d].scans =~= no_scans());
            let want = g.report_drone(p, d);
            assert(self@.players[p].drones =~= want.players[p].drones);
            assert(self@.players[p] == want.players[p]);
            assert(self@.players =~= want.players);
            assert(self@ =~= want);
        }
        size_before < size_after
    }

    /// Live drones report, combos are claimed, claims settled and points
    /// recomputed; returns the claims that became due. With simple scans a
    /// drone reports wherever it is.
    pub fn do_report(&mut self) -> (awards: Awards)
        requires
            old(self).wf(),
            old(self).fish_scanned + old(self)@.report_count() <= i32::MAX,
        ensures
            final(self).wf(),
            final(self)@ == old(self)@.reported(),
            awards.scans@ == pending_list(old(self)@.reported_upto(PLAYERS as int).first_to_scan_temp, CREATURE_KINDS as int),
            awards.types@ == pending_list(old(self)@.reported_upto(PLAYERS as int).first_to_scan_all_fish_of_type_temp, FISH_TYPES as int),
            awards.colors@ == pending_list(old(self)@.reported_upto(PLAYERS as int).first_to_scan_all_fish_of_color_temp, COLORS_PER_FISH as int),
    {
        let ghost g = self@;
        let ghost len0 = g.players[0].drones.len() as int;
        let ghost len1 = g.players[1].drones.len() as int;
        let ghost c0 = g.report_drones_count(0, len0);
        let ghost c1 = g.reported_upto(1).report_drones_count(1, len1);
        proof {
            g.lemma_report_count_mono(0, 0, len0);
            g.reported_upto(1).lemma_report_count_mono(1, 0, len1);
            assert(g.reported_upto(0) == g);
            g.lemma_other_player_kept(0, len0);
            assert(g.reported_upto(1).players[1] == g.players[1]);
        }
        let mut player_index: usize = 0;
        while player_index < self.players.len()
            invariant
                self.wf(),
                player_index <= PLAYERS,
                self@ == g.reported_upto(player_index as int),
                self@.players[0].drones.len() == len0,
                self@.players[1].drones.len() == len1,
                c0 == g.report_drones_count(0, len0),
                c1 == g.reported_upto(1).report_drones_count(1, len1),
                0 <= c0,
                0 <= c1,
                g.fish_scanned + c0 + c1 <= i32::MAX,
                player_index == 0 ==> self.fish_scanned == g.fish_scanned,
                player_index == 1 ==> self.fish_scanned == g.fish_scanned + c0,
                player_index == 2 ==> self.fish_scanned == g.fish_scanned + c0 + c1,
            decreases PLAYERS - player_index,
        {
            let ghost h = self@;
            let ghost p = player_index as int;
            let mut points_scored = false;
            let mut drone_index: usize = 0;
            while drone_index < self.players[player_index].drones.len()
                invariant
                    self.wf(),
                    player_index < PLAYERS,
                    p == player_index as int,
                    drone_index <= h.players[p].drones.len(),
                    h.players.len() == PLAYERS,
                    self@.players[p].drones.len() == h.players[p].drones.len(),
                    self@ == h.report_drones(p, drone_index as int),
                    self@.players[0].drones.len() == len0,
                    self@.players[1].drones.len() == len1,
                    h == g.reported_upto(p),
                    c0 == g.report_drones_count(0, len0),
                    c1 == g.reported_upto(1).report_drones_count(1, len1),
                    0 <= c0,
                    0 <= c1,
                    g.fish_scanned + c0 + c1 <= i32::MAX,
                    p == 0 ==> h.fish_scanned == g.fish_scanned,
                    p == 1 ==> h.fish_scanned == g.fish_scanned + c0,
                    self.fish_scanned == h.fish_scanned + h.report_drones_count(p, drone_index as int),
                decreases h.players[p].drones.len() - drone_index,
            {
                let ghost before = self@;
                proof {
                    self.lemma_view_wf();
                    assert(self.players@[p].wf());
                }
                assert(self@.players[p].drones.len() == self.players@[p].drones@.len());
                proof {
                    h.lemma_report_count_mono(p, drone_index + 1, h.players[p].drones.len() as int);
                    assert(p == 0 ==> h.players[p].drones.len() == len0);
                    assert(p == 1 ==> h.players[p].drones.len() == len1);
                }
                if !self.players[player_index].drones[drone_index].is_dead_or_dying() {
                    let drone_scored = self.apply_scans_for_report(player_index, drone_index);
                    assert(self@.players[p].drones.len() == self.players@[p].drones@.len());
                    points_scored = points_scored || drone_scored;
                    if drone_scored {
                        self.players[player_index].drones[drone_index].did_report = true;
                        proof {
                            let want = before.report_drone(p, drone_index as int).mark_reported(p, drone_index as int);
                            assert(self@.players[p].drones =~= want.players[p].drones);
                            assert(self@.players =~= want.players);
                            assert(self@ =~= want);
                        }
                    }
                }
                drone_index = drone_index + 1;
            }
            self.detect_first_to_combo_bonuses(player_index);
            player_index = player_index + 1;
        }
        let awards = self.persist_first_to_scan_bonuses();
        let score0 = self.compute_player_score(0);
        let score1 = self.compute_player_score(1);
        let ghost settled_state = self@;
        self.players[0].points = score0;
        self.players[1].points = score1;
        proof {
            assert(self@.players =~= settled_state.with_points().players);
            assert(self@ =~= settled_state.with_points());
        }
        awards
    }

    /// End of the game: every drone reports, combos are claimed, claims
    /// settled and points recomputed; returns the claims that became due.
    pub fn compute_score_on_end(&mut self) -> (awards: Awards)
        requires
            old(self).wf(),
            old(self).fish_scanned + old(self)@.final_report_count() <= i32::MAX,
        ensures
            final(self).wf(),
            final(self)@ == old(self)@.scored_on_end(),
            awards.scans@ == pending_list(old(self)@.final_reports_upto(PLAYERS as int).first_to_scan_temp, CREATURE_KINDS as int),
            awards.types@ == pending_list(old(self)@.final_reports_upto(PLAYERS as int).first_to_scan_all_fish_of_type_temp, FISH_TYPES as int),
            awards.colors@ == pending_list(old(self)@.final_reports_upto(PLAYERS as int).first_to_scan_all_fish_of_color_temp, COLORS_PER_FISH as int),
    {
        let ghost g = self@;
        let ghost len0 = g.players[0].drones.len() as int;
        let ghost len1 = g.players[1].drones.len() as int;
        let ghost c0 = g.report_every_drone_count(0, len0);
        let ghost c1 = g.final_reports_upto(1).report_every_drone_count(1, len1);
        proof {
            g.lemma_report_count_mono(0, 0, len0);
            g.final_reports_upto(1).lemma_report_count_mono(1, 0, len1);
            assert(g.final_reports_upto(0) == g);
            g.lemma_other_player_kept(0, len0);
            assert(g.final_reports_upto(1).players[1] == g.players[1]);
        }
        let mut player_index: usize = 0;
        while player_index < self.players.len()
            invariant
                self.wf(),
                player_index <= PLAYERS,
                self@ == g.final_reports_upto(player_index as int),
                self@.players[0].drones.len() == len0,
                self@.players[1].drones.len() == len1,
                c0 == g.report_every_drone_count(0, len0),
                c1 == g.final_reports_upto(1).report_every_drone_count(1, len1),
                0 <= c0,
                0 <= c1,
                g.fish_scanned + c0 + c1 <= i32::MAX,
                player_index == 0 ==> self.fish_scanned == g.fish_scanned,
                player_index == 1 ==> self.fish_scanned == g.fish_scanned + c0,
                player_index == 2 ==> self.fish_scanned == g.fish_scanned + c0 + c1,
            decreases PLAYERS - player_index,
        {
            let ghost h = self@;
            let ghost p = player_index as int;
            let mut drone_index: usize = 0;
            while drone_index < self.players[player_index].drones.len()
                invariant
                    self.wf(),
                    player_index < PLAYERS,
                    p == player_index as int,
                    drone_index <= h.players[p].drones.len(),
                    h.players.len() == PLAYERS,
                    self@.players[p].drones.len() == h.players[p].drones.len(),
                    self@ == h.report_every_drone(p, drone_index as int),
                    self@.players[0].drones.len() == len0,
                    self@.players[1].drones.len() == len1,
                    h == g.final_reports_upto(p),
                    c0 == g.report_every_drone_count(0, len0),
                    c1 == g.final_reports_upto(1).report_every_drone_count(1, len1),
                    0 <= c0,
                    0 <= c1,
                    g.fish_scanned + c0 + c1 <= i32::MAX,
                    p == 0 ==> h.fish_scanned == g.fish_scanned,
                    p == 1 ==> h.fish_scanned == g.fish_scanned + c0,
                    self.fish_scanned == h.fish_scanned + h.report_every_drone_count(p, drone_index as int),
                decreases h.players[p].drones.len() - drone_index,
            {
                proof {
                    self.lemma_view_wf();
                    assert(self.players@[p].wf());
                }
                assert(self@.players[p].drones.len() == self.players@[p].drones@.len());
                proof {
                    h.lemma_report_count_mono(p, drone_index + 1, h.players[p].drones.len() as int);
                    assert(p == 0 ==> h.players[p].drones.len() == len0);
                    assert(p == 1 ==> h.players[p].drones.len() == len1);
                }
                self.apply_scans_for_report(player_index, drone_index);
                drone_index = drone_index + 1;
            }
            self.detect_first_to_combo_bonuses(player_index);
            player_index = player_index + 1;
        }
        let awards = self.persist_first_to_scan_bonuses();
        let score0 = self.compute_player_score(0);
        let score1 = self.compute_player_score(1);
        let ghost settled_state = self@;
        self.players[0].points = score0;
        self.players[1].points = score1;
        proof {
            assert(self@.players =~= settled_state.with_points().players);
            assert(self@ =~= settled_state.with_points());
        }
        awards
    }

    /// One turn of batteries for every drone (see `battery_turn`).
    pub fn do_batteries(&mut self)
        requires
            old(self).wf(),
        ensures
            final(self).wf(),
            final(self)@ == old(self)@.batteries_done(),
    {
        let ghost g = self@;
        let mut player_index: usize = 0;
        while player_index < self.players.len()
            invariant
                self.wf(),
                g.players.len() == PLAYERS,
                player_index <= PLAYERS,
                self@ == (GameView { players: self@.players, ..g }),
                self@.players.len() == PLAYERS,
                forall|q: int| 0 <= q < PLAYERS ==> #[trigger] self@.players[q] == if q < player_index {
                    g.batteries_done().players[q]
                } else {
                    g.players[q]
                },
            decreases PLAYERS - player_index,
        {
            let ghost p = player_index as int;
            let ghost pl = self@.players[p];
            let n = self.players[player_index].drones.len();
            let mut drone_index: usize = 0;
            while drone_index < n
                invariant
                    self.wf(),
                    player_index < PLAYERS,
                    p == player_index as int,
                    n == pl.drones.len(),
                    drone_index <= n,
                    g.players.len() == PLAYERS,
                    pl == g.players[p],
                    self@ == (GameView { players: self@.players, ..g }),
                    self@.players.len() == PLAYERS,
                    forall|q: int| 0 <= q < PLAYERS && q != p ==> #[trigger] self@.players[q] == if q < player_index {
                        g.batteries_done().players[q]
                    } else {
                        g.players[q]
                    },
                    self@.players[p] == (PlayerView { drones: self@.players[p].drones, ..pl }),
                    self@.players[p].drones.len() == n,
                    forall|e: int| 0 <= e < n ==> #[trigger] self@.players[p].drones[e] == if e < drone_index {
                        battery_turn(pl.drones[e])
                    } else {
                        pl.drones[e]
                    },
                decreases n - drone_index,
            {
                let ghost players0 = self@.players;
                let ghost drones0 = self@.players[p].drones;
                let ghost d0 = drones0[drone_index as int];
                assert(d0 == pl.drones[drone_index as int]);
                let drone = &mut self.players[player_index].drones[drone_index];
                if drone.dead {
                    drone.light_on = false;
                } else {
                    if drone.light_switch && drone.battery >= LIGHT_BATTERY_COST && !drone.dead {
                        drone.light_on = true;
                    } else {
                        drone.light_on = false;
                    }
                    if drone.is_light_on() {
                        drone.drain_battery();
                    } else {
                        drone.recharge_battery();
                    }
                }
                assert(self@.players[p].drones[drone_index as int] == battery_turn(d0));
                assert forall|e: int| 0 <= e < n && e != drone_index implies #[trigger] self@.players[p].drones[e] == drones0[e] by {}
                assert forall|q: int| 0 <= q < PLAYERS && q != p implies #[trigger] self@.players[q] == players0[q] by {}
                drone_index = drone_index + 1;
            }
            proof {
                assert(self@.players[p].drones =~= g.batteries_done().players[p].drones);
            }
            player_index = player_index + 1;
        }
        proof {
            assert(self@.players =~= g.batteries_done().players);
            assert(self@ =~= g.batteries_done());
        }
    }

    /// Removes the creatures whose ids are listed in `fish_to_remove` (those
    /// that swam out of the map); the others stay, in their order.
    pub fn remove_fishes(&mut self, fish_to_remove: &Vec<i32>)
        requires
            old(self).wf(),
        ensures
            final(self).wf(),
            final(self)@ == (GameView {
                fishes: old(self)@.fishes.filter(|f: Fish| !fish_to_remove@.contains(f.id)),
                ..old(self)@
            }),
    {
        let ghost g = self@;
        let ghost keep = |f: Fish| !fish_to_remove@.contains(f.id);
        let mut kept: Vec<Fish> = Vec::new();
        let mut i: usize = 0;
        while i < self.fishes.len()
            invariant
                self@ == g,
                self.wf(),
                i <= self.fishes@.len(),
                keep == (|f: Fish| !fish_to_remove@.contains(f.id)),
                kept@ == self.fishes@.take(i as int).filter(keep),
                forall|j: int| 0 <= j < kept@.len() ==> self.fishes@.contains(#[trigger] kept@[j]),
            decreases self.fishes@.len() - i,
        {
            let f = self.fishes[i];
            let listed = id_listed(fish_to_remove, f.id);
            proof {
                let t = self.fishes@.take(i + 1);
                assert(t.drop_last() =~= self.fishes@.take(i as int));
                assert(t.last() == f);
                reveal_with_fuel(Seq::filter, 1);
            }
            if !listed {
                kept.push(f);
                assert(self.fishes@.contains(f)) by {
                    assert(self.fishes@[i as int] == f);
                }
            }
            i = i + 1;
        }
        assert(self.fishes@.take(self.fishes@.len() as int) =~= self.fishes@);
        self.fishes = kept;
        assert(self@ =~= (GameView { fishes: g.fishes.filter(keep), ..g }));
    }

    /// Ids of the creatures still in the game, in order.
    fn fish_id_list(&self) -> (ids: Vec<i32>)
        ensures
            ids@ == fish_ids(self.fishes@),
    {
        let mut ids: Vec<i32> = Vec::new();
        let mut i: usize = 0;
        while i < self.fishes.len()
            invariant
                i <= self.fishes@.len(),
                ids@ == fish_ids(self.fishes@).take(i as int),
            decreases self.fishes@.len() - i,
        {
            ids.push(self.fishes[i].id);
            i = i + 1;
            assert(ids@ =~= fish_ids(self.fishes@).take(i as int));
        }
        assert(ids@ =~= fish_ids(self.fishes@));
        ids
    }

    /// Every player is shown no creature.
    pub fn clear_player_info(&mut self)
        requires
            old(self).wf(),
        ensures
            final(self).wf(),
            final(self)@ == old(self)@.cleared_player_info(),
    {
        let ghost g = self@;
        let mut player_index: usize = 0;
        while player_index < self.players.len()
            invariant
                self.wf(),
                g.players.len() == PLAYERS,
                player_index <= PLAYERS,
                self@ == (GameView { players: self@.players, ..g }),
                self@.players.len() == PLAYERS,
                forall|q: int| 0 <= q < PLAYERS ==> #[trigger] self@.players[q] == if q < player_index {
                    g.cleared_player_info().players[q]
                } else {
                    g.players[q]
                },
            decreases PLAYERS - player_index,
        {
            let ghost players0 = self@.players;
            self.players[player_index].visible_fishes.clear();
            assert(self@.players[player_index as int].visible_fishes =~= Seq::<i32>::empty());
            assert(players0[player_index as int] == g.players[player_index as int]);
            assert(self@.players[player_index as int] == g.cleared_player_info().players[player_index as int]);
            assert forall|q: int| 0 <= q < PLAYERS && q != player_index implies #[trigger] self@.players[q] == players0[q] by {}
            player_index = player_index + 1;
        }
        assert(self@.players =~= g.cleared_player_info().players);
        assert(self@ =~= g.cleared_player_info());
    }

    /// Every live drone scans the creatures in range of it: `in_range[p][d]`
    /// lists, as indices into `fishes`, the creatures within the scanning
    /// range of drone `d` of player `p` (see `GameView::scanned`).
    pub fn do_scan(&mut self, in_range: &Vec<Vec<Vec<usize>>>)
        requires
            old(self).wf(),
            in_range@.len() == PLAYERS,
            forall|q: int| 0 <= q < PLAYERS ==> (#[trigger] in_range@[q])@.len() == old(self).players@[q].drones@.len(),
            forall|q: int, e: int, j: int|
                0 <= q < PLAYERS && 0 <= e < in_range@[q]@.len() && 0 <= j < in_range@[q]@[e]@.len()
                    ==> #[trigger] in_range@[q]@[e]@[j] < old(self).fishes@.len(),
        ensures
            final(self).wf(),
            final(self)@ == old(self)@.scanned(in_range.deep_view()),
    {
        let ghost g = self@;
        let ghost want = g.scanned(in_range.deep_view());
        let mut player_index: usize = 0;
        while player_index < self.players.len()
            invariant
                self.wf(),
                g.wf(),
                in_range@.len() == PLAYERS,
                forall|q: int| 0 <= q < PLAYERS ==> (#[trigger] in_range@[q])@.len() == g.players[q].drones.len(),
                forall|q: int, e: int, j: int|
                    0 <= q < PLAYERS && 0 <= e < in_range@[q]@.len() && 0 <= j < in_range@[q]@[e]@.len()
                        ==> #[trigger] in_range@[q]@[e]@[j] < g.fishes.len(),
                want == g.scanned(in_range.deep_view()),
                player_index <= PLAYERS,
                self@ == (GameView { players: self@.players, ..g }),
                self@.players.len() == PLAYERS,
                forall|q: int| 0 <= q < PLAYERS ==> #[trigger] self@.players[q] == if q < player_index {
                    want.players[q]
                } else {
                    g.players[q]
                },
            decreases PLAYERS - player_index,
        {
            let ghost p = player_index as int;
            let ghost pl = g.players[p];
            let ghost alive = exists|e: int| 0 <= e < pl.drones.len() && !(#[trigger] pl.drones[e]).dying && !pl.drones[e].dead;
            let n = self.players[player_index].drones.len();
            let mut drone_index: usize = 0;
            let mut any_alive = false;
            while drone_index < n
                invariant
                    self.wf(),
                    g.wf(),
                    player_index < PLAYERS,
                    p == player_index as int,
                    pl == g.players[p],
                    n == pl.drones.len(),
                    drone_index <= n,
                    in_range@.len() == PLAYERS,
                    in_range@[p]@.len() == n,
                    forall|e: int, j: int|
                        0 <= e < n && 0 <= j < in_range@[p]@[e]@.len()
                            ==> #[trigger] in_range@[p]@[e]@[j] < g.fishes.len(),
                    want == g.scanned(in_range.deep_view()),
                    self@ == (GameView { players: self@.players, ..g }),
                    self@.players.len() == PLAYERS,
                    forall|q: int| 0 <= q < PLAYERS && q != p ==> #[trigger] self@.players[q] == if q < player_index {
                        want.players[q]
                    } else {
                        g.players[q]
                    },
                    self@.players[p] == (PlayerView {
                        drones: self@.players[p].drones,
                        visible_fishes: self@.players[p].visible_fishes,
                        ..pl
                    }),
                    self@.players[p].drones.len() == n,
                    forall|e: int| 0 <= e < n ==> #[trigger] self@.players[p].drones[e] == if e < drone_index {
                        want.players[p].drones[e]
                    } else {
                        pl.drones[e]
                    },
                    any_alive == exists|e: int| 0 <= e < drone_index && !(#[trigger] pl.drones[e]).dying && !pl.drones[e].dead,
                    any_alive ==> self@.players[p].visible_fishes == fish_ids(g.fishes),
                    !any_alive ==> self@.players[p].visible_fishes == pl.visible_fishes,
                decreases n - drone_index,
            {
                let ghost players0 = self@.players;
                let ghost drones0 = self@.players[p].drones;
                let ghost e0 = drone_index as int;
                assert(self.players@[p].wf());
                if !self.players[player_index].drones[drone_index].is_dead_or_dying() {
                    assert forall|j: int| 0 <= j < in_range@[p]@[e0]@.len() implies (#[trigger] in_range@[p]@[e0]@[j]) < self.fishes@.len() by {}
                    self.players[player_index].scan_with_drone(drone_index, &self.fishes, &in_range[player_index][drone_index]);
                    let ids = self.fish_id_list();
                    self.players[player_index].visible_fishes = ids;
                    any_alive = true;
                    proof {
                        assert(in_range.deep_view()[p][e0] == in_range@[p]@[e0]@);
                        assert(self@.players[p].drones[e0] == want.players[p].drones[e0]);
                    }
                } else {
                    assert(self@.players[p].drones[e0] == want.players[p].drones[e0]);
                }
                assert forall|e: int| 0 <= e < n && e != e0 implies #[trigger] self@.players[p].drones[e] == drones0[e] by {}
                assert forall|q: int| 0 <= q < PLAYERS && q != p implies #[trigger] self@.players[q] == players0[q] by {}
                drone_index = drone_index + 1;
            }
            proof {
                assert(self@.players[p].drones =~= want.players[p].drones);
                assert(any_alive == alive);
                assert(self@.players[p] == want.players[p]);
            }
            player_index = player_index + 1;
        }
        assert(self@.players =~= want.players);
        assert(self@ =~= want);
    }

    /// Every drone's upkeep at the end of a turn (see `upkeep`):
    /// `surfaced[p][d]` tells whether drone `d` of player `p` is at the
    /// surface and `depths[p][d]` is its depth truncated to an integer.
    pub fn upkeep_drones(&mut self, surfaced: &Vec<Vec<bool>>, depths: &Vec<Vec<i32>>)
        requires
            old(self).wf(),
            surfaced@.len() == PLAYERS,
            depths@.len() == PLAYERS,
            forall|q: int| 0 <= q < PLAYERS ==> (#[trigger] surfaced@[q])@.len() == old(self).players@[q].drones@.len(),
            forall|q: int| 0 <= q < PLAYERS ==> (#[trigger] depths@[q])@.len() == old(self).players@[q].drones@.len(),
            forall|q: int, e: int| 0 <= q < PLAYERS && 0 <= e < old(self).players@[q].drones@.len()
                ==> scan_count((#[trigger] old(self).players@[q].drones@[e]).scans@) == 0 || old(self).players@[q].drones@[e].turns_spent_with_scan < i32::MAX,
        ensures
            final(self).wf(),
            final(self)@ == old(self)@.upkept(surfaced.deep_view(), depths.deep_view()),
    {
        let ghost g = self@;
        let ghost want = g.upkept(surfaced.deep_view(), depths.deep_view());
        let mut player_index: usize = 0;
        while player_index < self.players.len()
            invariant
                self.wf(),
                g.players.len() == PLAYERS,
                surfaced@.len() == PLAYERS,
                depths@.len() == PLAYERS,
                forall|q: int| 0 <= q < PLAYERS ==> (#[trigger] surfaced@[q])@.len() == g.players[q].drones.len(),
                forall|q: int| 0 <= q < PLAYERS ==> (#[trigger] depths@[q])@.len() == g.players[q].drones.len(),
                forall|q: int, e: int| 0 <= q < PLAYERS && 0 <= e < g.players[q].drones.len()
                    ==> scan_count((#[trigger] g.players[q].drones[e]).scans) == 0 || g.players[q].drones[e].turns_spent_with_scan < i32::MAX,
                want == g.upkept(surfaced.deep_view(), depths.deep_view()),
                player_index <= PLAYERS,
                self@ == (GameView { players: self@.players, ..g }),
                self@.players.len() == PLAYERS,
                forall|q: int| 0 <= q < PLAYERS ==> #[trigger] self@.players[q] == if q < player_index {
                    want.players[q]
                } else {
                    g.players[q]
                },
            decreases PLAYERS - player_index,
        {
            let ghost p = player_index as int;
            let ghost pl = g.players[p];
            assert(self@.players[p] == g.players[p]);
            assert(surfaced@[p]@.len() == pl.drones.len());
            assert(depths@[p]@.len() == pl.drones.len());
            assert(forall|e: int| 0 <= e < pl.drones.len() ==> scan_count((#[trigger] pl.drones[e]).scans) == 0 || pl.drones[e].turns_spent_with_scan < i32::MAX);
            let n = self.players[player_index].drones.len();
            let mut drone_index: usize = 0;
            while drone_index < n
                invariant
                    self.wf(),
                    player_index < PLAYERS,
                    p == player_index as int,
                    pl == g.players[p],
                    n == pl.drones.len(),
                    drone_index <= n,
                    g.players.len() == PLAYERS,
                    surfaced@.len() == PLAYERS,
                    depths@.len() == PLAYERS,
                    surfaced@[p]@.len() == n,
                    depths@[p]@.len() == n,
                    forall|e: int| 0 <= e < n ==> scan_count((#[trigger] pl.drones[e]).scans) == 0 || pl.drones[e].turns_spent_with_scan < i32::MAX,
                    want == g.upkept(surfaced.deep_view(), depths.deep_view()),
                    self@ == (GameView { players: self@.players, ..g }),
                    self@.players.len() == PLAYERS,
                    forall|q: int| 0 <= q < PLAYERS && q != p ==> #[trigger] self@.players[q] == if q < player_index {
                        want.players[q]
                    } else {
                        g.players[q]
                    },
                    self@.players[p] == (PlayerView { drones: self@.players[p].drones, ..pl }),
                    self@.players[p].drones.len() == n,
                    forall|e: int| 0 <= e < n ==> #[trigger] self@.players[p].drones[e] == if e < drone_index {
                        want.players[p].drones[e]
                    } else {
                        pl.drones[e]
                    },
                decreases n - drone_index,
            {
                let ghost players0 = self@.players;
                let ghost drones0 = self@.players[p].drones;
                let ghost e0 = drone_index as int;
                assert(drones0[e0] == pl.drones[e0]);
                let at_surface = surfaced[player_index][drone_index];
                let depth = depths[player_index][drone_index];
                let holds_none = count_scans(&self.players[player_index].drones[drone_index].scans) == 0;
                let drone = &mut self.players[player_index].drones[drone_index];
                if drone.dying {
                    drone.dead = true;
                    drone.dying = false;
                } else if drone.dead && at_surface {
                    drone.dead = false;
                }
                if holds_none {
                    drone.turns_spent_with_scan = 0;
                } else {
                    drone.turns_spent_with_scan = drone.turns_spent_with_scan + 1;
                    if drone.turns_spent_with_scan > drone.max_turns_spent_with_scan {
                        drone.max_turns_spent_with_scan = drone.turns_spent_with_scan;
                    }
                }
                if depth > drone.max_y {
                    drone.max_y = depth;
                }
                proof {
                    assert(surfaced.deep_view()[p][e0] == at_surface);
                    assert(depths.deep_view()[p][e0] == depth);
                    assert(self@.players[p].drones[e0] == want.players[p].drones[e0]);
                }
                assert forall|e: int| 0 <= e < n && e != e0 implies #[trigger] self@.players[p].drones[e] == drones0[e] by {}
                assert forall|q: int| 0 <= q < PLAYERS && q != p implies #[trigger] self@.players[q] == players0[q] by {}
                drone_index = drone_index + 1;
            }
            proof {
                assert(self@.players[p].drones =~= want.players[p].drones);
            }
            player_index = player_index + 1;
        }
        assert(self@.players =~= want.players);
        assert(self@ =~= want);
    }

    /// Closes a game update: scores the end of the game when it is over,
    /// then moves to the next turn. Returns the end-of-game awards, if any.
    pub fn finish_game_update(&mut self) -> (awards: Option<Awards>)
        requires
            old(self).wf(),
            old(self)@.over() ==> old(self).fish_scanned + old(self)@.final_report_count() <= i32::MAX,
            old(self).game_turn < i32::MAX,
        ensures
            final(self).wf(),
            awards is Some == old(self)@.over(),
            final(self)@ == (GameView {
                game_turn: (old(self).game_turn + 1) as i32,
                ..if old(self)@.over() { old(self)@.scored_on_end() } else { old(self)@ }
            }),
            awards matches Some(a) ==> {
                &&& a.scans@ == pending_list(old(self)@.final_reports_upto(PLAYERS as int).first_to_scan_temp, CREATURE_KINDS as int)
                &&& a.types@ == pending_list(old(self)@.final_reports_upto(PLAYERS as int).first_to_scan_all_fish_of_type_temp, FISH_TYPES as int)
                &&& a.colors@ == pending_list(old(self)@.final_reports_upto(PLAYERS as int).first_to_scan_all_fish_of_color_temp, COLORS_PER_FISH as int)
            },
    {
        proof {
            self.lemma_view_wf();
            old(self)@.lemma_final_reports_turn(PLAYERS as int);
        }
        let mut awards = None;
        if self.is_game_over() {
            awards = Some(self.compute_score_on_end());
        }
        proof {
            self.lemma_view_wf();
        }
        let ghost before = self@;
        self.game_turn = self.game_turn + 1;
        assert(self@ =~= (GameView { game_turn: (before.game_turn + 1) as i32, ..before }));
        awards
    }
}

} // verus!
