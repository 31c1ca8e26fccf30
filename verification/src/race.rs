//! The pod race: its maps, the meaning of the six actions, and a pod's
//! progress through the checkpoints (three laps, a turn budget renewed at
//! each checkpoint).
use vstd::prelude::*;

verus! {

pub const LEFT_ACC: usize = 0;
pub const RIGHT_MOVE: usize = 1;
pub const STRAIGHT_ACC: usize = 2;
pub const STRAIGHT_MOVE: usize = 3;
pub const RIGHT_ACC: usize = 4;
pub const LEFT_MOVE: usize = 5;

/// Number of actions.
pub const ACTION_SPACE: usize = 6;

/// Degrees a pod turns by when it turns.
pub const TURN_DEGREES: i32 = 18;

/// Turns a pod has to reach its next checkpoint.
pub const CHECKPOINT_TIME: i32 = 200;

/// Laps of a race.
pub const LAPS: usize = 3;

/// Number of race maps.
pub const MAP_COUNT: usize = 13;

/// Turn, in degrees, that action `a` makes: left actions turn by minus
/// `TURN_DEGREES`, right ones by `TURN_DEGREES`, straight ones not at all.
pub open spec fn turn_of(a: usize) -> int {
    if a == LEFT_ACC || a == LEFT_MOVE {
        -TURN_DEGREES
    } else if a == RIGHT_ACC || a == RIGHT_MOVE {
        TURN_DEGREES as int
    } else {
        0
    }
}

/// Action `a` thrusts: the three accelerating actions do.
pub open spec fn thrusts(a: usize) -> bool {
    a == LEFT_ACC || a == RIGHT_ACC || a == STRAIGHT_ACC
}

/// Checkpoints of race map `i` (`i < MAP_COUNT`).
pub open spec fn map_spec(i: int) -> Seq<(i32, i32)> {
    if i == 0 {
        seq![(12460i32, 1350i32), (10540, 5980), (3580, 5180), (13580, 7600)]
    } else if i == 1 {
        seq![(3600i32, 5280i32), (13840, 5080), (10680, 2280), (8700, 7460), (7200, 2160)]
    } else if i == 2 {
        seq![(4560i32, 2180i32), (7350, 4940), (3320, 7230), (14580, 7700), (10560, 5060), (13100, 2320)]
    } else if i == 3 {
        seq![(5010i32, 5260i32), (11480, 6080), (9100, 1840)]
    } else if i == 4 {
        seq![(14660i32, 1410i32), (3450, 7220), (9420, 7240), (5970, 4240)]
    } else if i == 5 {
        seq![(3640i32, 4420i32), (8000, 7900), (13300, 5540), (9560, 1400)]
    } else if i == 6 {
        seq![(4100i32, 7420i32), (13500, 2340), (12940, 7220), (5640, 2580)]
    } else if i == 7 {
        seq![(14520i32, 7780i32), (6320, 4290), (7800, 860), (7660, 5970), (3140, 7540), (9520, 4380)]
    } else if i == 8 {
        seq![(10040i32, 5970i32), (13920, 1940), (8020, 3260), (2670, 7020)]
    } else if i == 9 {
        seq![(7500i32, 6940i32), (6000, 5360), (11300, 2820)]
    } else if i == 10 {
        seq![(4060i32, 4660i32), (13040, 1900), (6560, 7840), (7480, 1360), (12700, 7100)]
    } else if i == 11 {
        seq![(3020i32, 5190i32), (6280, 7760), (14100, 7760), (13880, 1220), (10240, 4920), (6100, 2200)]
    } else {
        seq![(10323i32, 3366i32), (11203, 5425), (7259, 6656), (5425, 2838)]
    }
}

/// Turn, in degrees, that action `a` makes.
pub fn turn_of_action(a: usize) -> (r: i32)
    ensures
        r == turn_of(a),
{
    if a == LEFT_ACC || a == LEFT_MOVE {
        -TURN_DEGREES
    } else if a == RIGHT_ACC || a == RIGHT_MOVE {
        TURN_DEGREES
    } else {
        0
    }
}

/// Whether action `a` thrusts.
pub fn action_thrusts(a: usize) -> (r: bool)
    ensures
        r == thrusts(a),
{
    a == LEFT_ACC || a == RIGHT_ACC || a == STRAIGHT_ACC
}

/// Checkpoints of race map `index`, in race order or reversed.
pub fn race_map(index: usize, reversed: bool) -> (m: Vec<(i32, i32)>)
    requires
        index < MAP_COUNT,
    ensures
        m@ == (if reversed { map_spec(index as int).reverse() } else { map_spec(index as int) }),
{
    let map: Vec<(i32, i32)> = if index == 0 {
        vec![(12460, 1350), (10540, 5980), (3580, 5180), (13580, 7600)]
    } else if index == 1 {
        vec![(3600, 5280), (13840, 5080), (10680, 2280), (8700, 7460), (7200, 2160)]
    } else if index == 2 {
        vec![(4560, 2180), (7350, 4940), (3320, 7230), (14580, 7700), (10560, 5060), (13100, 2320)]
    } else if index == 3 {
        vec![(5010, 5260), (11480, 6080), (9100, 1840)]
    } else if index == 4 {
        vec![(14660, 1410), (3450, 7220), (9420, 7240), (5970, 4240)]
    } else if index == 5 {
        vec![(3640, 4420), (8000, 7900), (13300, 5540), (9560, 1400)]
    } else if index == 6 {
        vec![(4100, 7420), (13500, 2340), (12940, 7220), (5640, 2580)]
    } else if index == 7 {
        vec![(14520, 7780), (6320, 4290), (7800, 860), (7660, 5970), (3140, 7540), (9520, 4380)]
    } else if index == 8 {
        vec![(10040, 5970), (13920, 1940), (8020, 3260), (2670, 7020)]
    } else if index == 9 {
        vec![(7500, 6940), (6000, 5360), (11300, 2820)]
    } else if index == 10 {
        vec![(4060, 4660), (13040, 1900), (6560, 7840), (7480, 1360), (12700, 7100)]
    } else if index == 11 {
        vec![(3020, 5190), (6280, 7760), (14100, 7760), (13880, 1220), (10240, 4920), (6100, 2200)]
    } else {
        vec![(10323, 3366), (11203, 5425), (7259, 6656), (5425, 2838)]
    };
    assert(map@ =~= map_spec(index as int));
    if reversed {
        reverse_checkpoints(map)
    } else {
        map
    }
}

/// The checkpoints in the opposite order.
fn reverse_checkpoints(map: Vec<(i32, i32)>) -> (r: Vec<(i32, i32)>)
    ensures
        r@ == map@.reverse(),
{
    let mut r: Vec<(i32, i32)> = Vec::new();
    let mut i: usize = map.len();
    while i > 0
        invariant
            i <= map@.len(),
            r@ == map@.reverse().take(map@.len() - i),
        decreases i,
    {
        i = i - 1;
        r.push(map[i]);
        assert(r@ =~= map@.reverse().take(map@.len() - i));
    }
    assert(r@ =~= map@.reverse());
    r
}

/// A pod's progress: checkpoints passed so far and turns left to reach the
/// next one.
pub struct RaceProgress {
    pub time: i32,
    pub cp: usize,
}

impl RaceProgress {
    /// Index of the checkpoint a pod that has passed `cp` heads for.
    pub open spec fn next_index(cp: int, map_len: int) -> int {
        cp % map_len
    }

    /// Index of the checkpoint after that one; on the last checkpoint of the
    /// race, the last checkpoint again.
    pub open spec fn next_next_index(cp: int, map_len: int) -> int {
        (if cp + 1 == map_len * LAPS { cp } else { cp + 1 }) % map_len
    }

    /// The race is over for this pod: out of time, or all laps done.
    pub open spec fn finished(time: int, cp: int, map_len: int) -> bool {
        time < 0 || cp == map_len * LAPS
    }

    /// At the start: no checkpoint passed, full time.
    pub fn new() -> (r: RaceProgress)
        ensures
            r.time == CHECKPOINT_TIME,
            r.cp == 0,
    {
        RaceProgress { time: CHECKPOINT_TIME, cp: 0 }
    }

    /// Indices of the next checkpoint and of the one after it.
    pub fn targets(&self, map_len: usize) -> (r: (usize, usize))
        requires
            map_len > 0,
            map_len * LAPS <= usize::MAX,
            self.cp < usize::MAX,
        ensures
            r.0 == Self::next_index(self.cp as int, map_len as int),
            r.1 == Self::next_next_index(self.cp as int, map_len as int),
            r.0 < map_len,
            r.1 < map_len,
    {
        let next = self.cp % map_len;
        let mut next_next_id = if self.cp + 1 == map_len * LAPS { self.cp } else { self.cp + 1 };
        next_next_id = next_next_id % map_len;
        (next, next_next_id)
    }

    /// The pod reaches its next checkpoint: one more passed, full time again.
    pub fn reach_checkpoint(&mut self)
        requires
            old(self).cp < usize::MAX,
        ensures
            final(self).cp == old(self).cp + 1,
            final(self).time == CHECKPOINT_TIME,
    {
        self.cp = self.cp + 1;
        self.time = CHECKPOINT_TIME;
    }

    /// A turn goes by; returns whether the race is over for this pod.
    pub fn end_turn(&mut self, map_len: usize) -> (done: bool)
        requires
            old(self).time > i32::MIN,
            map_len * LAPS <= usize::MAX,
        ensures
            final(self).time == old(self).time - 1,
            final(self).cp == old(self).cp,
            done == Self::finished(final(self).time as int, final(self).cp as int, map_len as int),
    {
        self.time = self.time - 1;
        self.time < 0 || self.cp == map_len * LAPS
    }
}

} // verus!
