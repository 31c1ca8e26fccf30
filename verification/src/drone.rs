//! A diving drone: its battery, light, life state, scans and radio message.
use vstd::prelude::*;
use vstd::utf8::is_char_boundary;
use vstd::utf8::encode_utf8;

verus! {

broadcast use vstd::string::group_string_axioms;

/// Number of creature kinds (4 colors times 3 fish types); scans are held in
/// one slot per kind.
pub const CREATURE_KINDS: usize = 12;

/// Battery a drone starts with and never recharges past.
pub const FULL_BATTERY: i32 = 100;

/// Battery a lit drone spends each turn, and needs to switch its light on.
pub const LIGHT_BATTERY_COST: i32 = 5;

/// Longest message, in bytes, that a drone keeps.
pub const MESSAGE_MAX_BYTES: usize = 48;

/// The state of a drone that the rules read; where it is and how fast it
/// goes are kept by the simulation that moves it.
pub struct Drone {
    pub id: i32,
    pub light: i32,
    pub battery: i32,
    /// Unsaved scans, one slot per creature kind, holding the scanned fish's id.
    pub scans: Vec<Option<i32>>,
    pub fishes_scanned_this_turn: Vec<i32>,
    pub light_switch: bool,
    pub light_on: bool,
    pub dying: bool,
    pub dead: bool,
    pub did_report: bool,
    pub message: String,
    pub max_turns_spent_with_scan: i32,
    pub turns_spent_with_scan: i32,
    pub max_y: i32,
}

/// What a drone is, as the rules see it.
pub struct DroneView {
    pub id: i32,
    pub light: i32,
    pub battery: i32,
    pub scans: Seq<Option<i32>>,
    pub fishes_scanned_this_turn: Seq<i32>,
    pub light_switch: bool,
    pub light_on: bool,
    pub dying: bool,
    pub dead: bool,
    pub did_report: bool,
    pub message: Seq<char>,
    pub max_turns_spent_with_scan: i32,
    pub turns_spent_with_scan: i32,
    pub max_y: i32,
}

impl View for Drone {
    type V = DroneView;

    open spec fn view(&self) -> DroneView {
        DroneView {
            id: self.id,
            light: self.light,
            battery: self.battery,
            scans: self.scans@,
            fishes_scanned_this_turn: self.fishes_scanned_this_turn@,
            light_switch: self.light_switch,
            light_on: self.light_on,
            dying: self.dying,
            dead: self.dead,
            did_report: self.did_report,
            message: self.message@,
            max_turns_spent_with_scan: self.max_turns_spent_with_scan,
            turns_spent_with_scan: self.turns_spent_with_scan,
            max_y: self.max_y,
        }
    }
}

/// A fresh drone: full battery, light off, alive, no scans, no message.
pub open spec fn fresh_drone(id: i32) -> DroneView {
    DroneView {
        id,
        light: 0,
        battery: FULL_BATTERY,
        scans: no_scans(),
        fishes_scanned_this_turn: Seq::empty(),
        light_switch: false,
        light_on: false,
        dying: false,
        dead: false,
        did_report: false,
        message: Seq::empty(),
        max_turns_spent_with_scan: 0,
        turns_spent_with_scan: 0,
        max_y: 0,
    }
}

/// No scan in any slot.
pub open spec fn no_scans() -> Seq<Option<i32>> {
    Seq::new(CREATURE_KINDS as nat, |k: int| None)
}

/// Bytes of the UTF-8 encoding of a string.
pub open spec fn utf8_bytes(s: Seq<char>) -> Seq<u8> {
    encode_utf8(s)
}

/// Bytes a message keeps: its first `MESSAGE_MAX_BYTES` bytes when that many
/// bytes end on a character boundary, otherwise all of it.
pub open spec fn kept_message_bytes(s: Seq<char>) -> Seq<u8> {
    if is_char_boundary(utf8_bytes(s), MESSAGE_MAX_BYTES as int) {
        utf8_bytes(s).subrange(0, MESSAGE_MAX_BYTES as int)
    } else {
        utf8_bytes(s)
    }
}

/// Battery after one turn of recharging.
pub open spec fn recharged(battery: int) -> int {
    if battery < FULL_BATTERY {
        battery + 1
    } else {
        FULL_BATTERY as int
    }
}

impl Drone {
    /// A fresh drone: full battery, light off, alive, no scans.
    pub fn new(id: i32) -> (d: Drone)
        ensures
            d@ == fresh_drone(id),
    {
        let mut scans: Vec<Option<i32>> = Vec::new();
        let mut k: usize = 0;
        while k < CREATURE_KINDS
            invariant
                k <= CREATURE_KINDS,
                scans@ == Seq::new(k as nat, |i: int| None::<i32>),
            decreases CREATURE_KINDS - k,
        {
            scans.push(None);
            k = k + 1;
            assert(scans@ =~= Seq::new(k as nat, |i: int| None::<i32>));
        }
        assert(scans@ =~= no_scans());
        Drone {
            id,
            light: 0,
            battery: FULL_BATTERY,
            scans,
            fishes_scanned_this_turn: Vec::new(),
            light_switch: false,
            light_on: false,
            dying: false,
            dead: false,
            did_report: false,
            message: String::new(),
            max_turns_spent_with_scan: 0,
            turns_spent_with_scan: 0,
            max_y: 0,
        }
    }

    pub fn is_light_on(&self) -> (r: bool)
        ensures
            r == self.light_on,
    {
        self.light_on
    }

    /// One turn of light: the battery goes down by `LIGHT_BATTERY_COST`.
    pub fn drain_battery(&mut self)
        requires
            old(self).battery >= i32::MIN + LIGHT_BATTERY_COST,
        ensures
            *final(self) == (Drone { battery: (old(self).battery - LIGHT_BATTERY_COST) as i32, ..*old(self) }),
    {
        self.battery = self.battery - LIGHT_BATTERY_COST;
    }

    /// One turn without light: the battery goes up by one, never past full.
    pub fn recharge_battery(&mut self)
        ensures
            *final(self) == (Drone { battery: recharged(old(self).battery as int) as i32, ..*old(self) }),
    {
        if self.battery < FULL_BATTERY {
            self.battery = self.battery + 1;
        }
        if self.battery >= FULL_BATTERY {
            self.battery = FULL_BATTERY;
        }
    }

    pub fn is_dead_or_dying(&self) -> (r: bool)
        ensures
            r == (self.dying || self.dead),
    {
        self.dying || self.dead
    }

    /// Sets the drone's message, cut to its first `MESSAGE_MAX_BYTES` bytes
    /// when that cut falls on a character boundary.
    pub fn set_message(&mut self, message: String)
        ensures
            utf8_bytes(final(self).message@) == kept_message_bytes(message@),
            *final(self) == (Drone { message: final(self).message, ..*old(self) }),
    {
        self.message = message;
        if self.message.as_str().is_char_boundary(MESSAGE_MAX_BYTES) {
            let (trimmed_message, _) = self.message.as_str().split_at(MESSAGE_MAX_BYTES);
            self.message = trimmed_message.to_string();
        }
    }
}

} // verus!
