//! Data model: sessions, raids, state transitions and kills.
//!
//! Timestamps are whole ticks (seconds) counted from an epoch. Keeping every
//! stored tick inside a fixed bound lets the analytics accumulate durations
//! without overflow.

use vstd::prelude::*;

verus! {

/// Bound on every stored timestamp, in ticks.
pub const MAX_TICK: i64 = 0x1_0000_0000_0000;

/// A timestamp the store accepts: within `MAX_TICK` ticks of the epoch.
pub open spec fn tick_in_range(t: int) -> bool {
    -MAX_TICK <= t <= MAX_TICK
}

/// An optional timestamp that is absent or within the tick bound.
pub open spec fn opt_tick_in_range(t: Option<i64>) -> bool {
    match t {
        Some(v) => tick_in_range(v as int),
        None => true,
    }
}

/// The state a raid is in before any transition is logged.
pub open spec fn initial_state() -> Seq<char> {
    "stash_management"@
}

/// The one state name that counts as surviving a raid.
pub open spec fn survived_state() -> Seq<char> {
    "survived"@
}

/// The initial raid state as an owned string.
pub fn initial_state_string() -> (s: String)
    ensures
        s@ == initial_state(),
{
    "stash_management".to_owned()
}

/// Whether `s` is the surviving state name.
pub fn is_survived_state(s: &String) -> (b: bool)
    ensures
        b == (s@ == survived_state()),
{
    let lit: String = "survived".to_owned();
    *s == lit
}

#[derive(Clone, Copy, Debug, PartialEq, Eq, Structural)]
pub enum CharacterType {
    PMC,
    Scav,
}

#[derive(Clone, Copy, Debug, PartialEq, Eq, Structural)]
pub enum GameMode {
    PVE,
    PVP,
}

#[derive(Clone, Copy, Debug, PartialEq, Eq, Structural)]
pub enum SessionType {
    Stream,
    Practice,
    Casual,
}

/// A bounded period of play activity containing zero or more raids.
#[derive(Debug)]
pub struct StreamSession {
    pub session_id: i64,
    pub started_at: i64,
    pub ended_at: Option<i64>,
    pub session_type: Option<SessionType>,
    pub notes: Option<String>,
}

/// One attempt of gameplay, progressing through states until ended.
/// `current_state` mirrors the `to_state` of the raid's most recently
/// logged transition, or the initial state if none is logged yet.
#[derive(Debug)]
pub struct Raid {
    pub raid_id: i64,
    pub session_id: i64,
    pub started_at: i64,
    pub ended_at: Option<i64>,
    pub map_name: String,
    pub character_type: CharacterType,
    pub game_mode: GameMode,
    pub current_state: String,
    pub extract_location: Option<String>,
}

/// A timestamped record of a raid moving from one named state to another.
/// Append-only: never updated or deleted.
#[derive(Debug)]
pub struct RaidStateTransition {
    pub transition_id: i64,
    pub raid_id: i64,
    pub from_state: Option<String>,
    pub to_state: String,
    pub transitioned_at: i64,
}

/// A timestamped elimination recorded during a raid.
#[derive(Debug)]
pub struct Kill {
    pub kill_id: i64,
    pub raid_id: i64,
    pub killed_at: i64,
    pub enemy_type: String,
    pub weapon_used: Option<String>,
    pub headshot: Option<bool>,
}

fn clone_opt_string(s: &Option<String>) -> (r: Option<String>)
    ensures
        r == *s,
{
    match s {
        Some(v) => Some(v.clone()),
        None => None,
    }
}

impl Clone for StreamSession {
    fn clone(&self) -> (r: Self)
        ensures
            r == *self,
    {
        StreamSession {
            session_id: self.session_id,
            started_at: self.started_at,
            ended_at: self.ended_at,
            session_type: self.session_type,
            notes: clone_opt_string(&self.notes),
        }
    }
}

impl Clone for Raid {
    fn clone(&self) -> (r: Self)
        ensures
            r == *self,
    {
        Raid {
            raid_id: self.raid_id,
            session_id: self.session_id,
            started_at: self.started_at,
            ended_at: self.ended_at,
            map_name: self.map_name.clone(),
            character_type: self.character_type,
            game_mode: self.game_mode,
            current_state: self.current_state.clone(),
            extract_location: clone_opt_string(&self.extract_location),
        }
    }
}

impl Clone for RaidStateTransition {
    fn clone(&self) -> (r: Self)
        ensures
            r == *self,
    {
        RaidStateTransition {
            transition_id: self.transition_id,
            raid_id: self.raid_id,
            from_state: clone_opt_string(&self.from_state),
            to_state: self.to_state.clone(),
            transitioned_at: self.transitioned_at,
        }
    }
}

impl Clone for Kill {
    fn clone(&self) -> (r: Self)
        ensures
            r == *self,
    {
        Kill {
            kill_id: self.kill_id,
            raid_id: self.raid_id,
            killed_at: self.killed_at,
            enemy_type: self.enemy_type.clone(),
            weapon_used: clone_opt_string(&self.weapon_used),
            headshot: self.headshot,
        }
    }
}

} // verus!
