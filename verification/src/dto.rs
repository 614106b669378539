//! Request and response shapes of the service boundary. The presentation
//! layer mirrors these with its serialization derives and converts; the
//! core only carries them as plain values.

use vstd::prelude::*;
use crate::models::{CharacterType, GameMode, SessionType};

verus! {

/// Request to open a session.
pub struct CreateSessionRequest {
    pub session_type: SessionType,
    pub notes: Option<String>,
}

/// Request to start a raid in the active session.
pub struct CreateRaidRequest {
    pub map_name: String,
    pub character_type: CharacterType,
    pub game_mode: GameMode,
}

/// Request to log one state transition; the timestamp is a rendered
/// datetime and defaults to the current time when absent.
pub struct StateTransitionRequest {
    pub to_state: String,
    pub transitioned_at: Option<String>,
}

/// Request to end the active raid in a final state.
pub struct EndRaidRequest {
    pub final_state: String,
    pub extract_location: Option<String>,
    pub ended_at: Option<String>,
}

/// One raid as the boundary reports it, timestamps rendered as text.
pub struct RaidResponse {
    pub raid_id: i64,
    pub session_id: i64,
    pub started_at: String,
    pub ended_at: Option<String>,
    pub map_name: String,
    pub character_type: CharacterType,
    pub game_mode: GameMode,
    pub current_state: String,
    pub extract_location: Option<String>,
}

/// The health probe's answer.
pub struct HealthResponse {
    pub status: String,
    pub database: String,
}

} // verus!
