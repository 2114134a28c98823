//! Plain data carried between the remote game service and the solver logic.

use vstd::prelude::*;

verus! {

/// Errors raised by the puzzle logic itself.
#[derive(Debug)]
pub enum PuzzleError {
    /// No authentication token could be resolved at startup.
    AuthTokenMissing,
    /// A condition reported by, or inferred from, the game service.
    Info(String),
}

/// Envelope shared by every endpoint response: a numeric code, a status
/// message (the literal `"OK"` on success) and the payload.
#[derive(Debug)]
pub struct GflEndpointResponse<T> {
    pub code: i32,
    pub message: String,
    pub data: T,
}

/// Current board snapshot as the service reports it: `info` holds one card
/// identity per cell, the empty string standing for a cell not yet revealed
/// this session, and `flag` signals whether an unresolved reveal is
/// outstanding server-side.
#[derive(Debug)]
pub struct PlayInfo {
    pub flag: i32,
    pub info: Vec<String>,
    pub max_score: i32,
    pub real_score: i32,
    pub score: i32,
    pub stage: i32,
    pub times: i32,
}

/// Payload returned when the remote game state is reset.
#[derive(Debug)]
pub struct RefreshData {
    pub play_info: PlayInfo,
    pub play_times: i32,
}

/// Payload returned by a click on one cell: the identity revealed there and
/// the updated counters.
#[derive(Debug)]
pub struct PlayClickData {
    pub card_id: String,
    pub gacha_num: i32,
    pub num: i32,
    pub play_info: PlayInfo,
    pub play_times: i32,
}

/// Payload of the info endpoint: play and lottery counters plus the current
/// board snapshot.
#[derive(Debug)]
pub struct InfoData {
    pub be_assist_num: i32,
    pub code: String,
    pub day_can_get_score: i32,
    pub gacha_num: i32,
    pub gacha_score: i32,
    pub game_uid: i32,
    pub play_info: PlayInfo,
    pub play_num: i32,
    pub task_info: TaskInfo,
}

/// Task-completion counters reported alongside the game info.
#[derive(Debug)]
pub struct TaskInfo {
    pub can_get_assist: i32,
    pub game_login: i32,
    pub login_h5: i32,
    pub share: i32,
}

/// Result record of one lottery roll.
#[derive(Debug)]
pub struct GachaData {
    pub is_code: i32,
    pub name: String,
    pub pic: String,
    pub record_id: i32,
}

/// Locally stored configuration: the authentication token.
#[derive(Debug)]
pub struct PuzzleConfig {
    pub auth_token: String,
}

/// How many attempts an operation should make: none, a single one, or one
/// per remaining play reported by the service.
#[derive(Debug, Clone, Copy, PartialEq, Eq, Structural)]
pub enum Attempts {
    Skip,
    One,
    All,
}

} // verus!
