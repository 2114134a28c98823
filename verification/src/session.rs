//! Session bookkeeping: the decisions a game or lottery session makes
//! between network calls.
//!
//! The loop that talks to the service lives outside the crate; it feeds the
//! status message and revealed identity of each click into
//! [`apply_click_result`] and consults the small decision functions here
//! before issuing requests.

use vstd::prelude::*;
use vstd::string::StringExecFns;
use std::collections::HashSet;
use crate::board::BOARD_SIZE;
use crate::data::{Attempts, PuzzleError};

verus! {

broadcast use vstd::std_specs::hash::group_hash_axioms;

/// Status message the service uses to accept a request.
pub open spec fn accepted_message() -> Seq<char> {
    "OK"@
}

/// A click response is usable when the service accepted it and it names the
/// revealed card.
pub open spec fn click_usable(message: Seq<char>, card_id: Seq<char>) -> bool {
    message == accepted_message() && card_id.len() > 0
}

/// Folds one click response into the tracker state.
///
/// A response whose status is not the acceptance marker, or that names no
/// card, is transient: nothing changes and the caller should retry the same
/// selection. Otherwise the revealed identity is recorded at the clicked
/// cell; a pending reveal of the same identity resolves both cells into the
/// matched set, a differing one merely clears the pending reveal, and with
/// no pending reveal the clicked cell becomes the new pending reveal.
pub fn apply_click_result(
    seen: &mut Vec<String>,
    solved_indices: &mut HashSet<usize>,
    last_seen: &mut String,
    last_seen_index: &mut isize,
    index: usize,
    message: &String,
    card_id: &String,
) -> (retry: bool)
    requires
        old(seen)@.len() == BOARD_SIZE,
        index < BOARD_SIZE,
        old(last_seen)@.len() > 0 ==> 0 <= *old(last_seen_index) && *old(last_seen_index)
            < BOARD_SIZE,
    ensures
        retry == !click_usable(message@, card_id@),
        !click_usable(message@, card_id@) ==> {
            &&& final(seen)@ == old(seen)@
            &&& final(solved_indices)@ == old(solved_indices)@
            &&& final(last_seen)@ == old(last_seen)@
            &&& *final(last_seen_index) == *old(last_seen_index)
        },
        click_usable(message@, card_id@) ==> {
            &&& final(seen).deep_view() == old(seen).deep_view().update(index as int, card_id@)
            &&& old(last_seen)@.len() == 0 ==> {
                &&& final(solved_indices)@ == old(solved_indices)@
                &&& final(last_seen)@ == card_id@
                &&& *final(last_seen_index) == index as isize
            }
            &&& old(last_seen)@.len() > 0 ==> {
                &&& final(last_seen)@.len() == 0
                &&& *final(last_seen_index) == -1
            }
            &&& old(last_seen)@.len() > 0 && old(last_seen)@ == card_id@ ==> final(
                solved_indices)@ == old(solved_indices)@.insert(index).insert(
                *old(last_seen_index) as usize)
            &&& old(last_seen)@.len() > 0 && old(last_seen)@ != card_id@ ==> final(
                solved_indices)@ == old(solved_indices)@
        },
{
    let ok_marker: String = String::from_str("OK");
    if *message != ok_marker {
        return true;
    }
    if card_id.as_str().is_empty() {
        return true;
    }

    let ghost seen0 = seen.deep_view();
    seen[index] = card_id.clone();
    proof {
        assert(seen.deep_view().len() == seen0.len());
        assert forall|k: int| 0 <= k < seen0.len() implies seen.deep_view()[k] == seen0.update(
            index as int,
            card_id@,
        )[k] by {
            assert(seen.deep_view()[k] == seen@[k]@);
        }
        assert(seen.deep_view() =~= seen0.update(index as int, card_id@));
    }

    if !last_seen.as_str().is_empty() {
        if *last_seen == *card_id {
            solved_indices.insert(index);
            solved_indices.insert(*last_seen_index as usize);
        }
        *last_seen = String::new();
        *last_seen_index = -1;
    } else {
        *last_seen = card_id.clone();
        *last_seen_index = index as isize;
    }

    false
}

/// Gate on starting to solve: the service must report at least one play
/// left for the day.
pub fn check_plays_available(play_num: i32) -> (r: Result<(), PuzzleError>)
    ensures
        r is Ok <==> play_num >= 1,
        play_num < 1 ==> (r matches Err(PuzzleError::Info(m)) && m@
            == "No available plays left for today."@),
{
    if play_num < 1 {
        Err(PuzzleError::Info(String::from_str("No available plays left for today.")))
    } else {
        Ok(())
    }
}

/// Gate on rolling the lottery: the service must report at least one roll
/// left.
pub fn check_gacha_available(gacha_num: i32) -> (r: Result<(), PuzzleError>)
    ensures
        r is Ok <==> gacha_num >= 1,
        gacha_num < 1 ==> (r matches Err(PuzzleError::Info(m)) && m@
            == "No gacha attempts left."@),
{
    if gacha_num < 1 {
        Err(PuzzleError::Info(String::from_str("No gacha attempts left.")))
    } else {
        Ok(())
    }
}

/// A lottery roll whose status is not the acceptance marker aborts the
/// whole remaining sequence.
pub fn check_roll_accepted(message: &String) -> (r: Result<(), PuzzleError>)
    ensures
        r is Ok <==> message@ == accepted_message(),
        message@ != accepted_message() ==> (r matches Err(PuzzleError::Info(m)) && m@
            == "Error from server: "@ + message@),
{
    let ok_marker: String = String::from_str("OK");
    if *message != ok_marker {
        let text = String::from_str("Error from server: ").concat(message.as_str());
        Err(PuzzleError::Info(text))
    } else {
        Ok(())
    }
}

/// Picks the authentication token to use: the one supplied directly when
/// non-empty, otherwise the configured one, and an error when both are
/// empty.
pub fn resolve_auth_token(provided: &String, configured: &String) -> (r: Result<
    String,
    PuzzleError,
>)
    ensures
        provided@.len() > 0 ==> (r matches Ok(t) && t@ == provided@),
        provided@.len() == 0 && configured@.len() > 0 ==> (r matches Ok(t) && t@
            == configured@),
        provided@.len() == 0 && configured@.len() == 0 ==> (r matches Err(e)
            && e is AuthTokenMissing),
{
    if !provided.as_str().is_empty() {
        Ok(provided.clone())
    } else if !configured.as_str().is_empty() {
        Ok(configured.clone())
    } else {
        Err(PuzzleError::AuthTokenMissing)
    }
}

/// How many attempts an operation plans, given how many the service still
/// allows.
pub fn planned_attempts(attempts: Attempts, available: i32) -> (n: i32)
    ensures
        attempts is Skip ==> n == 0,
        attempts is One ==> n == 1,
        attempts is All ==> n == available,
{
    match attempts {
        Attempts::Skip => 0,
        Attempts::One => 1,
        Attempts::All => available,
    }
}

} // verus!
