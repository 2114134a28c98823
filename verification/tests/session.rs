use std::collections::HashSet;

use leva_memory_puzzle::data::{Attempts, GachaData, GflEndpointResponse, PuzzleConfig, PuzzleError};
use leva_memory_puzzle::session::{
    apply_click_result, check_gacha_available, check_plays_available, check_roll_accepted,
    planned_attempts, resolve_auth_token,
};

fn empty_board() -> Vec<String> {
    vec![String::new(); 16]
}

#[test]
fn first_reveal_becomes_pending() {
    let mut seen = empty_board();
    let mut solved: HashSet<usize> = HashSet::new();
    let mut pending = String::new();
    let mut pending_index: isize = -1;
    let retry = apply_click_result(
        &mut seen,
        &mut solved,
        &mut pending,
        &mut pending_index,
        2,
        &"OK".to_string(),
        &"cardX".to_string(),
    );
    assert!(!retry);
    assert_eq!(seen[2], "cardX");
    assert_eq!(pending, "cardX");
    assert_eq!(pending_index, 2);
    assert!(solved.is_empty());
}

#[test]
fn matching_reveal_resolves_both_cells() {
    let mut seen = empty_board();
    seen[2] = "cardX".to_string();
    let mut solved: HashSet<usize> = HashSet::new();
    let mut pending = "cardX".to_string();
    let mut pending_index: isize = 2;
    let retry = apply_click_result(
        &mut seen,
        &mut solved,
        &mut pending,
        &mut pending_index,
        9,
        &"OK".to_string(),
        &"cardX".to_string(),
    );
    assert!(!retry);
    assert_eq!(seen[9], "cardX");
    let mut expected: HashSet<usize> = HashSet::new();
    expected.insert(2);
    expected.insert(9);
    assert_eq!(solved, expected);
    assert_eq!(pending, "");
    assert_eq!(pending_index, -1);
}

#[test]
fn differing_reveal_only_clears_pending() {
    let mut seen = empty_board();
    seen[2] = "cardX".to_string();
    let mut solved: HashSet<usize> = HashSet::new();
    let mut pending = "cardX".to_string();
    let mut pending_index: isize = 2;
    let retry = apply_click_result(
        &mut seen,
        &mut solved,
        &mut pending,
        &mut pending_index,
        9,
        &"OK".to_string(),
        &"cardY".to_string(),
    );
    assert!(!retry);
    assert_eq!(seen[9], "cardY");
    assert!(solved.is_empty());
    assert_eq!(pending, "");
    assert_eq!(pending_index, -1);
}

#[test]
fn error_message_requests_retry_without_changes() {
    let mut seen = empty_board();
    seen[2] = "cardX".to_string();
    let mut solved: HashSet<usize> = HashSet::new();
    let mut pending = "cardX".to_string();
    let mut pending_index: isize = 2;
    let retry = apply_click_result(
        &mut seen,
        &mut solved,
        &mut pending,
        &mut pending_index,
        9,
        &"ERROR".to_string(),
        &"cardY".to_string(),
    );
    assert!(retry);
    assert_eq!(seen[9], "");
    assert!(solved.is_empty());
    assert_eq!(pending, "cardX");
    assert_eq!(pending_index, 2);
}

#[test]
fn empty_card_identity_requests_retry_without_changes() {
    let mut seen = empty_board();
    let mut solved: HashSet<usize> = HashSet::new();
    let mut pending = String::new();
    let mut pending_index: isize = -1;
    let retry = apply_click_result(
        &mut seen,
        &mut solved,
        &mut pending,
        &mut pending_index,
        4,
        &"OK".to_string(),
        &String::new(),
    );
    assert!(retry);
    assert!(seen.iter().all(|s| s.is_empty()));
    assert!(solved.is_empty());
    assert_eq!(pending, "");
    assert_eq!(pending_index, -1);
}

#[test]
fn no_plays_left_is_rejected() {
    let r = check_plays_available(0);
    match r {
        Err(PuzzleError::Info(m)) => assert_eq!(m, "No available plays left for today."),
        _ => panic!("expected the no-plays error"),
    }
}

#[test]
fn available_plays_are_accepted() {
    assert!(check_plays_available(1).is_ok());
    assert!(check_plays_available(3).is_ok());
}

#[test]
fn no_gacha_rolls_left_is_rejected() {
    let r = check_gacha_available(0);
    match r {
        Err(PuzzleError::Info(m)) => assert_eq!(m, "No gacha attempts left."),
        _ => panic!("expected the no-rolls error"),
    }
}

#[test]
fn available_gacha_rolls_are_accepted() {
    assert!(check_gacha_available(2).is_ok());
}

#[test]
fn rejected_roll_reports_server_message() {
    let r = check_roll_accepted(&"Maintenance".to_string());
    match r {
        Err(PuzzleError::Info(m)) => assert_eq!(m, "Error from server: Maintenance"),
        _ => panic!("expected the server error"),
    }
    assert!(check_roll_accepted(&"OK".to_string()).is_ok());
}

#[test]
fn provided_token_wins() {
    let r = resolve_auth_token(&"abc".to_string(), &"from-config".to_string());
    assert_eq!(r.unwrap(), "abc");
}

#[test]
fn configured_token_used_when_none_provided() {
    let r = resolve_auth_token(&String::new(), &"from-config".to_string());
    assert_eq!(r.unwrap(), "from-config");
}

#[test]
fn missing_token_is_an_error() {
    let r = resolve_auth_token(&String::new(), &String::new());
    assert!(matches!(r, Err(PuzzleError::AuthTokenMissing)));
}

#[test]
fn accepted_roll_envelope_passes_and_rejected_one_aborts() {
    let accepted: GflEndpointResponse<GachaData> = GflEndpointResponse {
        code: 0,
        message: "OK".to_string(),
        data: GachaData {
            is_code: 0,
            name: "Trophy".to_string(),
            pic: String::new(),
            record_id: 12,
        },
    };
    assert!(check_roll_accepted(&accepted.message).is_ok());
    assert_eq!(accepted.data.name, "Trophy");

    let rejected: GflEndpointResponse<bool> = GflEndpointResponse {
        code: 1,
        message: "Busy".to_string(),
        data: false,
    };
    match check_roll_accepted(&rejected.message) {
        Err(PuzzleError::Info(m)) => assert_eq!(m, "Error from server: Busy"),
        _ => panic!("expected the server error"),
    }
}

#[test]
fn configured_token_comes_from_the_config_record() {
    let config = PuzzleConfig {
        auth_token: "stored-token".to_string(),
    };
    let r = resolve_auth_token(&String::new(), &config.auth_token);
    assert_eq!(r.unwrap(), "stored-token");
}

#[test]
fn attempts_translate_to_counts() {
    assert_eq!(planned_attempts(Attempts::Skip, 5), 0);
    assert_eq!(planned_attempts(Attempts::One, 5), 1);
    assert_eq!(planned_attempts(Attempts::All, 5), 5);
}
