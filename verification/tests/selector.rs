use std::collections::HashSet;

use leva_memory_puzzle::selector::get_index_to_click;

fn empty_board() -> Vec<String> {
    vec![String::new(); 16]
}

#[test]
fn pending_match_picks_lowest_equal_cell() {
    let mut seen = empty_board();
    seen[2] = "cardX".to_string();
    seen[9] = "cardX".to_string();
    let solved: HashSet<usize> = HashSet::new();
    let pending = "cardX".to_string();
    let index = get_index_to_click(&seen, &solved, &pending, 9);
    assert_eq!(index, 2);
}

#[test]
fn pending_match_skips_the_pending_cell_itself() {
    let mut seen = empty_board();
    seen[4] = "cardX".to_string();
    let solved: HashSet<usize> = HashSet::new();
    let pending = "cardX".to_string();
    let index = get_index_to_click(&seen, &solved, &pending, 4);
    assert_eq!(index, 0);
}

#[test]
fn pending_match_skips_matched_cells() {
    let mut seen = empty_board();
    seen[2] = "cardX".to_string();
    seen[9] = "cardX".to_string();
    seen[12] = "cardX".to_string();
    let mut solved: HashSet<usize> = HashSet::new();
    solved.insert(2);
    let pending = "cardX".to_string();
    let index = get_index_to_click(&seen, &solved, &pending, 9);
    assert_eq!(index, 12);
}

#[test]
fn known_pair_beats_exploration() {
    let mut seen = empty_board();
    seen[3] = "cardA".to_string();
    seen[8] = "cardA".to_string();
    let solved: HashSet<usize> = HashSet::new();
    let pending = String::new();
    let index = get_index_to_click(&seen, &solved, &pending, -1);
    assert_eq!(index, 3);
}

#[test]
fn exploration_picks_lowest_unknown_unmatched() {
    let mut seen = empty_board();
    seen[0] = "cardA".to_string();
    seen[5] = "cardA".to_string();
    let mut solved: HashSet<usize> = HashSet::new();
    solved.insert(0);
    solved.insert(5);
    let pending = String::new();
    let index = get_index_to_click(&seen, &solved, &pending, -1);
    assert_eq!(index, 1);
}

#[test]
fn selected_index_is_never_matched() {
    let mut seen = empty_board();
    seen[0] = "cardA".to_string();
    seen[1] = "cardB".to_string();
    let mut solved: HashSet<usize> = HashSet::new();
    solved.insert(0);
    solved.insert(1);
    solved.insert(2);
    let pending = String::new();
    let index = get_index_to_click(&seen, &solved, &pending, -1);
    assert!(index != usize::MAX);
    assert!(!solved.contains(&index));
    assert_eq!(index, 3);
}

#[test]
fn fully_matched_board_has_no_move() {
    let seen: Vec<String> = (0..16).map(|i| format!("card{}", i / 2)).collect();
    let solved: HashSet<usize> = (0..16).collect();
    let pending = String::new();
    let index = get_index_to_click(&seen, &solved, &pending, -1);
    assert_eq!(index, usize::MAX);
}
