//! Reconstruction of the board state from a server snapshot.
//!
//! A snapshot is the per-cell list of card identities the service reports,
//! the empty string standing for a cell not yet revealed this session. From
//! it the tracker rebuilds which cells are already matched, whether the game
//! is still worth resuming, and whether one revealed-but-unpaired card is
//! outstanding.

use vstd::prelude::*;
use vstd::set_lib::{set_int_range, lemma_int_range, lemma_len_subset};
use std::collections::HashSet;
use crate::data::InfoData;

verus! {

broadcast use vstd::std_specs::hash::group_hash_axioms;

/// Number of cells on the board.
pub const BOARD_SIZE: usize = 16;

/// Number of matched pairs at which a game counts as finished.
pub const PAIR_TARGET: usize = BOARD_SIZE / 2;

/// Server flag value confirming an outstanding unresolved reveal.
pub const PENDING_CONFIRMED_FLAG: i32 = 2;

/// The snapshot covers the whole board, one identity per cell.
pub open spec fn board_full(info: Seq<Seq<char>>) -> bool {
    info.len() == BOARD_SIZE
}

/// Cell `i` reports a revealed (non-empty) identity.
pub open spec fn cell_revealed(info: Seq<Seq<char>>, i: int) -> bool {
    info[i].len() > 0
}

/// Some cell strictly above `i` reports the same identity.
pub open spec fn has_equal_above(info: Seq<Seq<char>>, i: int) -> bool {
    exists|j: int| i < j < info.len() && info[j] == info[i]
}

/// Some other cell reports the same identity as cell `i`.
pub open spec fn has_equal_elsewhere(info: Seq<Seq<char>>, i: int) -> bool {
    exists|j: int| 0 <= j < info.len() && j != i && info[j] == info[i]
}

/// Cell `i` is reconstructed as matched: it is revealed and its identity
/// also appears in some other cell.
pub open spec fn cell_matched(info: Seq<Seq<char>>, i: int) -> bool {
    &&& 0 <= i < info.len()
    &&& cell_revealed(info, i)
    &&& has_equal_elsewhere(info, i)
}

/// The set of cell indices reconstructed as matched.
pub open spec fn matched_cells(info: Seq<Seq<char>>) -> Set<int> {
    Set::new(|i: int| cell_matched(info, i))
}

/// Matched pairs found among the cells below `n`, each pair counted once at
/// its lower index.
pub open spec fn pair_count_below(info: Seq<Seq<char>>, n: int) -> int
    decreases n,
{
    if n <= 0 {
        0
    } else {
        pair_count_below(info, n - 1) + if cell_revealed(info, n - 1) && has_equal_above(
            info,
            n - 1,
        ) {
            1int
        } else {
            0int
        }
    }
}

/// Matched pairs found in the whole snapshot.
pub open spec fn pair_count(info: Seq<Seq<char>>) -> int {
    pair_count_below(info, info.len() as int)
}

/// The game is reconstructed as still ongoing: the snapshot is well-shaped
/// and fewer pairs are matched than a finished board would show.
pub open spec fn reconstruction_ongoing(info: Seq<Seq<char>>) -> bool {
    board_full(info) && pair_count(info) < PAIR_TARGET
}

/// Cell `i` is a candidate pending reveal: revealed, with no equal identity
/// in any higher cell.
pub open spec fn pending_candidate(info: Seq<Seq<char>>, i: int) -> bool {
    &&& 0 <= i < info.len()
    &&& cell_revealed(info, i)
    &&& !has_equal_above(info, i)
}

/// The highest-indexed candidate pending reveal below `n`, or -1 when none
/// exists there.
pub open spec fn last_candidate_below(info: Seq<Seq<char>>, n: int) -> int
    decreases n,
{
    if n <= 0 {
        -1
    } else if pending_candidate(info, n - 1) {
        n - 1
    } else {
        last_candidate_below(info, n - 1)
    }
}

/// The last candidate below `n` is either absent (-1) or a cell below `n`.
proof fn lemma_last_candidate_below_range(info: Seq<Seq<char>>, n: int)
    requires
        n >= 0,
    ensures
        -1 <= last_candidate_below(info, n) < n,
    decreases n,
{
    if n > 0 && !pending_candidate(info, n - 1) {
        lemma_last_candidate_below_range(info, n - 1);
    }
}

/// The candidate pending reveal the whole snapshot leaves behind.
pub open spec fn last_candidate(info: Seq<Seq<char>>) -> int {
    last_candidate_below(info, info.len() as int)
}

/// The pending-reveal index the reconstruction reports: the last candidate,
/// kept only when the server flag confirms an outstanding reveal.
pub open spec fn reported_pending_index(info: Seq<Seq<char>>, flag: i32) -> int {
    if board_full(info) && flag == PENDING_CONFIRMED_FLAG && last_candidate(info) >= 0 {
        last_candidate(info)
    } else {
        -1
    }
}

/// The pending-reveal identity the reconstruction reports.
pub open spec fn reported_pending_id(info: Seq<Seq<char>>, flag: i32) -> Seq<char> {
    if reported_pending_index(info, flag) >= 0 {
        info[reported_pending_index(info, flag)]
    } else {
        Seq::<char>::empty()
    }
}

/// A snapshot is well-formed when no identity appears on more than two
/// cells: any three distinct cells that agree must all be unrevealed.
pub open spec fn well_formed_snapshot(info: Seq<Seq<char>>) -> bool {
    forall|i: int, j: int, k: int|
        #![trigger info[i], info[j], info[k]]
        0 <= i < info.len() && 0 <= j < info.len() && 0 <= k < info.len() && i != j && j != k
            && i != k && info[i] == info[j] && info[j] == info[k] ==> info[i].len() == 0
}

/// The other cell holding the same identity as cell `k`.
pub open spec fn partner_of(info: Seq<Seq<char>>, k: int) -> int {
    choose|m: int| 0 <= m < info.len() && m != k && info[m] == info[k]
}

/// In a well-formed snapshot, a matched cell's partner is itself matched,
/// differs from the cell, shows the same identity, and leads back to it.
proof fn lemma_partner_involution(info: Seq<Seq<char>>, k: int)
    requires
        well_formed_snapshot(info),
        cell_matched(info, k),
    ensures
        cell_matched(info, partner_of(info, k)),
        partner_of(info, k) != k,
        info[partner_of(info, k)] == info[k],
        partner_of(info, partner_of(info, k)) == k,
{
    assert(has_equal_elsewhere(info, k));
    assert(exists|m: int| 0 <= m < info.len() && m != k && info[m] == info[k]);
    let m = partner_of(info, k);
    assert(0 <= m < info.len() && m != k && info[m] == info[k]);
    assert(cell_matched(info, m)) by {
        assert(0 <= k < info.len() && k != m && info[k] == info[m]);
    }
    assert(exists|x: int| 0 <= x < info.len() && x != m && info[x] == info[m]) by {
        assert(0 <= k < info.len() && k != m && info[k] == info[m]);
    }
    let m2 = partner_of(info, m);
    assert(0 <= m2 < info.len() && m2 != m && info[m2] == info[m]);
    if m2 != k {
        assert(info[k].len() > 0);
        assert(info[k] == info[m] && info[m] == info[m2]);
        assert(info[k].len() == 0);
        assert(false);
    }
}

/// A finite set carrying a fixed-point-free involution into itself has an
/// even number of elements.
proof fn lemma_involution_even(s: Set<int>, f: spec_fn(int) -> int)
    requires
        s.finite(),
        forall|k: int| #[trigger] s.contains(k) ==> s.contains(f(k)) && f(k) != k && f(f(k))
            == k,
    ensures
        s.len() % 2 == 0,
    decreases s.len(),
{
    if s.len() != 0 {
        let k = s.choose();
        assert(s.contains(k));
        assert(s.contains(f(k)) && f(k) != k && f(f(k)) == k);
        let s1 = s.remove(k);
        assert(s1.contains(f(k)));
        assert(s1.len() == s.len() - 1);
        let s2 = s1.remove(f(k));
        assert(s2.len() == s1.len() - 1);
        assert forall|m: int| #[trigger] s2.contains(m) implies s2.contains(f(m)) && f(m) != m
            && f(f(m)) == m by {
            assert(s.contains(m));
            assert(m != k && m != f(k));
            if f(m) == k {
                assert(f(f(m)) == m);
                assert(f(k) == m);
                assert(false);
            }
            if f(m) == f(k) {
                assert(f(f(m)) == m && f(f(k)) == k);
                assert(false);
            }
            assert(s2.contains(f(m)));
        }
        lemma_involution_even(s2, f);
    }
}

/// Law: a well-formed full snapshot reconstructs a matched set of even
/// size, whose every member is paired with another member showing the same
/// identity.
pub proof fn lemma_matched_cells_even(info: Seq<Seq<char>>)
    requires
        board_full(info),
        well_formed_snapshot(info),
    ensures
        matched_cells(info).finite(),
        matched_cells(info).len() % 2 == 0,
        forall|k: int| #[trigger] matched_cells(info).contains(k) <==> cell_matched(info, k),
        forall|k: int| #[trigger] matched_cells(info).contains(k) ==> exists|m: int|
            matched_cells(info).contains(m) && m != k && info[m] == info[k],
{
    let s = matched_cells(info);
    assert(s.subset_of(set_int_range(0, BOARD_SIZE as int))) by {
        assert forall|k: int| s.contains(k) implies set_int_range(0, BOARD_SIZE as int).contains(
            k,
        ) by {
            assert(cell_matched(info, k));
        }
    }
    lemma_int_range(0, BOARD_SIZE as int);
    lemma_len_subset(s, set_int_range(0, BOARD_SIZE as int));
    let f = |k: int| partner_of(info, k);
    assert forall|k: int| #[trigger] s.contains(k) implies s.contains(f(k)) && f(k) != k && f(
        f(k),
    ) == k by {
        lemma_partner_involution(info, k);
        lemma_partner_involution(info, partner_of(info, k));
        assert(cell_matched(info, partner_of(info, k)));
        assert(s.contains(partner_of(info, k)));
    }
    lemma_involution_even(s, f);
    assert forall|k: int| #[trigger] s.contains(k) implies exists|m: int| s.contains(m) && m
        != k && info[m] == info[k] by {
        lemma_partner_involution(info, k);
        let m = partner_of(info, k);
        assert(s.contains(m) && m != k && info[m] == info[k]);
    }
}

/// The first cell above `i`, scanning upward from `j`, whose identity equals
/// that of cell `i`; -1 when none exists.
pub open spec fn first_equal_above_from(info: Seq<Seq<char>>, i: int, j: int) -> int
    decreases info.len() - j,
{
    if j >= info.len() {
        -1
    } else if info[j] == info[i] {
        j
    } else {
        first_equal_above_from(info, i, j + 1)
    }
}

/// The lowest cell above `i` whose identity equals that of cell `i`.
pub open spec fn first_equal_above(info: Seq<Seq<char>>, i: int) -> int {
    first_equal_above_from(info, i, i + 1)
}

/// Scanning from `start` or from `j` finds the same first equal cell when
/// nothing equal lies in between.
proof fn lemma_first_equal_above_from_skip(info: Seq<Seq<char>>, i: int, start: int, j: int)
    requires
        start <= j,
        forall|m: int| start <= m < j ==> info[m] != info[i],
    ensures
        first_equal_above_from(info, i, start) == first_equal_above_from(info, i, j),
    decreases j - start,
{
    if start < j {
        lemma_first_equal_above_from_skip(info, i, start + 1, j);
    }
}

/// What a non-negative or negative result of `first_equal_above_from` means.
proof fn lemma_first_equal_above_from_spec(info: Seq<Seq<char>>, i: int, j: int)
    requires
        0 <= i < j,
    ensures
        ({
            let f = first_equal_above_from(info, i, j);
            &&& f >= -1
            &&& f == -1 ==> forall|m: int| j <= m < info.len() ==> info[m] != info[i]
            &&& f >= 0 ==> j <= f < info.len() && info[f] == info[i] && forall|m: int|
                j <= m < f ==> info[m] != info[i]
        }),
    decreases info.len() - j,
{
    if j < info.len() && info[j] != info[i] {
        lemma_first_equal_above_from_spec(info, i, j + 1);
    }
}

/// The highest cell below `n`, other than `t`, whose identity equals that of
/// cell `t`; -1 when none exists.
pub open spec fn last_equal_before(info: Seq<Seq<char>>, t: int, n: int) -> int
    decreases n,
{
    if n <= 0 {
        -1
    } else if n - 1 != t && info[n - 1] == info[t] {
        n - 1
    } else {
        last_equal_before(info, t, n - 1)
    }
}

/// What a non-negative or negative result of `last_equal_before` means.
proof fn lemma_last_equal_before_spec(info: Seq<Seq<char>>, t: int, n: int)
    ensures
        ({
            let p = last_equal_before(info, t, n);
            &&& p >= -1
            &&& p == -1 ==> forall|m: int| 0 <= m < n && m != t ==> info[m] != info[t]
            &&& p >= 0 ==> 0 <= p < n && p != t && info[p] == info[t] && forall|m: int|
                p < m < n && m != t ==> info[m] != info[t]
        }),
    decreases n,
{
    if n > 0 && !(n - 1 != t && info[n - 1] == info[t]) {
        lemma_last_equal_before_spec(info, t, n - 1);
    }
}

/// A cell that is matched, yet has no equal cell above it, is itself the
/// first equal cell above its closest equal neighbour below.
proof fn lemma_matched_from_below(info: Seq<Seq<char>>, k: int)
    requires
        cell_matched(info, k),
        !has_equal_above(info, k),
    ensures
        ({
            let p = last_equal_before(info, k, k);
            &&& 0 <= p < k
            &&& cell_revealed(info, p)
            &&& has_equal_above(info, p)
            &&& first_equal_above(info, p) == k
        }),
{
    assert(has_equal_elsewhere(info, k));
    let w = choose|j: int| 0 <= j < info.len() && j != k && info[j] == info[k];
    assert(0 <= w < info.len() && w != k && info[w] == info[k]);
    assert(w < k) by {
        if w > k {
            assert(k < w < info.len() && info[w] == info[k]);
            assert(has_equal_above(info, k));
        }
    }
    let p = last_equal_before(info, k, k);
    lemma_last_equal_before_spec(info, k, k);
    if p == -1 {
        assert(info[w] != info[k]);
        assert(false);
    }
    assert(0 <= p < k);
    assert(info[p] == info[k]);
    assert(has_equal_above(info, p)) by {
        assert(p < k < info.len() && info[k] == info[p]);
    }
    let f = first_equal_above_from(info, p, p + 1);
    lemma_first_equal_above_from_spec(info, p, p + 1);
    assert(f >= 0) by {
        if f == -1 {
            assert(p + 1 <= k < info.len() && info[k] == info[p]);
        }
    }
    if f < k {
        assert(p < f < k && f != k && info[f] == info[k]);
    }
    if f > k {
        assert(p + 1 <= k < f && info[k] == info[p]);
    }
    assert(f == k);
}

/// Finds the lowest cell above `i` holding the same identity as cell `i`,
/// scanning upward as the reconstruction does.
fn find_equal_above(info: &Vec<String>, i: usize) -> (r: Option<usize>)
    requires
        i < info@.len(),
    ensures
        r is Some <==> has_equal_above(info.deep_view(), i as int),
        r matches Some(j) ==> i < j < info@.len() && j as int == first_equal_above(
            info.deep_view(),
            i as int,
        ) && info.deep_view()[j as int] == info.deep_view()[i as int],
{
    let ghost ids = info.deep_view();
    let n = info.len();
    let mut j: usize = i + 1;
    while j < n
        invariant
            ids == info.deep_view(),
            n == info@.len(),
            i < j <= info@.len(),
            forall|m: int| i < m < j ==> ids[m] != ids[i as int],
        decreases info@.len() - j,
    {
        if info[j] == info[i] {
            proof {
                assert(ids[j as int] == ids[i as int]);
                lemma_first_equal_above_from_skip(ids, i as int, i + 1, j as int);
                assert(first_equal_above_from(ids, i as int, j as int) == j);
                assert(has_equal_above(ids, i as int)) by {
                    assert(i < j < ids.len() && ids[j as int] == ids[i as int]);
                }
            }
            return Some(j);
        }
        proof {
            assert(ids[j as int] != ids[i as int]);
        }
        j += 1;
    }
    proof {
        assert(!has_equal_above(ids, i as int));
    }
    None
}

/// Clears the tracker for a fresh game: every cell back to unrevealed and
/// no cell matched.
pub fn reset_tracker(seen: &mut Vec<String>, solved_indices: &mut HashSet<usize>)
    requires
        old(seen)@.len() == BOARD_SIZE,
    ensures
        final(seen)@.len() == BOARD_SIZE,
        forall|k: int| 0 <= k < BOARD_SIZE ==> #[trigger] final(seen)@[k]@ == Seq::<
            char,
        >::empty(),
        final(solved_indices)@ == Set::<usize>::empty(),
{
    let mut i: usize = 0;
    while i < BOARD_SIZE
        invariant
            seen@.len() == BOARD_SIZE,
            i <= BOARD_SIZE,
            forall|k: int| 0 <= k < i ==> #[trigger] seen@[k]@ == Seq::<char>::empty(),
        decreases BOARD_SIZE - i,
    {
        seen[i] = String::new();
        i += 1;
    }
    solved_indices.clear();
}

/// Rebuilds the tracker state from a server snapshot.
///
/// `seen` is overwritten with the reported identities, `solved_indices`
/// gains every cell whose identity appears in another cell, and the result
/// reports whether the game is still ongoing (fewer than eight matched
/// pairs) together with the pending reveal, which is kept only when the
/// server flag confirms one. A snapshot that does not cover the whole board
/// leaves the trackers unchanged and reports a game not worth resuming.
pub fn determine_current_game_state(
    data: &InfoData,
    seen: &mut Vec<String>,
    solved_indices: &mut HashSet<usize>,
) -> (r: (bool, String, isize))
    requires
        old(seen)@.len() == BOARD_SIZE,
    ensures
        ({
            let info = data.play_info.info.deep_view();
            let flag = data.play_info.flag;
            &&& r.0 == reconstruction_ongoing(info)
            &&& r.1@ == reported_pending_id(info, flag)
            &&& r.2 as int == reported_pending_index(info, flag)
            &&& final(seen)@.len() == BOARD_SIZE
            &&& board_full(info) ==> final(seen).deep_view() == info
            &&& !board_full(info) ==> final(seen)@ == old(seen)@ && final(solved_indices)@
                == old(solved_indices)@
            &&& board_full(info) ==> forall|k: usize|
                final(solved_indices)@.contains(k) <==> (old(solved_indices)@.contains(k)
                    || cell_matched(info, k as int))
        }),
{
    let play_info = &data.play_info;
    let flag = play_info.flag;
    let info = &play_info.info;
    let ghost ids = info.deep_view();
    if info.len() != BOARD_SIZE {
        return (false, String::new(), -1);
    }

    let ghost solved0 = solved_indices@;
    let mut not_matched: String = String::new();
    let mut not_matched_index: isize = -1;
    let mut matches: usize = 0;
    let mut i: usize = 0;
    while i < BOARD_SIZE
        invariant
            ids == info.deep_view(),
            ids.len() == BOARD_SIZE,
            i <= BOARD_SIZE,
            seen@.len() == BOARD_SIZE,
            forall|k: int| 0 <= k < i ==> #[trigger] seen@[k]@ == ids[k],
            matches == pair_count_below(ids, i as int),
            matches <= i,
            forall|k: usize| solved0.contains(k) ==> #[trigger] solved_indices@.contains(k),
            forall|k: usize| #[trigger]
                solved_indices@.contains(k) ==> solved0.contains(k) || cell_matched(
                    ids,
                    k as int,
                ),
            forall|k: int|
                0 <= k < i && cell_revealed(ids, k) && #[trigger] has_equal_above(ids, k)
                    ==> solved_indices@.contains(k as usize) && solved_indices@.contains(
                    first_equal_above(ids, k) as usize,
                ),
            not_matched_index as int == last_candidate_below(ids, i as int),
            not_matched_index >= 0 ==> not_matched@ == ids[not_matched_index as int],
            not_matched_index < 0 ==> not_matched@ == Seq::<char>::empty(),
        decreases BOARD_SIZE - i,
    {
        seen[i] = info[i].clone();
        proof {
            assert(seen@[i as int]@ == ids[i as int]);
        }
        if !info[i].as_str().is_empty() {
            proof {
                assert(cell_revealed(ids, i as int));
            }
            match find_equal_above(info, i) {
                Some(j) => {
                    proof {
                        assert(cell_matched(ids, i as int)) by {
                            assert(i < j < ids.len() && ids[j as int] == ids[i as int]);
                        }
                        assert(cell_matched(ids, j as int)) by {
                            assert(0 <= (i as int) < ids.len() && (i as int) != (j as int)
                                && ids[i as int] == ids[j as int]);
                        }
                    }
                    solved_indices.insert(i);
                    solved_indices.insert(j);
                    matches += 1;
                },
                None => {
                    not_matched = info[i].clone();
                    not_matched_index = i as isize;
                },
            }
        } else {
            proof {
                assert(!cell_revealed(ids, i as int));
            }
        }
        i += 1;
    }

    proof {
        assert(seen.deep_view().len() == ids.len());
        assert forall|k: int| 0 <= k < ids.len() implies seen.deep_view()[k] == ids[k] by {
            assert(seen.deep_view()[k] == seen@[k]@);
            assert(seen@[k]@ == ids[k]);
        }
        assert(seen.deep_view() =~= ids);
        assert forall|k: usize| cell_matched(ids, k as int) implies solved_indices@.contains(
            k,
        ) by {
            if has_equal_above(ids, k as int) {
                assert(solved_indices@.contains(k));
            } else {
                lemma_matched_from_below(ids, k as int);
                let p = last_equal_before(ids, k as int, k as int);
                assert(solved_indices@.contains(first_equal_above(ids, p) as usize));
            }
        }
        assert(pair_count(ids) == matches);
        lemma_last_candidate_below_range(ids, BOARD_SIZE as int);
    }

    if flag != PENDING_CONFIRMED_FLAG {
        not_matched = String::new();
        not_matched_index = -1;
    }

    (matches < PAIR_TARGET, not_matched, not_matched_index)
}

} // verus!
