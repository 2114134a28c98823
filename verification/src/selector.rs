//! The move selector: a pure decision function that picks the next cell to
//! click from the tracked board state.
//!
//! Priority order: first try to complete the pending reveal, then click a
//! pair already known from earlier reveals, then explore the lowest unknown
//! cell. When nothing qualifies it reports the sentinel `usize::MAX`.

use vstd::prelude::*;
use std::collections::HashSet;
use crate::board::BOARD_SIZE;

verus! {

broadcast use vstd::std_specs::hash::group_hash_axioms;

/// Cell `i` completes the pending reveal: it shows the pending identity, is
/// not yet matched, and is not the pending cell itself.
pub open spec fn completes_pending(
    s: Seq<Seq<char>>,
    solved: Set<usize>,
    last: Seq<char>,
    li: int,
    i: int,
) -> bool {
    &&& 0 <= i < s.len()
    &&& s[i] == last
    &&& !solved.contains(i as usize)
    &&& i != li
}

/// A pending reveal is present and some cell can complete it.
pub open spec fn pending_completable(
    s: Seq<Seq<char>>,
    solved: Set<usize>,
    last: Seq<char>,
    li: int,
) -> bool {
    last.len() > 0 && exists|i: int| completes_pending(s, solved, last, li, i)
}

/// Cell `i` is the lower cell of a pair already known from earlier reveals:
/// both cells are revealed, unmatched, and show the same identity.
pub open spec fn lower_of_known_pair(s: Seq<Seq<char>>, solved: Set<usize>, i: int) -> bool {
    &&& 0 <= i < s.len()
    &&& !solved.contains(i as usize)
    &&& s[i].len() > 0
    &&& exists|j: int| i < j < s.len() && !solved.contains(j as usize) && s[j] == s[i]
}

/// Some pair is already known from earlier reveals.
pub open spec fn known_pair_exists(s: Seq<Seq<char>>, solved: Set<usize>) -> bool {
    exists|i: int| lower_of_known_pair(s, solved, i)
}

/// Cell `i` is unexplored: not matched and with no known identity.
pub open spec fn unexplored(s: Seq<Seq<char>>, solved: Set<usize>, i: int) -> bool {
    &&& 0 <= i < s.len()
    &&& !solved.contains(i as usize)
    &&& s[i].len() == 0
}

/// Some cell is still unexplored.
pub open spec fn unexplored_exists(s: Seq<Seq<char>>, solved: Set<usize>) -> bool {
    exists|i: int| unexplored(s, solved, i)
}

/// Picks the next cell to click, or `usize::MAX` when no cell qualifies.
///
/// The result is never a matched cell. When the pending reveal can be
/// completed, the lowest completing cell is returned; otherwise, when a pair
/// is already known, the lowest lower-cell of such a pair; otherwise the
/// lowest unexplored cell.
pub fn get_index_to_click(
    seen: &Vec<String>,
    solved_indices: &HashSet<usize>,
    last_seen: &String,
    last_seen_index: isize,
) -> (r: usize)
    requires
        seen@.len() == BOARD_SIZE,
    ensures
        ({
            let s = seen.deep_view();
            let sol = solved_indices@;
            let last = last_seen@;
            let li = last_seen_index as int;
            &&& r != usize::MAX ==> r < BOARD_SIZE && !sol.contains(r)
            &&& pending_completable(s, sol, last, li) ==> completes_pending(
                s,
                sol,
                last,
                li,
                r as int,
            ) && forall|i: int| completes_pending(s, sol, last, li, i) ==> r <= i
            &&& !pending_completable(s, sol, last, li) && known_pair_exists(s, sol)
                ==> lower_of_known_pair(s, sol, r as int) && forall|i: int|
                lower_of_known_pair(s, sol, i) ==> r <= i
            &&& !pending_completable(s, sol, last, li) && !known_pair_exists(s, sol)
                && unexplored_exists(s, sol) ==> unexplored(s, sol, r as int) && forall|i: int|
                unexplored(s, sol, i) ==> r <= i
            &&& !pending_completable(s, sol, last, li) && !known_pair_exists(s, sol)
                && !unexplored_exists(s, sol) ==> r == usize::MAX
        }),
{
    let ghost s = seen.deep_view();
    let ghost sol = solved_indices@;
    let ghost last = last_seen@;
    let ghost li = last_seen_index as int;

    if !last_seen.as_str().is_empty() {
        let mut i: usize = 0;
        while i < BOARD_SIZE
            invariant
                s == seen.deep_view(),
                sol == solved_indices@,
                last == last_seen@,
                li == last_seen_index as int,
                last.len() > 0,
                seen@.len() == BOARD_SIZE,
                i <= BOARD_SIZE,
                forall|m: int| 0 <= m < i ==> !completes_pending(s, sol, last, li, m),
            decreases BOARD_SIZE - i,
        {
            if seen[i] == *last_seen && !solved_indices.contains(&i) && i as isize
                != last_seen_index {
                proof {
                    assert(s[i as int] == seen@[i as int]@);
                    assert(completes_pending(s, sol, last, li, i as int));
                }
                return i;
            }
            proof {
                assert(s[i as int] == seen@[i as int]@);
                assert(!completes_pending(s, sol, last, li, i as int));
            }
            i += 1;
        }
    }
    proof {
        assert(!pending_completable(s, sol, last, li));
    }

    let mut i: usize = 0;
    while i < BOARD_SIZE
        invariant
            s == seen.deep_view(),
            sol == solved_indices@,
            last == last_seen@,
            li == last_seen_index as int,
            seen@.len() == BOARD_SIZE,
            i <= BOARD_SIZE,
            !pending_completable(s, sol, last, li),
            forall|m: int| 0 <= m < i ==> !lower_of_known_pair(s, sol, m),
        decreases BOARD_SIZE - i,
    {
        if !solved_indices.contains(&i) && !seen[i].as_str().is_empty() {
            let mut j: usize = i + 1;
            while j < BOARD_SIZE
                invariant
                    s == seen.deep_view(),
                    sol == solved_indices@,
                    last == last_seen@,
                    li == last_seen_index as int,
                    seen@.len() == BOARD_SIZE,
                    i < j <= BOARD_SIZE,
                    !sol.contains(i),
                    s[i as int].len() > 0,
                    !pending_completable(s, sol, last, li),
                    forall|m: int| 0 <= m < i ==> !lower_of_known_pair(s, sol, m),
                    forall|m: int|
                        i < m < j ==> !(!sol.contains(m as usize) && s[m] == s[i as int]),
                decreases BOARD_SIZE - j,
            {
                if !solved_indices.contains(&j) && !seen[j].as_str().is_empty() && seen[j]
                    == seen[i] {
                    proof {
                        assert(s[j as int] == seen@[j as int]@);
                        assert(s[i as int] == seen@[i as int]@);
                        assert(i < j < s.len() && !sol.contains(j)
                            && s[j as int] == s[i as int]);
                        assert(lower_of_known_pair(s, sol, i as int));
                    }
                    return i;
                }
                proof {
                    assert(s[j as int] == seen@[j as int]@);
                }
                j += 1;
            }
            proof {
                assert(!lower_of_known_pair(s, sol, i as int));
            }
        } else {
            proof {
                assert(s[i as int] == seen@[i as int]@);
                assert(!lower_of_known_pair(s, sol, i as int));
            }
        }
        i += 1;
    }
    proof {
        assert(!known_pair_exists(s, sol));
    }

    let mut i: usize = 0;
    while i < BOARD_SIZE
        invariant
            s == seen.deep_view(),
            sol == solved_indices@,
            last == last_seen@,
            li == last_seen_index as int,
            seen@.len() == BOARD_SIZE,
            i <= BOARD_SIZE,
            !pending_completable(s, sol, last, li),
            !known_pair_exists(s, sol),
            forall|m: int| 0 <= m < i ==> !unexplored(s, sol, m),
        decreases BOARD_SIZE - i,
    {
        if !solved_indices.contains(&i) && seen[i].as_str().is_empty() {
            proof {
                assert(s[i as int] == seen@[i as int]@);
                assert(unexplored(s, sol, i as int));
            }
            return i;
        }
        proof {
            assert(s[i as int] == seen@[i as int]@);
            assert(!unexplored(s, sol, i as int));
        }
        i += 1;
    }
    proof {
        assert(!unexplored_exists(s, sol));
    }

    usize::MAX
}

} // verus!
