//! Instantaneous jumps: where a token that lands on a space goes before the
//! next roll, card by card.

use crate::cards::{chance_deck, chest_deck, CCCard, CHCard, CCCARDS, CHCARDS};
use crate::matrix::{matrix_entries, ProbMatrix};
use crate::probability::{from_ratio, lemma_from_ratio, lemma_sums_to_one, sums_to_one, Probability};
use crate::space::{board, next_in_set, scan_set, space_at, PropertySet, Space, SPACECOUNT};
use crate::tally::{
    count_in, lemma_count_constant, lemma_count_pos, lemma_total_bounds, lemma_total_update,
    lemma_total_zeros, total,
};
use std::collections::VecDeque;
use vstd::prelude::*;

verus! {

/// Cards in a deck: every jump probability is a count of cards over this.
pub const DECK: u64 = 16;

/// `i` is the first position of the board that holds `space`.
pub open spec fn is_first_position(space: Space, i: int) -> bool {
    &&& 0 <= i < SPACECOUNT
    &&& board(i) == space
    &&& forall|j: int| 0 <= j < i ==> board(j) != space
}

/// The first position of the board that holds `space`.
pub open spec fn first_position(space: Space) -> int {
    choose|i: int| is_first_position(space, i)
}

/// The first position is unique.
pub proof fn lemma_first_position(space: Space, i: int)
    requires
        is_first_position(space, i),
    ensures
        first_position(space) == i,
{
    let c = first_position(space);
    assert(is_first_position(space, c));
    if c < i {
        assert(board(c) != space);
    } else if i < c {
        assert(board(i) != space);
    }
}

/// Where a Chance card drawn at `position` sends the token.
pub open spec fn chance_dest(position: int, card: CHCard) -> int {
    match card {
        CHCard::GoGo => first_position(Space::Go),
        CHCard::GoJail => first_position(Space::GoToJail),
        CHCard::GoProperty(set, i) => first_position(Space::Property(set, i)),
        CHCard::GoRail(i) => first_position(Space::Rail(i)),
        CHCard::GoNextRail => next_in_set(position, PropertySet::Station),
        CHCard::GoNextUtil => next_in_set(position, PropertySet::Utility),
        CHCard::Back3 => position - 3,
        CHCard::Inconsequential => position,
    }
}

/// Where a Community Chest card drawn at `position` sends the token.
pub open spec fn chest_dest(position: int, card: CCCard) -> int {
    match card {
        CCCard::GoGo => first_position(Space::Go),
        CCCard::GoJail => first_position(Space::GoToJail),
        CCCard::Inconsequential => position,
    }
}

/// One destination per card for a token landing on `position`: the deck's
/// cards on a card space, otherwise a full deck's worth of staying put (the
/// jail space keeps the token in jail).
pub open spec fn jump_targets(position: int) -> Seq<int> {
    match board(position) {
        Space::Chance(_) => chance_deck().map_values(|c: CHCard| chance_dest(position, c)),
        Space::CommunityChest(_) => chest_deck().map_values(|c: CCCard| chest_dest(position, c)),
        _ => Seq::new(DECK as nat, |k: int| position),
    }
}

/// How many of the sixteen equally likely draws at `from` send the token to `to`.
pub open spec fn jump_count(from: int, to: int) -> nat {
    count_in(jump_targets(from), to)
}

/// How many jumps at most can follow a landing on `position`: two from
/// Chance (which may send the token back to Community Chest), one from
/// Community Chest, none elsewhere.
pub open spec fn jump_rank(position: int) -> int {
    match board(position) {
        Space::Chance(_) => 2,
        Space::CommunityChest(_) => 1,
        _ => 0,
    }
}

/// A Chance card that names a space names one on the board.
pub open spec fn card_on_board(card: CHCard) -> bool {
    match card {
        CHCard::GoProperty(set, i) => exists|k: int|
            0 <= k < SPACECOUNT && board(k) == Space::Property(set, i),
        CHCard::GoRail(i) => exists|k: int| 0 <= k < SPACECOUNT && board(k) == Space::Rail(i),
        _ => true,
    }
}

/// A scan that finds something finds a space of the set it looks for.
pub proof fn lemma_scan_group(position: int, set: PropertySet, k: int)
    requires
        scan_set(position, set, k) >= 0,
        0 <= position,
    ensures
        0 <= scan_set(position, set, k) < SPACECOUNT,
        board(scan_set(position, set, k)).group() == set,
    decreases SPACECOUNT - k,
{
    if k < SPACECOUNT && board((position + k) % (SPACECOUNT as int)).group() != set {
        lemma_scan_group(position, set, k + 1);
    }
}

/// The fixed positions that cards name.
pub proof fn lemma_named_positions()
    ensures
        first_position(Space::Go) == 0,
        first_position(Space::GoToJail) == 30,
        first_position(Space::Property(2, 0)) == 11,
        first_position(Space::Property(4, 2)) == 24,
        first_position(Space::Property(7, 1)) == 39,
        first_position(Space::Rail(0)) == 5,
{
    lemma_first_position(Space::Go, 0);
    lemma_first_position(Space::GoToJail, 30);
    lemma_first_position(Space::Property(2, 0), 11);
    lemma_first_position(Space::Property(4, 2), 24);
    lemma_first_position(Space::Property(7, 1), 39);
    lemma_first_position(Space::Rail(0), 5);
}

/// Every card of the Chance deck that names a space names one on the board.
pub proof fn lemma_chance_cards_on_board()
    ensures
        forall|k: int| 0 <= k < CHCARDS ==> card_on_board(#[trigger] chance_deck()[k]),
{
    assert(board(11) == Space::Property(2, 0));
    assert(board(24) == Space::Property(4, 2));
    assert(board(39) == Space::Property(7, 1));
    assert(board(5) == Space::Rail(0));
    assert forall|k: int| 0 <= k < CHCARDS implies card_on_board(#[trigger] chance_deck()[k]) by {
        if k >= 10 {
            assert(chance_deck()[k] == CHCard::Inconsequential);
        }
    }
}

/// A jump away from a space leads to a space with fewer jumps left to
/// follow; spaces with none keep the token where it is.
pub proof fn lemma_jump_descends(from: int, to: int)
    requires
        0 <= from < SPACECOUNT,
        jump_count(from, to) > 0,
    ensures
        0 <= to < SPACECOUNT,
        to != from ==> jump_rank(to) < jump_rank(from),
{
    lemma_count_pos(jump_targets(from), to);
    let k = choose|k: int| 0 <= k < jump_targets(from).len() && jump_targets(from)[k] == to;
    lemma_named_positions();
    match board(from) {
        Space::Chance(_) => {
            let card = chance_deck()[k];
            assert(to == chance_dest(from, card));
            match card {
                CHCard::GoNextRail => {
                    crate::space::lemma_station_utility_ahead(from);
                    lemma_scan_group(from, PropertySet::Station, 1);
                },
                CHCard::GoNextUtil => {
                    crate::space::lemma_station_utility_ahead(from);
                    lemma_scan_group(from, PropertySet::Utility, 1);
                },
                CHCard::GoProperty(set, i) => {
                    if k >= 10 {
                        assert(chance_deck()[k] == CHCard::Inconsequential);
                    }
                },
                CHCard::GoRail(i) => {
                    if k >= 10 {
                        assert(chance_deck()[k] == CHCard::Inconsequential);
                    }
                },
                _ => {},
            }
        },
        Space::CommunityChest(_) => {
            assert(to == chest_dest(from, chest_deck()[k]));
        },
        _ => {},
    }
}

/// Spaces with no jumps to follow keep the whole deck's worth on themselves.
pub proof fn lemma_rank_zero_stays(from: int, to: int)
    requires
        0 <= from < SPACECOUNT,
        jump_rank(from) == 0,
    ensures
        jump_count(from, to) == if to == from {
            DECK as int
        } else {
            0
        },
{
    lemma_count_constant(jump_targets(from), from, to);
}

/// Where a Chance card drawn at `position` sends the token.
fn chance_target(position: usize, card: CHCard) -> (r: usize)
    requires
        position < SPACECOUNT,
        board(position as int) is Chance,
        card_on_board(card),
    ensures
        r == chance_dest(position as int, card),
        r < SPACECOUNT,
{
    assert(board(0) == Space::Go);
    assert(board(30) == Space::GoToJail);
    match card {
        CHCard::GoGo => {
            let r = Space::find(Space::Go);
            proof {
                lemma_first_position(Space::Go, r as int);
            }
            r
        },
        CHCard::GoJail => {
            let r = Space::find(Space::GoToJail);
            proof {
                lemma_first_position(Space::GoToJail, r as int);
            }
            r
        },
        CHCard::GoProperty(set, i) => {
            let r = Space::find(Space::Property(set, i));
            proof {
                lemma_first_position(Space::Property(set, i), r as int);
            }
            r
        },
        CHCard::GoRail(i) => {
            let r = Space::find(Space::Rail(i));
            proof {
                lemma_first_position(Space::Rail(i), r as int);
            }
            r
        },
        CHCard::GoNextRail => Space::next_rail(position),
        CHCard::GoNextUtil => Space::next_util(position),
        CHCard::Back3 => position - 3,
        CHCard::Inconsequential => position,
    }
}

/// Where a Community Chest card drawn at `position` sends the token.
fn chest_target(position: usize, card: CCCard) -> (r: usize)
    requires
        position < SPACECOUNT,
    ensures
        r == chest_dest(position as int, card),
        r < SPACECOUNT,
{
    assert(board(0) == Space::Go);
    assert(board(30) == Space::GoToJail);
    match card {
        CCCard::GoGo => {
            let r = Space::find(Space::Go);
            proof {
                lemma_first_position(Space::Go, r as int);
            }
            r
        },
        CCCard::GoJail => {
            let r = Space::find(Space::GoToJail);
            proof {
                lemma_first_position(Space::GoToJail, r as int);
            }
            r
        },
        CCCard::Inconsequential => position,
    }
}

/// `n` zero counts.
pub fn zero_counts(n: usize) -> (r: Vec<u64>)
    ensures
        r@.len() == n,
        forall|j: int| 0 <= j < n ==> r@[j] == 0,
        total(r@) == 0,
{
    let mut v: Vec<u64> = Vec::new();
    let mut k: usize = 0;
    while k < n
        invariant
            k <= n,
            v@.len() == k,
            forall|j: int| 0 <= j < k ==> v@[j] == 0,
        decreases n - k,
    {
        v.push(0);
        k = k + 1;
    }
    proof {
        lemma_total_zeros(v@);
    }
    v
}

/// Adds one to count `t`, which stays below `bound`.
fn bump(counts: &mut Vec<u64>, t: usize, bound: u64)
    requires
        t < old(counts)@.len(),
        total(old(counts)@) < bound,
    ensures
        final(counts)@ == old(counts)@.update(t as int, (old(counts)@[t as int] + 1) as u64),
        final(counts)@[t as int] == old(counts)@[t as int] + 1,
        total(final(counts)@) == total(old(counts)@) + 1,
{
    proof {
        lemma_total_bounds(counts@, t as int);
        lemma_total_update(counts@, t as int, (counts@[t as int] + 1) as u64);
    }
    counts.set(t, counts[t] + 1);
}

/// For a token landing on `position`, how many of the deck's draws send it
/// to each position.
pub fn jump_row(position: usize, chdeck: &VecDeque<CHCard>, ccdeck: &VecDeque<CCCard>) -> (r: Vec<
    u64,
>)
    requires
        position < SPACECOUNT,
        chdeck@ == chance_deck(),
        ccdeck@ == chest_deck(),
    ensures
        r@.len() == SPACECOUNT,
        forall|j: int| 0 <= j < SPACECOUNT ==> r@[j] == jump_count(position as int, j),
        total(r@) == DECK,
{
    let mut counts = zero_counts(SPACECOUNT);
    let ghost targets = jump_targets(position as int);
    match space_at(position) {
        Space::Chance(_) => {
            proof {
                lemma_chance_cards_on_board();
            }
            let mut k: usize = 0;
            while k < chdeck.len()
                invariant
                    position < SPACECOUNT,
                    board(position as int) is Chance,
                    chdeck@ == chance_deck(),
                    targets == jump_targets(position as int),
                    targets.len() == CHCARDS,
                    k <= CHCARDS,
                    counts@.len() == SPACECOUNT,
                    forall|j: int| 0 <= j < SPACECOUNT ==> counts@[j] == count_in(targets.take(k as int), j),
                    total(counts@) == k,
                    forall|m: int| 0 <= m < CHCARDS ==> card_on_board(#[trigger] chance_deck()[m]),
                decreases CHCARDS - k,
            {
                let t = chance_target(position, chdeck[k]);
                assert(targets[k as int] == t);
                assert(targets.take(k as int + 1).drop_last() == targets.take(k as int));
                assert(targets.take(k as int + 1).last() == t);
                let ghost before = counts@;
                bump(&mut counts, t, DECK);
                assert forall|j: int| 0 <= j < SPACECOUNT implies counts@[j] == count_in(
                    targets.take(k as int + 1),
                    j,
                ) by {
                    assert(count_in(targets.take(k as int + 1), j) == count_in(
                        targets.take(k as int),
                        j,
                    ) + if t == j {
                        1nat
                    } else {
                        0nat
                    });
                    assert(before[j] == count_in(targets.take(k as int), j));
                    if t == j {
                        assert(counts@[j] == before[j] + 1);
                    } else {
                        assert(counts@[j] == before[j]);
                    }
                }
                k = k + 1;
            }
            assert(targets.take(CHCARDS as int) == targets);
        },
        Space::CommunityChest(_) => {
            let mut k: usize = 0;
            while k < ccdeck.len()
                invariant
                    position < SPACECOUNT,
                    board(position as int) is CommunityChest,
                    ccdeck@ == chest_deck(),
                    targets == jump_targets(position as int),
                    targets.len() == CCCARDS,
                    k <= CCCARDS,
                    counts@.len() == SPACECOUNT,
                    forall|j: int| 0 <= j < SPACECOUNT ==> counts@[j] == count_in(targets.take(k as int), j),
                    total(counts@) == k,
                decreases CCCARDS - k,
            {
                let t = chest_target(position, ccdeck[k]);
                assert(targets[k as int] == t);
                assert(targets.take(k as int + 1).drop_last() == targets.take(k as int));
                assert(targets.take(k as int + 1).last() == t);
                let ghost before = counts@;
                bump(&mut counts, t, DECK);
                assert forall|j: int| 0 <= j < SPACECOUNT implies counts@[j] == count_in(
                    targets.take(k as int + 1),
                    j,
                ) by {
                    assert(count_in(targets.take(k as int + 1), j) == count_in(
                        targets.take(k as int),
                        j,
                    ) + if t == j {
                        1nat
                    } else {
                        0nat
                    });
                    assert(before[j] == count_in(targets.take(k as int), j));
                    if t == j {
                        assert(counts@[j] == before[j] + 1);
                    } else {
                        assert(counts@[j] == before[j]);
                    }
                }
                k = k + 1;
            }
            assert(targets.take(CCCARDS as int) == targets);
        },
        _ => {
            proof {
                lemma_total_update(counts@, position as int, DECK);
                assert forall|j: int| 0 <= j < SPACECOUNT implies jump_count(position as int, j) == (if j
                    == position {
                    DECK as int
                } else {
                    0
                }) by {
                    lemma_rank_zero_stays(position as int, j);
                }
            }
            counts.set(position, DECK);
        },
    }
    counts
}

/// For every position, how many of the deck's draws send a token landing
/// there to each position.
pub fn jump_table() -> (r: Vec<Vec<u64>>)
    ensures
        r@.len() == SPACECOUNT,
        forall|i: int|
            0 <= i < SPACECOUNT ==> {
                &&& (#[trigger] r@[i])@.len() == SPACECOUNT
                &&& forall|j: int| 0 <= j < SPACECOUNT ==> r@[i]@[j] == jump_count(i, j)
                &&& total(r@[i]@) == DECK
            },
{
    let chdeck = CHCard::build_deck();
    let ccdeck = CCCard::build_deck();
    let mut table: Vec<Vec<u64>> = Vec::new();
    let mut i: usize = 0;
    while i < SPACECOUNT
        invariant
            i <= SPACECOUNT,
            chdeck@ == chance_deck(),
            ccdeck@ == chest_deck(),
            table@.len() == i,
            forall|m: int|
                0 <= m < i ==> {
                    &&& (#[trigger] table@[m])@.len() == SPACECOUNT
                    &&& forall|j: int| 0 <= j < SPACECOUNT ==> table@[m]@[j] == jump_count(m, j)
                    &&& total(table@[m]@) == DECK
                },
        decreases SPACECOUNT - i,
    {
        let row = jump_row(i, &chdeck, &ccdeck);
        table.push(row);
        i = i + 1;
    }
    table
}

/// The 40×40 jump matrix from a jump table: entry (i, j) is the probability
/// that a token landing on space i is sent to space j by one draw.
pub fn build_jumpmat(table: &Vec<Vec<u64>>) -> (m: ProbMatrix)
    requires
        table@.len() == SPACECOUNT,
        forall|i: int|
            0 <= i < SPACECOUNT ==> {
                &&& (#[trigger] table@[i])@.len() == SPACECOUNT
                &&& forall|j: int| 0 <= j < SPACECOUNT ==> table@[i]@[j] == jump_count(i, j)
                &&& total(table@[i]@) == DECK
            },
    ensures
        matrix_entries(m).len() == SPACECOUNT,
        forall|i: int|
            0 <= i < SPACECOUNT ==> {
                &&& (#[trigger] matrix_entries(m)[i]).len() == SPACECOUNT
                &&& forall|j: int|
                    0 <= j < SPACECOUNT ==> matrix_entries(m)[i][j] == from_ratio(
                        jump_count(i, j) as int,
                        DECK as int,
                    )
                &&& sums_to_one(matrix_entries(m)[i])
            },
{
    let mut m = ProbMatrix::filled(SPACECOUNT, SPACECOUNT, Probability::zero());
    let mut i: usize = 0;
    while i < SPACECOUNT
        invariant
            i <= SPACECOUNT,
            table@.len() == SPACECOUNT,
            forall|r: int|
                0 <= r < SPACECOUNT ==> {
                    &&& (#[trigger] table@[r])@.len() == SPACECOUNT
                    &&& forall|j: int| 0 <= j < SPACECOUNT ==> table@[r]@[j] == jump_count(r, j)
                    &&& total(table@[r]@) == DECK
                },
            matrix_entries(m).len() == SPACECOUNT,
            forall|r: int| 0 <= r < SPACECOUNT ==> (#[trigger] matrix_entries(m)[r]).len() == SPACECOUNT,
            forall|r: int, c: int|
                0 <= r < i && 0 <= c < SPACECOUNT ==> #[trigger] matrix_entries(m)[r][c]
                    == from_ratio(jump_count(r, c) as int, DECK as int),
        decreases SPACECOUNT - i,
    {
        let mut j: usize = 0;
        while j < SPACECOUNT
            invariant
                i < SPACECOUNT,
                j <= SPACECOUNT,
                table@.len() == SPACECOUNT,
                forall|r: int|
                    0 <= r < SPACECOUNT ==> {
                        &&& (#[trigger] table@[r])@.len() == SPACECOUNT
                        &&& forall|j: int| 0 <= j < SPACECOUNT ==> table@[r]@[j] == jump_count(r, j)
                        &&& total(table@[r]@) == DECK
                    },
                matrix_entries(m).len() == SPACECOUNT,
                forall|r: int| 0 <= r < SPACECOUNT ==> (#[trigger] matrix_entries(m)[r]).len() == SPACECOUNT,
                forall|r: int, c: int|
                    (0 <= r < i && 0 <= c < SPACECOUNT) || (r == i && 0 <= c < j) ==> #[trigger] matrix_entries(m)[r][c]
                        == from_ratio(jump_count(r, c) as int, DECK as int),
            decreases SPACECOUNT - j,
        {
            let count = table[i][j];
            proof {
                lemma_total_bounds(table@[i as int]@, j as int);
            }
            let p = Probability::new(count as i64, DECK);
            m.set(i, j, p);
            j = j + 1;
        }
        i = i + 1;
    }
    proof {
        assert forall|r: int| 0 <= r < SPACECOUNT implies sums_to_one(#[trigger] matrix_entries(m)[r]) by {
            let row = matrix_entries(m)[r];
            let c = table@[r]@;
            assert forall|k: int| 0 <= k < row.len() implies (#[trigger] row[k]).den() > 0 && row[k].represents(c[k] as int, DECK as int) by {
                lemma_total_bounds(c, k);
                lemma_from_ratio(c[k] as int, DECK as int);
            }
            lemma_sums_to_one(row, c, DECK as int);
        }
    }
    m
}

} // verus!
