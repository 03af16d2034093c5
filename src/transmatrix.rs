//! The transition matrices over canonical states: dice movement alone, and
//! dice movement followed by every chain of jumps.

use crate::dice::{dice_rolls, face_pairs, roll_pairs, DiceValue};
use crate::jump::{build_jumpmat, jump_count, jump_rank, jump_table, lemma_jump_descends, lemma_rank_zero_stays, DECK};
use crate::matrix::{matrix_entries, ProbMatrix};
use crate::probability::{from_ratio, lemma_from_ratio, lemma_sums_to_one, sums_to_one, Probability};
use crate::space::SPACECOUNT;
use crate::state::{
    canonical, index_of, lemma_index_injective, state_count, state_index, State, JAIL, VISIT,
};
use crate::strategy::Strategy;
use crate::tally::{lemma_total_bounds, lemma_total_prefix, lemma_total_update, total};
use vstd::prelude::*;

verus! {

/// The state after rolling `sum` (a double or not) from `start`, before any
/// jump: the jail rules, then the doubles rule, then the move itself.
pub open spec fn move_spec(strategy: Strategy, start: State, sum: int, double: bool) -> State {
    if start.position == JAIL {
        match strategy {
            Strategy::JailWait => if double {
                State { position: (VISIT + sum) as usize, doubles: 0, jailroll: 0 }
            } else if start.jailroll + 1 == 3 {
                State { position: VISIT, doubles: 0, jailroll: 0 }
            } else {
                State { position: JAIL, doubles: 0, jailroll: (start.jailroll + 1) as u8 }
            },
            Strategy::PayJail => State {
                position: (VISIT + sum) as usize,
                doubles: if double {
                    1
                } else {
                    0
                },
                jailroll: 0,
            },
        }
    } else {
        let doubles = if double {
            start.doubles + 1
        } else {
            0
        };
        if doubles == 3 {
            State { position: JAIL, doubles: 0, jailroll: 0 }
        } else {
            let position = (start.position + sum) % (SPACECOUNT as int);
            State {
                position: position as usize,
                doubles: if position == JAIL {
                    0
                } else {
                    doubles as u8
                },
                jailroll: 0,
            }
        }
    }
}

/// The state after rolling `sum`, a double or not, from `start`, before any
/// jump is followed.
pub fn move_state(strategy: Strategy, start: &State, sum: u8, double: bool) -> (r: State)
    requires
        canonical(strategy, *start),
        2 <= sum <= 12,
    ensures
        r == move_spec(strategy, *start, sum as int, double),
        canonical(strategy, r),
{
    if start.position == JAIL {
        match strategy {
            Strategy::JailWait => {
                if double {
                    State::new(0, VISIT + sum as usize, 0)
                } else {
                    let jailrolls = start.jailroll + 1;
                    if jailrolls == 3 {
                        State::new(0, VISIT, 0)
                    } else {
                        State::new(0, JAIL, jailrolls)
                    }
                }
            },
            Strategy::PayJail => State::new(
                if double {
                    1
                } else {
                    0
                },
                VISIT + sum as usize,
                0,
            ),
        }
    } else {
        let mut doubles: u8 = if !double {
            0
        } else {
            start.doubles + 1
        };
        if doubles == 3 {
            State::new(0, JAIL, 0)
        } else {
            let position = (start.position + sum as usize) % SPACECOUNT;
            if position == JAIL {
                doubles = 0;
            }
            State::new(doubles, position, 0)
        }
    }
}

/// The factor by which a weight must divide so that every chain of jumps
/// from a space of the given rank splits it into whole parts.
pub open spec fn rank_scale(rank: int) -> int {
    if rank <= 0 {
        1
    } else if rank == 1 {
        DECK as int
    } else {
        (DECK * DECK) as int
    }
}

/// Weight of one roll: the deck size squared, so that the shares of two
/// chained draws, the most any landing leads to, stay whole.
pub const ROLL_WEIGHT: u64 = 256;

/// Weight of all 36 rolls: the total of a row of the combined matrix and the
/// common denominator of its entries.
pub const COMBINED_SCALE: u64 = 9216;

/// The jump table as `jump_table` describes it.
pub open spec fn is_jump_table(table: Seq<Vec<u64>>) -> bool {
    &&& table.len() == SPACECOUNT
    &&& forall|i: int|
        0 <= i < SPACECOUNT ==> {
            &&& (#[trigger] table[i])@.len() == SPACECOUNT
            &&& forall|j: int| 0 <= j < SPACECOUNT ==> table[i]@[j] == jump_count(i, j)
            &&& total(table[i]@) == DECK
        }
}

/// The state a jump from `s` to position `to` leaves the token in: doubles
/// are cleared on the jail space, the jail roll is carried.
pub open spec fn jump_child(s: State, to: int) -> State {
    State {
        position: to as usize,
        doubles: if to == JAIL {
            0
        } else {
            s.doubles
        },
        jailroll: s.jailroll,
    }
}

/// Of `weight` carried by raw state `s`, the part that comes to rest at the
/// state with index `t` through draws sending the token to positions `j`
/// onwards: a draw that keeps the token in place rests it in `s`; any other
/// leads on, with its share, to the space it sends the token to. Such a
/// space always has a lower rank (`lemma_jump_descends`), which is what
/// ends the recursion.
pub open spec fn settle_from(strategy: Strategy, s: State, weight: int, t: int, j: int) -> int
    decreases jump_rank(s.position as int), SPACECOUNT - j,
{
    if j < 0 || j >= SPACECOUNT {
        0
    } else {
        let pos = s.position as int;
        let share = weight * jump_count(pos, j) / (DECK as int);
        let here = if jump_count(pos, j) == 0 {
            0
        } else if j == pos {
            if state_index(strategy, s) == t {
                share
            } else {
                0
            }
        } else if jump_rank(jump_child(s, j).position as int) < jump_rank(pos) {
            settle_from(strategy, jump_child(s, j), share, t, 0)
        } else {
            0
        };
        here + settle_from(strategy, s, weight, t, j + 1)
    }
}

/// Of `weight` carried by raw state `s`, the part that comes to rest at the
/// state with index `t` once every chain of jumps has been followed.
pub open spec fn settle(strategy: Strategy, s: State, weight: int, t: int) -> int {
    settle_from(strategy, s, weight, t, 0)
}

/// Follows every chain of jumps from `state`, which carries `weight`, and
/// adds each resting state's share of it to `row`, indexed by canonical
/// state. The whole weight is shared out.
pub fn process_jumps(
    strategy: Strategy,
    table: &Vec<Vec<u64>>,
    state: State,
    weight: u64,
    row: &mut Vec<u64>,
)
    requires
        is_jump_table(table@),
        canonical(strategy, state),
        old(row)@.len() == state_count(strategy),
        (weight as int) % rank_scale(jump_rank(state.position as int)) == 0,
        total(old(row)@) + weight <= COMBINED_SCALE,
    ensures
        final(row)@.len() == old(row)@.len(),
        total(final(row)@) == total(old(row)@) + weight,
        forall|t: int|
            0 <= t < old(row)@.len() ==> #[trigger] final(row)@[t] == old(row)@[t] + settle(
                strategy,
                state,
                weight as int,
                t,
            ),
    decreases jump_rank(state.position as int),
{
    let pos = state.position;
    let ghost start = row@;
    let ghost counts = table@[pos as int]@;
    let mut j: usize = 0;
    while j < SPACECOUNT
        invariant
            is_jump_table(table@),
            canonical(strategy, state),
            pos == state.position,
            counts == table@[pos as int]@,
            (weight as int) % rank_scale(jump_rank(pos as int)) == 0,
            total(start) + weight <= COMBINED_SCALE,
            j <= SPACECOUNT,
            row@.len() == start.len(),
            start.len() == state_count(strategy),
            (total(row@) - total(start)) * DECK == weight * total(counts.take(j as int)),
            total(row@) >= total(start),
            forall|t: int|
                0 <= t < start.len() ==> #[trigger] row@[t] + settle_from(
                    strategy,
                    state,
                    weight as int,
                    t,
                    j as int,
                ) == start[t] + settle(strategy, state, weight as int, t),
        decreases SPACECOUNT - j,
    {
        let c = table[pos][j];
        proof {
            lemma_total_bounds(counts, j as int);
            lemma_total_prefix(counts, j as int);
            lemma_jump_descends_if(pos as int, j as int);
            crate::tally::lemma_total_nonneg(counts.take(j as int));
            if jump_rank(pos as int) == 0 {
                lemma_rank_zero_stays(pos as int, j as int);
            }
            lemma_share_exact(weight as int, c as int, jump_rank(pos as int), j == pos);
        }
        assert(total(counts.take(j as int)) + c <= DECK) by {
            lemma_prefix_le_total(counts, j as int + 1);
        }
        let ghost before = row@;
        assert forall|t: int| 0 <= t < start.len() implies #[trigger] settle_from(
            strategy,
            state,
            weight as int,
            t,
            j as int,
        ) == settle_from(strategy, state, weight as int, t, j as int + 1) + (if c == 0 {
            0
        } else if j == pos {
            if state_index(strategy, state) == t {
                (weight as int) * (c as int) / (DECK as int)
            } else {
                0
            }
        } else {
            settle(strategy, jump_child(state, j as int), (weight as int) * (c as int) / (DECK as int), t)
        }) by {
            if c != 0 && j != pos {
                lemma_jump_descends(pos as int, j as int);
            }
        }
        if c != 0 {
            proof {
                crate::tally::lemma_total_nonneg(start);
                lemma_share_bound(weight as int, c as int, total(counts.take(j as int)), total(row@)
                    - total(start), total(start));
            }
            let w = weight * c / DECK;
            let doubles = if j == JAIL {
                0
            } else {
                state.doubles
            };
            let next = State::new(doubles, j, state.jailroll);
            if j == pos {
                assert(next == state);
                let idx = index_of(strategy, &next);
                let k = idx.unwrap();
                proof {
                    lemma_total_bounds(row@, k as int);
                    lemma_total_update(row@, k as int, (row@[k as int] + w) as u64);
                }
                row.set(k, row[k] + w);
            } else {
                proof {
                    lemma_jump_descends(pos as int, j as int);
                }
                assert(next == jump_child(state, j as int));
                process_jumps(strategy, table, next, w, row);
            }
        }
        assert forall|t: int| 0 <= t < start.len() implies #[trigger] row@[t] + settle_from(
            strategy,
            state,
            weight as int,
            t,
            j as int + 1,
        ) == start[t] + settle(strategy, state, weight as int, t) by {
            assert(before[t] + settle_from(strategy, state, weight as int, t, j as int) == start[t]
                + settle(strategy, state, weight as int, t));
        }
        j = j + 1;
    }
    assert(counts.take(SPACECOUNT as int) == counts);
    assert(total(row@) - total(start) == weight) by (nonlinear_arith)
        requires
            (total(row@) - total(start)) * 16 == weight * 16,
    ;
}

/// A count that is positive away from `from` leads to a lower rank.
proof fn lemma_jump_descends_if(from: int, to: int)
    requires
        0 <= from < SPACECOUNT,
        0 <= to < SPACECOUNT,
    ensures
        jump_count(from, to) > 0 && to != from ==> jump_rank(to) < jump_rank(from),
        jump_rank(from) >= 0,
        jump_rank(from) <= 2,
{
    if jump_count(from, to) > 0 {
        lemma_jump_descends(from, to);
    }
}

/// A prefix of counts totals no more than the whole.
proof fn lemma_prefix_le_total(s: Seq<u64>, k: int)
    requires
        0 <= k <= s.len(),
    ensures
        total(s.take(k)) <= total(s),
    decreases s.len() - k,
{
    if k < s.len() {
        lemma_total_prefix(s, k);
        lemma_prefix_le_total(s, k + 1);
    } else {
        assert(s.take(k) == s);
    }
}

/// The share `weight · c / 16` is whole, and divides as finely as the
/// rank below needs.
proof fn lemma_share_exact(weight: int, c: int, rank: int, is_self: bool)
    requires
        0 <= weight,
        0 <= c <= DECK,
        0 <= rank <= 2,
        weight % rank_scale(rank) == 0,
        rank == 0 ==> c == (if is_self {
            DECK as int
        } else {
            0
        }),
    ensures
        (weight * c) % (DECK as int) == 0,
        (weight * c / (DECK as int)) * (DECK as int) == weight * c,
        rank == 2 ==> (weight * c / (DECK as int)) % (DECK as int) == 0,
{
    if rank == 0 {
        if is_self {
            assert((weight * 16) % 16 == 0) by (nonlinear_arith);
            assert((weight * 16) / 16 == weight) by (nonlinear_arith);
        }
    } else if rank == 1 {
        let q = weight / 16;
        assert(weight == 16 * q);
        assert(weight * c == 16 * (q * c)) by (nonlinear_arith)
            requires
                weight == 16 * q,
        ;
        vstd::arithmetic::div_mod::lemma_div_multiples_vanish(q * c, 16);
        vstd::arithmetic::div_mod::lemma_mod_multiples_basic(q * c, 16);
        assert((16 * (q * c)) % 16 == 0) by (nonlinear_arith);
    } else {
        let q = weight / 256;
        assert(weight == 256 * q);
        assert(weight * c == 16 * (16 * q * c)) by (nonlinear_arith)
            requires
                weight == 256 * q,
        ;
        vstd::arithmetic::div_mod::lemma_div_multiples_vanish(16 * q * c, 16);
        assert((16 * (16 * q * c)) % 16 == 0) by (nonlinear_arith);
        assert(16 * q * c == (q * c) * 16) by (nonlinear_arith);
        vstd::arithmetic::div_mod::lemma_mod_multiples_basic(q * c, 16);
    }
}

/// Shares handed out so far stay within the weight.
proof fn lemma_share_bound(weight: int, c: int, before: int, given: int, base: int)
    requires
        0 <= weight,
        0 <= c,
        0 <= before,
        before + c <= DECK,
        given * (DECK as int) == weight * before,
        base + weight <= COMBINED_SCALE,
        base >= 0,
        (weight * c / (DECK as int)) * (DECK as int) == weight * c,
    ensures
        weight * c / (DECK as int) <= weight,
        base + given + weight * c / (DECK as int) <= COMBINED_SCALE,
        (given + weight * c / (DECK as int)) * (DECK as int) == weight * (before + c),
        weight * c <= COMBINED_SCALE * DECK,
{
    let w = weight * c / 16;
    assert(w * 16 == weight * c);
    assert((given + w) * 16 == weight * (before + c)) by (nonlinear_arith)
        requires
            given * 16 == weight * before,
            w * 16 == weight * c,
    ;
    assert(weight * (before + c) <= weight * 16) by (nonlinear_arith)
        requires
            before + c <= 16,
            weight >= 0,
    ;
    assert(given + w <= weight);
    assert(weight * c <= weight * 16) by (nonlinear_arith)
        requires
            c <= 16,
            weight >= 0,
    ;
    assert(w <= weight) by (nonlinear_arith)
        requires
            w * 16 == weight * c,
            c <= 16,
            weight >= 0,
    ;
    assert(weight * c <= 9216 * 16) by (nonlinear_arith)
        requires
            weight <= 9216,
            0 <= c <= 16,
            weight >= 0,
    ;
}

/// A roll as `dice_rolls` gives it: the two faces, their total and whether
/// they match.
pub type Roll = (DiceValue, DiceValue, u8, bool);

/// Every roll has its total and double flag right.
pub open spec fn rolls_consistent(rolls: Seq<Roll>) -> bool {
    forall|k: int|
        0 <= k < rolls.len() ==> {
            let (d1, d2, sum, double) = #[trigger] rolls[k];
            &&& sum == d1.pips() + d2.pips()
            &&& double == (d1 == d2)
        }
}

/// The canonical index reached by each roll from `start`, before jumps.
pub open spec fn move_targets(strategy: Strategy, start: State, rolls: Seq<Roll>) -> Seq<int> {
    rolls.map_values(|r: Roll| state_index(strategy, move_spec(strategy, start, r.2 as int, r.3)))
}

/// The canonical index reached from `start` by rolling the two faces `p`,
/// before jumps.
pub open spec fn move_index(strategy: Strategy, start: State, p: (DiceValue, DiceValue)) -> int {
    state_index(strategy, move_spec(strategy, start, p.0.pips() + p.1.pips(), p.0 == p.1))
}

/// Of the 36 equally likely rolls from `start`, how many lead to the state
/// with index `j` before jumps.
pub open spec fn move_count(strategy: Strategy, start: State, j: int) -> nat {
    crate::tally::count_in(face_pairs().map_values(|p: (DiceValue, DiceValue)| move_index(strategy, start, p)), j)
}

/// Of the weight of rolling the faces `p` from `start`, the part that comes
/// to rest at the state with index `t`.
pub open spec fn roll_settle(strategy: Strategy, start: State, t: int, p: (DiceValue, DiceValue)) -> int {
    settle(
        strategy,
        move_spec(strategy, start, p.0.pips() + p.1.pips(), p.0 == p.1),
        ROLL_WEIGHT as int,
        t,
    )
}

/// Of the whole weight `COMBINED_SCALE` leaving `start`, the part that comes
/// to rest at the state with index `t`, summed over the 36 rolls.
pub open spec fn combined_weight(strategy: Strategy, start: State, t: int) -> int {
    crate::tally::sum_of(face_pairs().map_values(|p: (DiceValue, DiceValue)| roll_settle(strategy, start, t, p)))
}

/// The list of canonical states as `create_states` gives it.
pub open spec fn is_state_list(strategy: Strategy, states: Seq<State>) -> bool {
    &&& states.len() == state_count(strategy)
    &&& forall|k: int|
        0 <= k < states.len() ==> canonical(strategy, #[trigger] states[k]) && state_index(
            strategy,
            states[k],
        ) == k
}

/// For one start state: how many rolls lead to each canonical state, and the
/// weight (out of `COMBINED_SCALE`) with which each is reached once every
/// jump has been followed.
fn state_rows(strategy: Strategy, table: &Vec<Vec<u64>>, start: State, rolls: &Vec<Roll>) -> (r: (
    Vec<u64>,
    Vec<u64>,
))
    requires
        is_jump_table(table@),
        canonical(strategy, start),
        rolls@.len() == 36,
        rolls_consistent(rolls@),
        roll_pairs(rolls@).to_multiset() == face_pairs().to_multiset(),
    ensures
        r.0@.len() == state_count(strategy),
        r.1@.len() == state_count(strategy),
        forall|j: int| 0 <= j < state_count(strategy) ==> #[trigger] r.0@[j] == move_count(strategy, start, j),
        forall|j: int| 0 <= j < state_count(strategy) ==> #[trigger] r.1@[j] == combined_weight(strategy, start, j),
        total(r.0@) == 36,
        total(r.1@) == COMBINED_SCALE,
{
    let n = match strategy {
        Strategy::PayJail => 118,
        Strategy::JailWait => 120,
    };
    let mut moves = crate::jump::zero_counts(n);
    let mut combined = crate::jump::zero_counts(n);
    let ghost targets = move_targets(strategy, start, rolls@);
    let mut k: usize = 0;
    while k < rolls.len()
        invariant
            is_jump_table(table@),
            canonical(strategy, start),
            rolls@.len() == 36,
            rolls_consistent(rolls@),
            targets == move_targets(strategy, start, rolls@),
            k <= 36,
            n == state_count(strategy),
            moves@.len() == n,
            combined@.len() == n,
            forall|j: int| 0 <= j < n ==> #[trigger] moves@[j] == crate::tally::count_in(targets.take(k as int), j),
            total(moves@) == k,
            total(combined@) == k * ROLL_WEIGHT,
            forall|t: int|
                0 <= t < n ==> #[trigger] combined@[t] == crate::tally::sum_of(
                    roll_pairs(rolls@).take(k as int).map_values(
                        |p: (DiceValue, DiceValue)| roll_settle(strategy, start, t, p),
                    ),
                ),
        decreases 36 - k,
    {
        let (d1, d2, sum, double) = rolls[k];
        assert(rolls@[k as int] == (d1, d2, sum, double));
        let next = move_state(strategy, &start, sum, double);
        let t = index_of(strategy, &next).unwrap();
        assert(targets[k as int] == t);
        assert(targets.take(k as int + 1).drop_last() == targets.take(k as int));
        assert(targets.take(k as int + 1).last() == t);
        let ghost before = moves@;
        proof {
            lemma_total_bounds(moves@, t as int);
            lemma_total_update(moves@, t as int, (moves@[t as int] + 1) as u64);
        }
        moves.set(t, moves[t] + 1);
        assert forall|j: int| 0 <= j < n implies #[trigger] moves@[j] == crate::tally::count_in(
            targets.take(k as int + 1),
            j,
        ) by {
            assert(before[j] == crate::tally::count_in(targets.take(k as int), j));
            if t == j {
                assert(moves@[j] == before[j] + 1);
            } else {
                assert(moves@[j] == before[j]);
            }
        }
        proof {
            lemma_jump_descends_if(next.position as int, 0);
            let rk = jump_rank(next.position as int);
            assert(rank_scale(rk) == 1 || rank_scale(rk) == 16 || rank_scale(rk) == 256);
            assert(256int % 16 == 0 && 256int % 256 == 0 && 256int % 1 == 0);
        }
        let ghost prior = combined@;
        process_jumps(strategy, table, next, ROLL_WEIGHT, &mut combined);
        assert forall|t: int| 0 <= t < n implies #[trigger] combined@[t] == crate::tally::sum_of(
            roll_pairs(rolls@).take(k as int + 1).map_values(
                |p: (DiceValue, DiceValue)| roll_settle(strategy, start, t, p),
            ),
        ) by {
            let g = |p: (DiceValue, DiceValue)| roll_settle(strategy, start, t, p);
            let pairs = roll_pairs(rolls@);
            assert(pairs.take(k as int + 1).map_values(g).drop_last() == pairs.take(k as int).map_values(g));
            assert(pairs[k as int] == (d1, d2));
            assert(prior[t] == crate::tally::sum_of(pairs.take(k as int).map_values(g)));
        }
        k = k + 1;
    }
    assert(targets.take(36) == targets);
    proof {
        let g = |p: (DiceValue, DiceValue)| move_index(strategy, start, p);
        assert(targets =~= roll_pairs(rolls@).map_values(g));
        assert forall|j: int| 0 <= j < n implies #[trigger] moves@[j] == move_count(strategy, start, j) by {
            crate::tally::lemma_count_map_perm(roll_pairs(rolls@), face_pairs(), g, j);
        }
        assert(roll_pairs(rolls@).take(36) == roll_pairs(rolls@));
        assert forall|t: int| 0 <= t < n implies #[trigger] combined@[t] == combined_weight(strategy, start, t) by {
            let h = |p: (DiceValue, DiceValue)| roll_settle(strategy, start, t, p);
            crate::tally::lemma_sum_map_perm(roll_pairs(rolls@), face_pairs(), h);
        }
    }
    (moves, combined)
}

/// Sets row `i` of `m` to `counts[j] / scale` for every column `j`.
fn fill_row(m: &mut ProbMatrix, i: usize, counts: &Vec<u64>, scale: u64)
    requires
        i < matrix_entries(*old(m)).len(),
        matrix_entries(*old(m))[i as int].len() == counts@.len(),
        scale > 0,
        total(counts@) == scale,
        scale <= i64::MAX,
    ensures
        matrix_entries(*final(m)).len() == matrix_entries(*old(m)).len(),
        forall|r: int|
            0 <= r < matrix_entries(*old(m)).len() && r != i ==> #[trigger] matrix_entries(*final(m))[r]
                == matrix_entries(*old(m))[r],
        matrix_entries(*final(m))[i as int].len() == counts@.len(),
        forall|c: int|
            0 <= c < counts@.len() ==> #[trigger] matrix_entries(*final(m))[i as int][c] == from_ratio(
                counts@[c] as int,
                scale as int,
            ),
        sums_to_one(matrix_entries(*final(m))[i as int]),
{
    let ghost start = matrix_entries(*m);
    let mut j: usize = 0;
    while j < counts.len()
        invariant
            j <= counts@.len(),
            scale > 0,
            total(counts@) == scale,
            scale <= i64::MAX,
            i < start.len(),
            start[i as int].len() == counts@.len(),
            matrix_entries(*m).len() == start.len(),
            forall|r: int| 0 <= r < start.len() && r != i ==> #[trigger] matrix_entries(*m)[r] == start[r],
            matrix_entries(*m)[i as int].len() == counts@.len(),
            forall|c: int|
                0 <= c < j ==> #[trigger] matrix_entries(*m)[i as int][c] == from_ratio(
                    counts@[c] as int,
                    scale as int,
                ),
        decreases counts@.len() - j,
    {
        proof {
            lemma_total_bounds(counts@, j as int);
        }
        let p = Probability::new(counts[j] as i64, scale);
        m.set(i, j, p);
        j = j + 1;
    }
    proof {
        let row = matrix_entries(*m)[i as int];
        let c = counts@;
        assert forall|k: int| 0 <= k < row.len() implies (#[trigger] row[k]).den() > 0 && row[k].represents(
            c[k] as int,
            scale as int,
        ) by {
            lemma_total_bounds(c, k);
            lemma_from_ratio(c[k] as int, scale as int);
        }
        lemma_sums_to_one(row, c, scale as int);
    }
}

/// The move and combined matrices: row i is the start state with index i.
/// Moves count rolls over 36; combined weights are over `COMBINED_SCALE`.
pub fn build_movemat(states: &Vec<State>, table: &Vec<Vec<u64>>, strategy: Strategy) -> (r: (
    ProbMatrix,
    ProbMatrix,
))
    requires
        is_state_list(strategy, states@),
        is_jump_table(table@),
    ensures
        matrix_entries(r.0).len() == states@.len(),
        matrix_entries(r.1).len() == states@.len(),
        forall|i: int, j: int|
            0 <= i < states@.len() && 0 <= j < states@.len() ==> #[trigger] matrix_entries(r.0)[i][j]
                == from_ratio(move_count(strategy, states@[i], j) as int, 36),
        forall|i: int, j: int|
            0 <= i < states@.len() && 0 <= j < states@.len() ==> #[trigger] matrix_entries(r.1)[i][j]
                == from_ratio(combined_weight(strategy, states@[i], j), COMBINED_SCALE as int),
        forall|i: int|
            0 <= i < states@.len() ==> (#[trigger] matrix_entries(r.0)[i]).len() == states@.len()
                && sums_to_one(matrix_entries(r.0)[i]),
        forall|i: int|
            0 <= i < states@.len() ==> (#[trigger] matrix_entries(r.1)[i]).len() == states@.len()
                && sums_to_one(matrix_entries(r.1)[i]),
        forall|i: int, j: int|
            0 <= i < states@.len() && 0 <= j < states@.len() ==> (#[trigger] matrix_entries(
                r.1,
            )[i][j]).num() >= 0,
{
    let n = states.len();
    assert(n * n <= usize::MAX) by (nonlinear_arith)
        requires
            n <= 120,
    ;
    let rolls = dice_rolls();
    assert(rolls_consistent(rolls@));
    let mut movemat = ProbMatrix::filled(n, n, Probability::zero());
    let mut combmat = ProbMatrix::filled(n, n, Probability::zero());
    let mut i: usize = 0;
    while i < n
        invariant
            n == states@.len(),
            is_state_list(strategy, states@),
            is_jump_table(table@),
            rolls@.len() == 36,
            rolls_consistent(rolls@),
            i <= n,
            matrix_entries(movemat).len() == n,
            matrix_entries(combmat).len() == n,
            forall|r: int| 0 <= r < n ==> (#[trigger] matrix_entries(movemat)[r]).len() == n,
            forall|r: int| 0 <= r < n ==> (#[trigger] matrix_entries(combmat)[r]).len() == n,
            roll_pairs(rolls@).to_multiset() == face_pairs().to_multiset(),
            forall|r: int, j: int|
                0 <= r < i && 0 <= j < n ==> #[trigger] matrix_entries(movemat)[r][j] == from_ratio(
                    move_count(strategy, states@[r], j) as int,
                    36,
                ),
            forall|r: int, j: int|
                0 <= r < i && 0 <= j < n ==> #[trigger] matrix_entries(combmat)[r][j] == from_ratio(
                    combined_weight(strategy, states@[r], j),
                    COMBINED_SCALE as int,
                ),
            forall|r: int| 0 <= r < i ==> sums_to_one(#[trigger] matrix_entries(movemat)[r]),
            forall|r: int| 0 <= r < i ==> sums_to_one(#[trigger] matrix_entries(combmat)[r]),
            forall|r: int, j: int|
                0 <= r < i && 0 <= j < n ==> (#[trigger] matrix_entries(combmat)[r][j]).num() >= 0,
        decreases n - i,
    {
        let start = states[i];
        let (moves, weights) = state_rows(strategy, table, start, &rolls);
        fill_row(&mut movemat, i, &moves, 36);
        fill_row(&mut combmat, i, &weights, COMBINED_SCALE);
        proof {
            assert forall|j: int| 0 <= j < n implies (#[trigger] matrix_entries(combmat)[i as int][j]).num() >= 0 by {
                lemma_total_bounds(weights@, j);
                lemma_from_ratio(weights@[j] as int, COMBINED_SCALE as int);
            }
        }
        i = i + 1;
    }
    (movemat, combmat)
}

/// The exact transition matrices of the chain for one jail strategy. Once
/// built, nothing changes them.
pub struct TransMatrix {
    /// Jail strategy the chain was built for.
    pub strategy: Strategy,
    /// Canonical states; a state's index is its place here.
    pub states: Vec<State>,
    /// Transitions by dice movement alone.
    pub movemat: ProbMatrix,
    /// Jumps between the forty spaces on landing.
    pub jumpmat: ProbMatrix,
    /// Dice movement followed by every chain of jumps.
    pub combinedmat: ProbMatrix,
}

/// The jump matrix: entry (i, j) is the number of draws at space i that send
/// the token to space j, over the deck size, and every row sums to exactly 1.
pub open spec fn is_jump_matrix(m: Seq<Seq<Probability>>) -> bool {
    &&& m.len() == SPACECOUNT
    &&& forall|i: int|
        0 <= i < SPACECOUNT ==> {
            &&& (#[trigger] m[i]).len() == SPACECOUNT
            &&& forall|j: int|
                0 <= j < SPACECOUNT ==> m[i][j] == from_ratio(jump_count(i, j) as int, DECK as int)
            &&& sums_to_one(m[i])
        }
}

/// An n×n matrix whose every row sums to exactly 1.
pub open spec fn is_stochastic(m: Seq<Seq<Probability>>, n: int) -> bool {
    &&& m.len() == n
    &&& forall|i: int| 0 <= i < n ==> (#[trigger] m[i]).len() == n && sums_to_one(m[i])
}

impl TransMatrix {
    /// Everything `new` promises of the chain for `strategy`.
    pub open spec fn built_for(&self, strategy: Strategy) -> bool {
        let n = state_count(strategy);
        &&& self.strategy == strategy
        &&& is_state_list(strategy, self.states@)
        &&& is_jump_matrix(matrix_entries(self.jumpmat))
        &&& is_stochastic(matrix_entries(self.movemat), n)
        &&& is_stochastic(matrix_entries(self.combinedmat), n)
        &&& forall|i: int, j: int|
            0 <= i < n && 0 <= j < n ==> #[trigger] matrix_entries(self.movemat)[i][j] == from_ratio(
                move_count(strategy, self.states@[i], j) as int,
                36,
            )
        &&& forall|i: int, j: int|
            0 <= i < n && 0 <= j < n ==> #[trigger] matrix_entries(self.combinedmat)[i][j]
                == from_ratio(combined_weight(strategy, self.states@[i], j), COMBINED_SCALE as int)
        &&& forall|i: int, j: int|
            0 <= i < n && 0 <= j < n ==> (#[trigger] matrix_entries(self.combinedmat)[i][j]).num()
                >= 0
    }

    /// Builds the jump matrix, the canonical states, and the move and
    /// combined matrices for `strategy`.
    pub fn new(strategy: Strategy) -> (r: TransMatrix)
        ensures
            r.built_for(strategy),
    {
        let table = jump_table();
        let jumpmat = build_jumpmat(&table);
        let states = State::create_states(&strategy);
        let (movemat, combinedmat) = build_movemat(&states, &table, strategy);
        TransMatrix { strategy, states, movemat, jumpmat, combinedmat }
    }

    /// The strategy the chain was built for.
    pub fn strategy(&self) -> (r: Strategy)
        ensures
            r == self.strategy,
    {
        self.strategy
    }

    /// The canonical states in index order.
    pub fn states(&self) -> (r: &Vec<State>)
        ensures
            r == &self.states,
    {
        &self.states
    }

    /// The dice-movement matrix.
    pub fn movemat(&self) -> (r: &ProbMatrix)
        ensures
            r == &self.movemat,
    {
        &self.movemat
    }

    /// The jump matrix.
    pub fn jumpmat(&self) -> (r: &ProbMatrix)
        ensures
            r == &self.jumpmat,
    {
        &self.jumpmat
    }

    /// The combined matrix.
    pub fn combinedmat(&self) -> (r: &ProbMatrix)
        ensures
            r == &self.combinedmat,
    {
        &self.combinedmat
    }
}

/// Building the chain twice for one strategy gives the same canonical
/// states, and the same jump, move and combined matrices entry for entry.
pub proof fn lemma_build_repeatable(a: &TransMatrix, b: &TransMatrix, strategy: Strategy)
    requires
        a.built_for(strategy),
        b.built_for(strategy),
    ensures
        a.states@ == b.states@,
        matrix_entries(a.jumpmat) == matrix_entries(b.jumpmat),
        matrix_entries(a.movemat) == matrix_entries(b.movemat),
        matrix_entries(a.combinedmat) == matrix_entries(b.combinedmat),
{
    let n = state_count(strategy);
    assert forall|k: int| 0 <= k < n implies a.states@[k] == b.states@[k] by {
        lemma_index_injective(strategy, a.states@[k], b.states@[k]);
    }
    assert(a.states@ =~= b.states@);
    let (ja, jb) = (matrix_entries(a.jumpmat), matrix_entries(b.jumpmat));
    assert forall|i: int| 0 <= i < SPACECOUNT implies ja[i] == jb[i] by {
        assert(ja[i] =~= jb[i]);
    }
    assert(ja =~= jb);
    let (ma, mb) = (matrix_entries(a.movemat), matrix_entries(b.movemat));
    assert forall|i: int| 0 <= i < n implies ma[i] == mb[i] by {
        assert forall|j: int| 0 <= j < n implies ma[i][j] == mb[i][j] by {
            assert(ma[i][j] == from_ratio(move_count(strategy, a.states@[i], j) as int, 36));
        }
        assert(ma[i] =~= mb[i]);
    }
    assert(ma =~= mb);
    let (ca, cb) = (matrix_entries(a.combinedmat), matrix_entries(b.combinedmat));
    assert forall|i: int| 0 <= i < n implies ca[i] == cb[i] by {
        assert forall|j: int| 0 <= j < n implies ca[i][j] == cb[i][j] by {
            assert(ca[i][j] == from_ratio(
                combined_weight(strategy, a.states@[i], j),
                COMBINED_SCALE as int,
            ));
        }
        assert(ca[i] =~= cb[i]);
    }
    assert(ca =~= cb);
}

} // verus!
