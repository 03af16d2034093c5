use monopoly_markov::cards::{CCCard, CHCard};
use monopoly_markov::jump::{build_jumpmat, jump_row, jump_table, zero_counts};
use monopoly_markov::matrix::ProbMatrix;
use monopoly_markov::probability::Probability;
use monopoly_markov::space::{space_at, space_desc, PropertySet, Space};
use monopoly_markov::state::{index_of, State, JAIL, VISIT};
use monopoly_markov::strategy::Strategy;
use monopoly_markov::transmatrix::{move_state, process_jumps, TransMatrix, COMBINED_SCALE, ROLL_WEIGHT};

fn row(m: &ProbMatrix, i: usize, n: usize) -> Vec<Probability> {
    (0..n).map(|j| m.get(i, j)).collect()
}

fn row_sum(m: &ProbMatrix, i: usize, n: usize) -> Probability {
    Probability::sum(&row(m, i, n)).unwrap()
}

#[test]
fn canonical_state_counts() {
    assert_eq!(State::create_states(&Strategy::PayJail).len(), 118);
    assert_eq!(State::create_states(&Strategy::JailWait).len(), 120);
}

#[test]
fn states_are_ascending_and_indexed() {
    for strategy in [Strategy::PayJail, Strategy::JailWait] {
        let states = State::create_states(&strategy);
        for w in states.windows(2) {
            assert!(w[0] < w[1]);
        }
        for (k, s) in states.iter().enumerate() {
            assert_eq!(index_of(strategy, s), Some(k));
            assert_ne!(s.position, 30 + 100);
        }
        assert_eq!(index_of(strategy, &State::new(1, JAIL, 0)), None);
        assert_eq!(index_of(strategy, &State::new(3, 0, 0)), None);
    }
    assert_eq!(index_of(Strategy::PayJail, &State::new(0, JAIL, 1)), None);
    assert_eq!(index_of(Strategy::JailWait, &State::new(0, JAIL, 2)), Some(92));
}

#[test]
fn jump_rows_sum_to_one() {
    let table = jump_table();
    let m = build_jumpmat(&table);
    for i in 0..40 {
        assert_eq!(row_sum(&m, i, 40), Probability::one());
    }
}

#[test]
fn jump_entries_count_cards() {
    let m = build_jumpmat(&jump_table());
    // Chance at 36: Go, jail, three properties, first station, next station
    // twice, next utility, back three to Community Chest, and six blanks.
    assert_eq!(m.get(36, 0), Probability::new(1, 16));
    assert_eq!(m.get(36, 30), Probability::new(1, 16));
    assert_eq!(m.get(36, 5), Probability::new(3, 16));
    assert_eq!(m.get(36, 12), Probability::new(1, 16));
    assert_eq!(m.get(36, 33), Probability::new(1, 16));
    assert_eq!(m.get(36, 36), Probability::new(6, 16));
    // Community Chest: Go, jail, and fourteen blanks.
    assert_eq!(m.get(2, 0), Probability::new(1, 16));
    assert_eq!(m.get(2, 30), Probability::new(1, 16));
    assert_eq!(m.get(2, 2), Probability::new(7, 8));
    // Elsewhere the token stays.
    assert_eq!(m.get(30, 30), Probability::one());
    assert_eq!(m.get(1, 1), Probability::one());
    assert_eq!(m.get(1, 2), Probability::zero());
}

#[test]
fn move_and_combined_rows_sum_to_one() {
    for strategy in [Strategy::PayJail, Strategy::JailWait] {
        let tm = TransMatrix::new(strategy);
        let n = tm.states().len();
        for i in 0..n {
            assert_eq!(row_sum(tm.movemat(), i, n), Probability::one());
            assert_eq!(row_sum(tm.combinedmat(), i, n), Probability::one());
            for j in 0..n {
                assert!(tm.combinedmat().get(i, j).numerator >= 0);
            }
        }
    }
}

#[test]
fn construction_is_repeatable() {
    for strategy in [Strategy::PayJail, Strategy::JailWait] {
        let a = TransMatrix::new(strategy);
        let b = TransMatrix::new(strategy);
        assert_eq!(a.states(), b.states());
        let n = a.states().len();
        for i in 0..n {
            assert_eq!(row(a.movemat(), i, n), row(b.movemat(), i, n));
            assert_eq!(row(a.combinedmat(), i, n), row(b.combinedmat(), i, n));
        }
        for i in 0..40 {
            assert_eq!(row(a.jumpmat(), i, 40), row(b.jumpmat(), i, 40));
        }
    }
}

#[test]
fn three_failed_jail_rolls_release_to_visiting() {
    let s = State::new(0, JAIL, 0);
    let s = move_state(Strategy::JailWait, &s, 3, false);
    assert_eq!(s, State::new(0, JAIL, 1));
    let s = move_state(Strategy::JailWait, &s, 5, false);
    assert_eq!(s, State::new(0, JAIL, 2));
    let s = move_state(Strategy::JailWait, &s, 7, false);
    assert_eq!(s, State::new(0, VISIT, 0));
}

#[test]
fn jail_double_moves_without_another_roll() {
    let s = move_state(Strategy::JailWait, &State::new(0, JAIL, 1), 4, true);
    assert_eq!(s, State::new(0, VISIT + 4, 0));
    let s = move_state(Strategy::PayJail, &State::new(0, JAIL, 0), 4, true);
    assert_eq!(s, State::new(1, VISIT + 4, 0));
    let s = move_state(Strategy::PayJail, &State::new(0, JAIL, 0), 7, false);
    assert_eq!(s, State::new(0, VISIT + 7, 0));
}

#[test]
fn third_double_goes_to_jail() {
    assert_eq!(move_state(Strategy::PayJail, &State::new(2, 5, 0), 6, true), State::new(0, JAIL, 0));
    assert_eq!(move_state(Strategy::PayJail, &State::new(1, 5, 0), 6, true), State::new(2, 11, 0));
    assert_eq!(move_state(Strategy::PayJail, &State::new(1, 24, 0), 6, true), State::new(0, JAIL, 0));
    assert_eq!(move_state(Strategy::PayJail, &State::new(2, 38, 0), 5, false), State::new(0, 3, 0));
}

#[test]
fn wait_jail_rows_release_after_third_attempt() {
    let tm = TransMatrix::new(Strategy::JailWait);
    let from = index_of(Strategy::JailWait, &State::new(0, JAIL, 2)).unwrap();
    let visit = index_of(Strategy::JailWait, &State::new(0, VISIT, 0)).unwrap();
    assert_eq!(tm.movemat().get(from, visit), Probability::new(5, 6));
    let from0 = index_of(Strategy::JailWait, &State::new(0, JAIL, 0)).unwrap();
    let next = index_of(Strategy::JailWait, &State::new(0, JAIL, 1)).unwrap();
    assert_eq!(tm.movemat().get(from0, next), Probability::new(5, 6));
}

#[test]
fn chance_back_three_chains_into_community_chest() {
    let strategy = Strategy::JailWait;
    let table = jump_table();
    let mut weights = zero_counts(120);
    process_jumps(strategy, &table, State::new(0, 36, 0), ROLL_WEIGHT, &mut weights);
    let at = |s: State| weights[index_of(strategy, &s).unwrap()];
    // Back three (1/16) then a Community Chest blank (14/16).
    assert_eq!(at(State::new(0, 33, 0)), 14);
    // Go by Chance (16/256), or by Chance then Community Chest (1/256).
    assert_eq!(at(State::new(0, 0, 0)), 17);
    assert_eq!(at(State::new(0, JAIL, 0)), 17);
    assert_eq!(at(State::new(0, 36, 0)), 96);
    assert_eq!(weights.iter().sum::<u64>(), ROLL_WEIGHT);
    let tm = TransMatrix::new(strategy);
    let from = index_of(strategy, &State::new(0, 31, 0)).unwrap();
    let cc3 = index_of(strategy, &State::new(0, 33, 0)).unwrap();
    // From 31: a 5 (four rolls, none a double) lands on 36 and is sent back
    // to 33 with 1/16 · 14/16.
    assert_eq!(tm.combinedmat().get(from, cc3), Probability::new(4 * 14, COMBINED_SCALE));
    // A double 1 lands on 33 directly, one double thrown, and stays with 14/16.
    let cc3_double = index_of(strategy, &State::new(1, 33, 0)).unwrap();
    assert_eq!(tm.combinedmat().get(from, cc3_double), Probability::new(14 * 16, COMBINED_SCALE));
}

#[test]
fn board_searches() {
    assert_eq!(Space::find(Space::GoToJail), 30);
    assert_eq!(Space::find(Space::Visit), 10);
    assert_eq!(Space::next_rail(36), 5);
    assert_eq!(Space::next_util(36), 12);
    assert_eq!(Space::next_rail(7), 15);
    assert_eq!(Space::next_util(22), 28);
    assert_eq!(Space::find_next(39, PropertySet::Brown), 1);
    assert_eq!(space_at(39).set(), PropertySet::DarkBlue);
    assert_eq!(space_at(12).set(), PropertySet::Utility);
}

#[test]
fn short_descriptions() {
    assert_eq!(space_at(0).shortdesc(), "Go");
    assert_eq!(space_at(10).shortdesc(), "Jail");
    assert_eq!(space_at(30).shortdesc(), "ToJail");
    assert_eq!(space_at(39).shortdesc(), "H2");
    assert_eq!(space_at(36).shortdesc(), "CH3");
    assert_eq!(space_at(33).shortdesc(), "CC3");
    assert_eq!(space_at(5).shortdesc(), "R1");
    assert_eq!(Probability::new(-3, 12).to_string(), "-1/4");
    assert_eq!(Probability::new(120, 7).to_string(), "120/7");
}

#[test]
fn decks_hold_sixteen_cards() {
    let ch = CHCard::build_deck();
    let cc = CCCard::build_deck();
    assert_eq!(ch.len(), 16);
    assert_eq!(cc.len(), 16);
    assert_eq!(ch.iter().filter(|c| **c == CHCard::Inconsequential).count(), 6);
    assert_eq!(cc.iter().filter(|c| **c == CCCard::Inconsequential).count(), 14);
    let row = jump_row(7, &ch, &cc);
    assert_eq!(row[4], 1);
    assert_eq!(row[15], 2);
    assert_eq!(row[7], 6);
}

#[test]
fn arithmetic_edges() {
    assert_eq!(Probability::new(0, 9), Probability::zero());
    assert_eq!(Probability::new(6, 4), Probability::new(3, 2));
    assert_eq!(Probability::new(1, 4) - Probability::new(1, 2), Probability::new(-1, 4));
    assert_eq!(Probability::new(2, 3) / Probability::new(-4, 9), Probability::new(-3, 2));
    assert_eq!(Probability::new(2, 3).reciprocal(), Probability::new(3, 2));
    assert_eq!(Probability::new(1, 6) * 3u64, Probability::new(1, 2));
    assert_eq!(Probability::new(i64::MAX, 1).checked_add(Probability::one()), None);
    assert_eq!(Probability::one().checked_div(Probability::zero()), None);
    assert!(Probability::new(1, 3) < Probability::new(1, 2));
    assert_eq!(Probability::sum(&[]), Some(Probability::zero()));
}

#[test]
fn state_labels() {
    assert_eq!(State::new(1, 5, 0).to_string(), "[R1 d1]");
    assert_eq!(State::new(0, 30, 2).to_string(), "[ToJail r2]");
    assert_eq!(State::new(0, 0, 0).to_string(), "[Go]");
}

#[test]
fn dashboard_labels() {
    assert_eq!(space_desc(0), "GO");
    assert_eq!(space_desc(30), "GO2J");
    assert_eq!(space_desc(36), "CHNC3");
    assert_eq!(space_desc(28), "UTIL2");
    assert_eq!(space_desc(1), "A1");
}
