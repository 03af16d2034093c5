use monopoly_markov::dice::dice_rolls;

#[test]
fn test_count() {
    let count = dice_rolls().len();

    assert_eq!(count, 36);
}

#[test]
fn test_doubles() {
    let count = dice_rolls().iter().filter(|(_, _, _, double)| *double).count();

    assert_eq!(count, 6);
}

#[test]
fn totals_follow_two_dice_distribution() {
    let mut counts = [0usize; 13];
    for (_, _, sum, _) in dice_rolls() {
        counts[sum as usize] += 1;
    }
    assert_eq!(&counts[2..], &[1, 2, 3, 4, 5, 6, 5, 4, 3, 2, 1]);
}

#[test]
fn rolls_are_ordered_by_total_then_dice() {
    let rolls = dice_rolls();
    let keys: Vec<(u8, u8, u8)> = rolls.iter().map(|(a, b, s, _)| (*s, a.value(), b.value())).collect();
    for w in keys.windows(2) {
        assert!(w[0] < w[1]);
    }
    assert_eq!(keys[0], (2, 1, 1));
    assert_eq!(keys[35], (12, 6, 6));
    for (a, b, s, d) in rolls {
        assert_eq!(s, a.value() + b.value());
        assert_eq!(d, a == b);
    }
}
