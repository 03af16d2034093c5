//! The 36 equally likely outcomes of a roll of two dice.

use itertools::Itertools;
use vstd::prelude::*;

verus! {

/// The face of one die.
#[derive(Debug, Clone, Copy, PartialEq, Eq, Structural)]
pub enum DiceValue {
    One,
    Two,
    Three,
    Four,
    Five,
    Six,
}

impl DiceValue {
    /// The number of pips.
    pub open spec fn pips(self) -> u8 {
        match self {
            DiceValue::One => 1,
            DiceValue::Two => 2,
            DiceValue::Three => 3,
            DiceValue::Four => 4,
            DiceValue::Five => 5,
            DiceValue::Six => 6,
        }
    }

    /// The number of pips.
    pub fn value(&self) -> (r: u8)
        ensures
            r == self.pips(),
            1 <= r <= 6,
    {
        match *self {
            DiceValue::One => 1,
            DiceValue::Two => 2,
            DiceValue::Three => 3,
            DiceValue::Four => 4,
            DiceValue::Five => 5,
            DiceValue::Six => 6,
        }
    }

    /// The die-face character.
    pub fn face(&self) -> (r: char)
        ensures
            r == (match *self {
                DiceValue::One => '⚀',
                DiceValue::Two => '⚁',
                DiceValue::Three => '⚂',
                DiceValue::Four => '⚃',
                DiceValue::Five => '⚄',
                DiceValue::Six => '⚅',
            }),
    {
        match *self {
            DiceValue::One => '⚀',
            DiceValue::Two => '⚁',
            DiceValue::Three => '⚂',
            DiceValue::Four => '⚃',
            DiceValue::Five => '⚄',
            DiceValue::Six => '⚅',
        }
    }
}

/// The six faces in ascending order.
pub open spec fn faces() -> Seq<DiceValue> {
    seq![
        DiceValue::One,
        DiceValue::Two,
        DiceValue::Three,
        DiceValue::Four,
        DiceValue::Five,
        DiceValue::Six,
    ]
}

/// Every ordered pair of faces, first die major.
pub open spec fn face_pairs() -> Seq<(DiceValue, DiceValue)> {
    Seq::new(36, |k: int| (faces()[k / 6], faces()[k % 6]))
}

/// The sort key of a roll: its total, then the first die, then the second.
pub open spec fn roll_key_spec(p: (DiceValue, DiceValue)) -> (u8, u8, u8) {
    ((p.0.pips() + p.1.pips()) as u8, p.0.pips(), p.1.pips())
}

/// Lexicographic order of keys.
pub open spec fn key_le(a: (u8, u8, u8), b: (u8, u8, u8)) -> bool {
    a.0 < b.0 || (a.0 == b.0 && (a.1 < b.1 || (a.1 == b.1 && a.2 <= b.2)))
}

/// The sort key of a roll.
pub fn roll_key(p: &(DiceValue, DiceValue)) -> (r: (u8, u8, u8))
    ensures
        r == roll_key_spec(*p),
{
    let a = p.0.value();
    let b = p.1.value();
    (a + b, a, b)
}

/// Relies on itertools' `cartesian_product`: every pair (a[i], b[j]), with i
/// major and j minor.
#[verifier::external_body]
fn cartesian(a: Vec<DiceValue>, b: Vec<DiceValue>) -> (r: Vec<(DiceValue, DiceValue)>)
    ensures
        r@.len() == a@.len() * b@.len(),
        forall|i: int, j: int|
            0 <= i < a@.len() && 0 <= j < b@.len() ==> r@[i * b@.len() + j] == (a@[i], b@[j]),
{
    a.into_iter().cartesian_product(b).collect()
}

/// Relies on itertools' `sorted_by_key`: the same items, ordered by
/// `roll_key`, whose tuples of integers std orders lexicographically.
#[verifier::external_body]
fn sort_by_roll_key(v: Vec<(DiceValue, DiceValue)>) -> (r: Vec<(DiceValue, DiceValue)>)
    ensures
        r@.to_multiset() == v@.to_multiset(),
        forall|i: int, j: int|
            0 <= i < j < r@.len() ==> key_le(roll_key_spec(r@[i]), roll_key_spec(r@[j])),
{
    v.into_iter().sorted_by_key(|p| roll_key(p)).collect()
}

/// The six faces.
fn all_faces() -> (r: Vec<DiceValue>)
    ensures
        r@ == faces(),
{
    vec![
        DiceValue::One,
        DiceValue::Two,
        DiceValue::Three,
        DiceValue::Four,
        DiceValue::Five,
        DiceValue::Six,
    ]
}

/// The two faces of each roll.
pub open spec fn roll_pairs(r: Seq<(DiceValue, DiceValue, u8, bool)>) -> Seq<(DiceValue, DiceValue)> {
    r.map_values(|x: (DiceValue, DiceValue, u8, bool)| (x.0, x.1))
}

/// A sequence holding (faces[i], faces[j]) at 6i + j is `face_pairs`.
proof fn lemma_product_is_face_pairs(r: Seq<(DiceValue, DiceValue)>)
    requires
        r.len() == 36,
        forall|i: int, j: int| 0 <= i < 6 && 0 <= j < 6 ==> r[i * 6 + j] == (faces()[i], faces()[j]),
    ensures
        r == face_pairs(),
{
    assert forall|k: int| 0 <= k < 36 implies r[k] == face_pairs()[k] by {
        let i = k / 6;
        let j = k % 6;
        vstd::arithmetic::div_mod::lemma_fundamental_div_mod(k, 6);
        assert(0 <= i < 6 && 0 <= j < 6);
        assert(r[i * 6 + j] == (faces()[i], faces()[j]));
    }
    assert(r =~= face_pairs());
}

/// Each pair with its total and whether it is a double.
fn with_totals(pairs: Vec<(DiceValue, DiceValue)>) -> (r: Vec<(DiceValue, DiceValue, u8, bool)>)
    ensures
        roll_pairs(r@) == pairs@,
        forall|k: int|
            0 <= k < r@.len() ==> {
                let (d1, d2, sum, double) = #[trigger] r@[k];
                &&& sum == d1.pips() + d2.pips()
                &&& double == (d1 == d2)
            },
{
    let mut out: Vec<(DiceValue, DiceValue, u8, bool)> = Vec::new();
    let mut k: usize = 0;
    while k < pairs.len()
        invariant
            k <= pairs@.len(),
            out@.len() == k,
            forall|m: int|
                0 <= m < k ==> {
                    let (d1, d2, sum, double) = #[trigger] out@[m];
                    &&& (d1, d2) == pairs@[m]
                    &&& sum == d1.pips() + d2.pips()
                    &&& double == (d1 == d2)
                },
        decreases pairs@.len() - k,
    {
        let (d1, d2) = pairs[k];
        let sum = d1.value() + d2.value();
        out.push((d1, d2, sum, d1 == d2));
        k = k + 1;
    }
    assert(roll_pairs(out@) =~= pairs@);
    out
}

/// Every ordered pair of faces with its total and whether it is a double,
/// ordered by total, then first die, then second die.
pub fn dice_rolls() -> (r: Vec<(DiceValue, DiceValue, u8, bool)>)
    ensures
        r@.len() == 36,
        forall|k: int|
            0 <= k < 36 ==> {
                let (d1, d2, sum, double) = #[trigger] r@[k];
                &&& sum == d1.pips() + d2.pips()
                &&& double == (d1 == d2)
            },
        roll_pairs(r@).to_multiset() == face_pairs().to_multiset(),
        forall|i: int, j: int|
            0 <= i < j < 36 ==> key_le(
                roll_key_spec(roll_pairs(r@)[i]),
                roll_key_spec(roll_pairs(r@)[j]),
            ),
{
    let first = all_faces();
    let second = all_faces();
    assert(first@.len() == 6 && second@.len() == 6);
    let pairs = cartesian(first, second);
    proof {
        assert forall|i: int, j: int| 0 <= i < 6 && 0 <= j < 6 implies pairs@[i * 6 + j] == (
            faces()[i],
            faces()[j],
        ) by {
            assert(pairs@[i * 6 + j] == (first@[i], second@[j]));
        }
        lemma_product_is_face_pairs(pairs@);
    }
    let ghost before = pairs@;
    let sorted = sort_by_roll_key(pairs);
    proof {
        before.to_multiset_ensures();
        sorted@.to_multiset_ensures();
    }
    let r = with_totals(sorted);
    assert(r@.len() == 36);
    r
}

} // verus!
