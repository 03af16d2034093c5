//! The two card decks. Only how many cards of each kind a deck holds matters
//! to the exact model: every card is equally likely to be drawn next.

use std::collections::VecDeque;
use vstd::prelude::*;

verus! {

/// Cards in each deck.
pub const CHCARDS: usize = 16;

/// Cards in each deck.
pub const CCCARDS: usize = 16;

/// A Chance card.
#[derive(Debug, Clone, Copy, PartialEq, Eq, Structural)]
pub enum CHCard {
    GoGo,
    GoJail,
    /// Go to the property with this colour set and place in the set.
    GoProperty(u8, u8),
    GoRail(u8),
    GoNextRail,
    GoNextUtil,
    Back3,
    Inconsequential,
}

/// A Community Chest card.
#[derive(Debug, Clone, Copy, PartialEq, Eq, Structural)]
pub enum CCCard {
    GoGo,
    GoJail,
    Inconsequential,
}

/// The Chance cards that move the token.
pub open spec fn chance_movers() -> Seq<CHCard> {
    seq![
        CHCard::GoGo,
        CHCard::GoJail,
        CHCard::GoProperty(2, 0),
        CHCard::GoProperty(4, 2),
        CHCard::GoProperty(7, 1),
        CHCard::GoRail(0),
        CHCard::GoNextRail,
        CHCard::GoNextRail,
        CHCard::GoNextUtil,
        CHCard::Back3,
    ]
}

/// The Chance deck: the moving cards, then blanks up to the deck size.
pub open spec fn chance_deck() -> Seq<CHCard> {
    chance_movers() + Seq::new(
        (CHCARDS - chance_movers().len()) as nat,
        |i: int| CHCard::Inconsequential,
    )
}

/// The Community Chest cards that move the token.
pub open spec fn chest_movers() -> Seq<CCCard> {
    seq![CCCard::GoJail, CCCard::GoGo]
}

/// The Community Chest deck: the moving cards, then blanks up to the deck size.
pub open spec fn chest_deck() -> Seq<CCCard> {
    chest_movers() + Seq::new(
        (CCCARDS - chest_movers().len()) as nat,
        |i: int| CCCard::Inconsequential,
    )
}

impl CHCard {
    /// Builds the Chance deck in its fixed order.
    pub fn build_deck() -> (r: VecDeque<CHCard>)
        ensures
            r@ == chance_deck(),
            r@.len() == CHCARDS,
    {
        let mut deck = VecDeque::new();
        deck.push_back(CHCard::GoGo);
        deck.push_back(CHCard::GoJail);
        deck.push_back(CHCard::GoProperty(2, 0));
        deck.push_back(CHCard::GoProperty(4, 2));
        deck.push_back(CHCard::GoProperty(7, 1));
        deck.push_back(CHCard::GoRail(0));
        deck.push_back(CHCard::GoNextRail);
        deck.push_back(CHCard::GoNextRail);
        deck.push_back(CHCard::GoNextUtil);
        deck.push_back(CHCard::Back3);
        assert(deck@ == chance_movers());
        while deck.len() < CHCARDS
            invariant
                chance_movers().len() <= deck@.len() <= CHCARDS,
                deck@ == chance_movers() + Seq::new(
                    (deck@.len() - chance_movers().len()) as nat,
                    |i: int| CHCard::Inconsequential,
                ),
            decreases CHCARDS - deck@.len(),
        {
            deck.push_back(CHCard::Inconsequential);
            assert(deck@ == chance_movers() + Seq::new(
                (deck@.len() - chance_movers().len()) as nat,
                |i: int| CHCard::Inconsequential,
            ));
        }
        deck
    }
}

impl CCCard {
    /// Builds the Community Chest deck in its fixed order.
    pub fn build_deck() -> (r: VecDeque<CCCard>)
        ensures
            r@ == chest_deck(),
            r@.len() == CCCARDS,
    {
        let mut deck = VecDeque::new();
        deck.push_back(CCCard::GoJail);
        deck.push_back(CCCard::GoGo);
        assert(deck@ == chest_movers());
        while deck.len() < CCCARDS
            invariant
                chest_movers().len() <= deck@.len() <= CCCARDS,
                deck@ == chest_movers() + Seq::new(
                    (deck@.len() - chest_movers().len()) as nat,
                    |i: int| CCCard::Inconsequential,
                ),
            decreases CCCARDS - deck@.len(),
        {
            deck.push_back(CCCard::Inconsequential);
            assert(deck@ == chest_movers() + Seq::new(
                (deck@.len() - chest_movers().len()) as nat,
                |i: int| CCCard::Inconsequential,
            ));
        }
        deck
    }
}

} // verus!
