//! The board: forty spaces in a fixed order, and searches over them.

use crate::text::{decimal, push_decimal};
use vstd::prelude::*;
use vstd::string::StringExecFns;

verus! {

/// Number of spaces on the board.
pub const SPACECOUNT: usize = 40;

/// A space of the board. `Visit` is the jail space where a token only visits;
/// a token in jail rests on `GoToJail`.
#[derive(Debug, Clone, Copy, PartialEq, Eq, Structural)]
pub enum Space {
    Go,
    Visit,
    FreeParking,
    GoToJail,
    /// Colour set and place within the set.
    Property(u8, u8),
    Rail(u8),
    Utility(u8),
    CommunityChest(u8),
    Chance(u8),
    Tax(u8),
}

/// The group a space belongs to.
#[derive(Debug, Clone, Copy, PartialEq, Eq, Structural, PartialOrd, Ord, Hash)]
pub enum PropertySet {
    Brown,
    LightBlue,
    Pink,
    Orange,
    Red,
    Yellow,
    Green,
    DarkBlue,
    Station,
    Utility,
    Chance,
    CommunityChest,
    Tax,
    Other,
}

/// The space at each position of the board, from Go onwards.
pub open spec fn board(position: int) -> Space {
    if position == 0 {
        Space::Go
    } else if position == 1 {
        Space::Property(0, 0)
    } else if position == 2 {
        Space::CommunityChest(0)
    } else if position == 3 {
        Space::Property(0, 1)
    } else if position == 4 {
        Space::Tax(0)
    } else if position == 5 {
        Space::Rail(0)
    } else if position == 6 {
        Space::Property(1, 0)
    } else if position == 7 {
        Space::Chance(0)
    } else if position == 8 {
        Space::Property(1, 1)
    } else if position == 9 {
        Space::Property(1, 2)
    } else if position == 10 {
        Space::Visit
    } else if position == 11 {
        Space::Property(2, 0)
    } else if position == 12 {
        Space::Utility(0)
    } else if position == 13 {
        Space::Property(2, 1)
    } else if position == 14 {
        Space::Property(2, 2)
    } else if position == 15 {
        Space::Rail(1)
    } else if position == 16 {
        Space::Property(3, 0)
    } else if position == 17 {
        Space::CommunityChest(1)
    } else if position == 18 {
        Space::Property(3, 1)
    } else if position == 19 {
        Space::Property(3, 2)
    } else if position == 20 {
        Space::FreeParking
    } else if position == 21 {
        Space::Property(4, 0)
    } else if position == 22 {
        Space::Chance(1)
    } else if position == 23 {
        Space::Property(4, 1)
    } else if position == 24 {
        Space::Property(4, 2)
    } else if position == 25 {
        Space::Rail(2)
    } else if position == 26 {
        Space::Property(5, 0)
    } else if position == 27 {
        Space::Property(5, 1)
    } else if position == 28 {
        Space::Utility(1)
    } else if position == 29 {
        Space::Property(5, 2)
    } else if position == 30 {
        Space::GoToJail
    } else if position == 31 {
        Space::Property(6, 0)
    } else if position == 32 {
        Space::Property(6, 1)
    } else if position == 33 {
        Space::CommunityChest(2)
    } else if position == 34 {
        Space::Property(6, 2)
    } else if position == 35 {
        Space::Rail(3)
    } else if position == 36 {
        Space::Chance(2)
    } else if position == 37 {
        Space::Property(7, 0)
    } else if position == 38 {
        Space::Tax(1)
    } else {
        Space::Property(7, 1)
    }
}

/// The space at a position of the board.
pub fn space_at(position: usize) -> (r: Space)
    requires
        position < SPACECOUNT,
    ensures
        r == board(position as int),
{
    match position {
        0 => Space::Go,
        1 => Space::Property(0, 0),
        2 => Space::CommunityChest(0),
        3 => Space::Property(0, 1),
        4 => Space::Tax(0),
        5 => Space::Rail(0),
        6 => Space::Property(1, 0),
        7 => Space::Chance(0),
        8 => Space::Property(1, 1),
        9 => Space::Property(1, 2),
        10 => Space::Visit,
        11 => Space::Property(2, 0),
        12 => Space::Utility(0),
        13 => Space::Property(2, 1),
        14 => Space::Property(2, 2),
        15 => Space::Rail(1),
        16 => Space::Property(3, 0),
        17 => Space::CommunityChest(1),
        18 => Space::Property(3, 1),
        19 => Space::Property(3, 2),
        20 => Space::FreeParking,
        21 => Space::Property(4, 0),
        22 => Space::Chance(1),
        23 => Space::Property(4, 1),
        24 => Space::Property(4, 2),
        25 => Space::Rail(2),
        26 => Space::Property(5, 0),
        27 => Space::Property(5, 1),
        28 => Space::Utility(1),
        29 => Space::Property(5, 2),
        30 => Space::GoToJail,
        31 => Space::Property(6, 0),
        32 => Space::Property(6, 1),
        33 => Space::CommunityChest(2),
        34 => Space::Property(6, 2),
        35 => Space::Rail(3),
        36 => Space::Chance(2),
        37 => Space::Property(7, 0),
        38 => Space::Tax(1),
        _ => Space::Property(7, 1),
    }
}

/// The letter that names a colour set in short descriptions.
pub open spec fn set_letter(set: nat) -> char {
    if set == 0 {
        'A'
    } else if set == 1 {
        'B'
    } else if set == 2 {
        'C'
    } else if set == 3 {
        'D'
    } else if set == 4 {
        'E'
    } else if set == 5 {
        'F'
    } else if set == 6 {
        'G'
    } else {
        'H'
    }
}

fn set_letter_str(set: u8) -> (r: &'static str)
    requires
        set < 8,
    ensures
        r@ == seq![set_letter(set as nat)],
{
    proof {
        reveal_strlit("A");
        reveal_strlit("B");
        reveal_strlit("C");
        reveal_strlit("D");
        reveal_strlit("E");
        reveal_strlit("F");
        reveal_strlit("G");
        reveal_strlit("H");
    }
    match set {
        0 => "A",
        1 => "B",
        2 => "C",
        3 => "D",
        4 => "E",
        5 => "F",
        6 => "G",
        _ => "H",
    }
}

/// The colour set with a given number.
pub open spec fn colour_set(set: int) -> PropertySet {
    if set == 0 {
        PropertySet::Brown
    } else if set == 1 {
        PropertySet::LightBlue
    } else if set == 2 {
        PropertySet::Pink
    } else if set == 3 {
        PropertySet::Orange
    } else if set == 4 {
        PropertySet::Red
    } else if set == 5 {
        PropertySet::Yellow
    } else if set == 6 {
        PropertySet::Green
    } else {
        PropertySet::DarkBlue
    }
}

/// Scans forward from `position + k` for the first space in `set`, up to one
/// lap short of `position`; -1 when there is none.
pub open spec fn scan_set(position: int, set: PropertySet, k: int) -> int
    decreases SPACECOUNT - k,
{
    if k >= SPACECOUNT {
        -1
    } else if board((position + k) % (SPACECOUNT as int)).group() == set {
        (position + k) % (SPACECOUNT as int)
    } else {
        scan_set(position, set, k + 1)
    }
}

/// The first position after `position`, going forward round the board, whose
/// space is in `set`; -1 when there is none.
pub open spec fn next_in_set(position: int, set: PropertySet) -> int {
    scan_set(position, set, 1)
}

/// A space of `set` at offset `k` ahead means the scan from any offset up to
/// `k` finds one.
pub proof fn lemma_scan_finds(position: int, set: PropertySet, j: int, k: int)
    requires
        1 <= j <= k < SPACECOUNT,
        board((position + k) % (SPACECOUNT as int)).group() == set,
    ensures
        0 <= scan_set(position, set, j) < SPACECOUNT,
    decreases k - j,
{
    if board((position + j) % (SPACECOUNT as int)).group() != set {
        lemma_scan_finds(position, set, j + 1, k);
    }
}

/// Every position has a station and a utility ahead of it within one lap.
pub proof fn lemma_station_utility_ahead(position: int)
    requires
        0 <= position < SPACECOUNT,
    ensures
        0 <= next_in_set(position, PropertySet::Station) < SPACECOUNT,
        0 <= next_in_set(position, PropertySet::Utility) < SPACECOUNT,
{
    let rail = if position < 5 {
        5 - position
    } else if position < 15 {
        15 - position
    } else if position < 25 {
        25 - position
    } else if position < 35 {
        35 - position
    } else {
        45 - position
    };
    assert((position + rail) % 40 == position + rail || (position + rail) % 40 == position + rail
        - 40);
    lemma_scan_finds(position, PropertySet::Station, 1, rail);
    let util = if position < 12 {
        12 - position
    } else if position < 28 {
        28 - position
    } else {
        52 - position
    };
    lemma_scan_finds(position, PropertySet::Utility, 1, util);
}

impl Space {
    /// Property sets are numbered 0 to 7.
    pub open spec fn valid(self) -> bool {
        match self {
            Space::Property(set, _) => set < 8,
            _ => true,
        }
    }

    /// The group of a space.
    pub open spec fn group(self) -> PropertySet {
        match self {
            Space::Go | Space::Visit | Space::FreeParking | Space::GoToJail => PropertySet::Other,
            Space::Property(set, _) => colour_set(set as int),
            Space::Rail(_) => PropertySet::Station,
            Space::Utility(_) => PropertySet::Utility,
            Space::CommunityChest(_) => PropertySet::CommunityChest,
            Space::Chance(_) => PropertySet::Chance,
            Space::Tax(_) => PropertySet::Tax,
        }
    }

    /// The short description: "Go", "Jail", "Free", "ToJail", or a letter
    /// or tag followed by the one-based number within its kind.
    pub open spec fn short_text(self) -> Seq<char> {
        match self {
            Space::Go => seq!['G', 'o'],
            Space::Visit => seq!['J', 'a', 'i', 'l'],
            Space::FreeParking => seq!['F', 'r', 'e', 'e'],
            Space::GoToJail => seq!['T', 'o', 'J', 'a', 'i', 'l'],
            Space::Property(set, i) => seq![set_letter(set as nat)] + decimal((i + 1) as nat),
            Space::Rail(i) => seq!['R'] + decimal((i + 1) as nat),
            Space::Utility(i) => seq!['U'] + decimal((i + 1) as nat),
            Space::CommunityChest(i) => seq!['C', 'C'] + decimal((i + 1) as nat),
            Space::Chance(i) => seq!['C', 'H'] + decimal((i + 1) as nat),
            Space::Tax(i) => seq!['T'] + decimal((i + 1) as nat),
        }
    }

    /// Short description of the space.
    pub fn shortdesc(&self) -> (r: String)
        requires
            self.valid(),
        ensures
            r@ == self.short_text(),
    {
        proof {
            reveal_strlit("Go");
            reveal_strlit("Jail");
            reveal_strlit("Free");
            reveal_strlit("ToJail");
            reveal_strlit("R");
            reveal_strlit("U");
            reveal_strlit("CC");
            reveal_strlit("CH");
            reveal_strlit("T");
        }
        let mut s = String::new();
        let (tag, i): (&str, u8) = match *self {
            Space::Go => {
                s.append("Go");
                return s;
            },
            Space::Visit => {
                s.append("Jail");
                return s;
            },
            Space::FreeParking => {
                s.append("Free");
                return s;
            },
            Space::GoToJail => {
                s.append("ToJail");
                return s;
            },
            Space::Property(set, i) => (set_letter_str(set), i),
            Space::Rail(i) => ("R", i),
            Space::Utility(i) => ("U", i),
            Space::CommunityChest(i) => ("CC", i),
            Space::Chance(i) => ("CH", i),
            Space::Tax(i) => ("T", i),
        };
        s.append(tag);
        push_decimal(&mut s, i as u64 + 1);
        s
    }

    /// The group of the space.
    pub fn set(&self) -> (r: PropertySet)
        requires
            self.valid(),
        ensures
            r == self.group(),
    {
        match *self {
            Space::Go | Space::Visit | Space::FreeParking | Space::GoToJail => PropertySet::Other,
            Space::Property(set, _) => match set {
                0 => PropertySet::Brown,
                1 => PropertySet::LightBlue,
                2 => PropertySet::Pink,
                3 => PropertySet::Orange,
                4 => PropertySet::Red,
                5 => PropertySet::Yellow,
                6 => PropertySet::Green,
                _ => PropertySet::DarkBlue,
            },
            Space::Rail(_) => PropertySet::Station,
            Space::Utility(_) => PropertySet::Utility,
            Space::CommunityChest(_) => PropertySet::CommunityChest,
            Space::Chance(_) => PropertySet::Chance,
            Space::Tax(_) => PropertySet::Tax,
        }
    }

    /// The first position of the board that holds `space`.
    pub fn find(space: Space) -> (r: usize)
        requires
            exists|i: int| 0 <= i < SPACECOUNT && board(i) == space,
        ensures
            r < SPACECOUNT,
            board(r as int) == space,
            forall|j: int| 0 <= j < r ==> board(j) != space,
    {
        let mut i: usize = 0;
        while i < SPACECOUNT
            invariant
                i <= SPACECOUNT,
                forall|j: int| 0 <= j < i ==> board(j) != space,
                exists|k: int| 0 <= k < SPACECOUNT && board(k) == space,
            decreases SPACECOUNT - i,
        {
            if space_at(i) == space {
                return i;
            }
            i = i + 1;
        }
        i
    }

    /// The next station ahead of `position`.
    pub fn next_rail(position: usize) -> (r: usize)
        requires
            position < SPACECOUNT,
        ensures
            r == next_in_set(position as int, PropertySet::Station),
            r < SPACECOUNT,
    {
        proof {
            lemma_station_utility_ahead(position as int);
        }
        Space::find_next(position, PropertySet::Station)
    }

    /// The next utility ahead of `position`.
    pub fn next_util(position: usize) -> (r: usize)
        requires
            position < SPACECOUNT,
        ensures
            r == next_in_set(position as int, PropertySet::Utility),
            r < SPACECOUNT,
    {
        proof {
            lemma_station_utility_ahead(position as int);
        }
        Space::find_next(position, PropertySet::Utility)
    }

    /// The first position after `position`, going forward round the board,
    /// whose space is in `set`.
    pub fn find_next(position: usize, set: PropertySet) -> (r: usize)
        requires
            position < SPACECOUNT,
            next_in_set(position as int, set) >= 0,
        ensures
            r == next_in_set(position as int, set),
            r < SPACECOUNT,
    {
        let mut k: usize = 1;
        while k < SPACECOUNT
            invariant
                1 <= k <= SPACECOUNT,
                position < SPACECOUNT,
                scan_set(position as int, set, k as int) == next_in_set(position as int, set),
                next_in_set(position as int, set) >= 0,
            decreases SPACECOUNT - k,
        {
            let elem = (position + k) % SPACECOUNT;
            let here = space_at(elem);
            proof {
                lemma_board_valid(elem as int);
            }
            if here.set() == set {
                return elem;
            }
            k = k + 1;
        }
        0
    }
}

/// Every space of the board is valid.
pub proof fn lemma_board_valid(position: int)
    requires
        0 <= position < SPACECOUNT,
    ensures
        board(position).valid(),
{
}

/// The dashboard label of a space: "GO", "JAIL", "FREE", "GO2J", or a letter
/// or tag followed by the one-based number within its kind.
pub open spec fn board_label(space: Space) -> Seq<char> {
    match space {
        Space::Go => seq!['G', 'O'],
        Space::Visit => seq!['J', 'A', 'I', 'L'],
        Space::FreeParking => seq!['F', 'R', 'E', 'E'],
        Space::GoToJail => seq!['G', 'O', '2', 'J'],
        Space::Property(set, n) => seq![set_letter(set as nat)] + decimal((n + 1) as nat),
        Space::Rail(n) => seq!['R', 'A', 'I', 'L'] + decimal((n + 1) as nat),
        Space::Utility(n) => seq!['U', 'T', 'I', 'L'] + decimal((n + 1) as nat),
        Space::CommunityChest(n) => seq!['C', 'O', 'M', 'M'] + decimal((n + 1) as nat),
        Space::Chance(n) => seq!['C', 'H', 'N', 'C'] + decimal((n + 1) as nat),
        Space::Tax(n) => seq!['T', 'A', 'X'] + decimal((n + 1) as nat),
    }
}

/// The dashboard label of the space at `elem`.
pub fn space_desc(elem: usize) -> (r: String)
    requires
        elem < SPACECOUNT,
    ensures
        r@ == board_label(board(elem as int)),
{
    proof {
        reveal_strlit("GO");
        reveal_strlit("JAIL");
        reveal_strlit("FREE");
        reveal_strlit("GO2J");
        reveal_strlit("RAIL");
        reveal_strlit("UTIL");
        reveal_strlit("COMM");
        reveal_strlit("CHNC");
        reveal_strlit("TAX");
        lemma_board_valid(elem as int);
    }
    let mut s = String::new();
    let (tag, n): (&str, u8) = match space_at(elem) {
        Space::Go => {
            s.append("GO");
            return s;
        },
        Space::Visit => {
            s.append("JAIL");
            return s;
        },
        Space::FreeParking => {
            s.append("FREE");
            return s;
        },
        Space::GoToJail => {
            s.append("GO2J");
            return s;
        },
        Space::Property(set, n) => (set_letter_str(set), n),
        Space::Rail(n) => ("RAIL", n),
        Space::Utility(n) => ("UTIL", n),
        Space::CommunityChest(n) => ("COMM", n),
        Space::Chance(n) => ("CHNC", n),
        Space::Tax(n) => ("TAX", n),
    };
    s.append(tag);
    push_decimal(&mut s, n as u64 + 1);
    s
}

} // verus!
