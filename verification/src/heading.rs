//! The four headings, their unit displacements and the order in which a
//! blocked marker turns.

use vstd::prelude::*;

verus! {

/// A direction of travel.  The headings form the cycle
/// East, South, West, North, East: each one turns into the one after it.
#[derive(Clone, Copy, Debug, PartialEq, Eq, Structural)]
pub enum Heading {
    East,
    South,
    West,
    North,
}

/// A step of one cell along exactly one axis.
#[derive(Clone, Copy, Debug, PartialEq, Eq, Structural)]
pub struct Displacement {
    pub d_row: i8,
    pub d_col: i8,
}

/// What the table holds for one heading.
#[derive(Clone, Copy, Debug, PartialEq, Eq, Structural)]
pub struct HeadingInfo {
    pub displacement: Displacement,
    pub next: Heading,
}

impl Heading {
    /// The change in row and column that one step in this heading makes.
    /// Rows grow downwards and columns grow to the right.
    pub open spec fn delta(self) -> (int, int) {
        match self {
            Heading::East => (0, 1),
            Heading::South => (1, 0),
            Heading::West => (0, -1),
            Heading::North => (-1, 0),
        }
    }

    /// The heading that a marker takes up when this one is blocked.
    pub open spec fn successor(self) -> Heading {
        match self {
            Heading::East => Heading::South,
            Heading::South => Heading::West,
            Heading::West => Heading::North,
            Heading::North => Heading::East,
        }
    }

    /// This heading after `turns` turns.
    pub open spec fn rotated(self, turns: nat) -> Heading
        decreases turns,
    {
        if turns == 0 {
            self
        } else {
            self.rotated((turns - 1) as nat).successor()
        }
    }
}

/// Looks up the displacement of `h` and the heading that follows it.
pub fn heading_info(h: Heading) -> (info: HeadingInfo)
    ensures
        info.displacement.d_row == h.delta().0,
        info.displacement.d_col == h.delta().1,
        info.next == h.successor(),
{
    match h {
        Heading::East => HeadingInfo {
            displacement: Displacement { d_row: 0, d_col: 1 },
            next: Heading::South,
        },
        Heading::South => HeadingInfo {
            displacement: Displacement { d_row: 1, d_col: 0 },
            next: Heading::West,
        },
        Heading::West => HeadingInfo {
            displacement: Displacement { d_row: 0, d_col: -1 },
            next: Heading::North,
        },
        Heading::North => HeadingInfo {
            displacement: Displacement { d_row: -1, d_col: 0 },
            next: Heading::East,
        },
    }
}

/// Every displacement moves one cell along one axis and none along the other.
pub proof fn lemma_delta_is_unit(h: Heading)
    ensures
        -1 <= h.delta().0 <= 1,
        -1 <= h.delta().1 <= 1,
        (h.delta().0 == 0) != (h.delta().1 == 0),
{
}

/// Four turns bring any heading back to itself, and fewer do not.
pub proof fn lemma_four_turns_close_the_cycle(h: Heading)
    ensures
        h.successor().successor().successor().successor() == h,
        h.rotated(4) == h,
        h.rotated(1) != h,
        h.rotated(2) != h,
        h.rotated(3) != h,
{
    reveal_with_fuel(Heading::rotated, 5);
}

} // verus!
