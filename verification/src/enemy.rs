use vstd::prelude::*;

verus! {

/// Which way along the x axis an enemy is travelling.
#[derive(Clone, Copy, Debug, PartialEq, Eq, Structural)]
pub enum Heading {
    Left,
    Right,
}

impl Heading {
    /// The x component of the unit movement vector.
    pub open spec fn spec_sign(self) -> int {
        match self {
            Heading::Left => -1,
            Heading::Right => 1,
        }
    }

    /// The opposite heading.
    pub open spec fn spec_reversed(self) -> Heading {
        match self {
            Heading::Left => Heading::Right,
            Heading::Right => Heading::Left,
        }
    }

    /// A new enemy starts out moving to the right.
    pub fn initial() -> (h: Heading)
        ensures
            h == Heading::Right,
    {
        Heading::Right
    }

    /// The x component of the unit movement vector: `-1` or `1`.
    pub fn sign(&self) -> (s: i8)
        ensures
            s == self.spec_sign(),
    {
        match self {
            Heading::Left => -1,
            Heading::Right => 1,
        }
    }

    /// The opposite heading.
    pub fn reversed(&self) -> (h: Heading)
        ensures
            h == self.spec_reversed(),
            h.spec_sign() == -self.spec_sign(),
    {
        match self {
            Heading::Left => Heading::Right,
            Heading::Right => Heading::Left,
        }
    }

    /// The heading after a step: an enemy that touches a side wall turns
    /// round (and its step is taken back), otherwise it keeps going.
    pub fn after_step(&self, touches_wall: bool) -> (h: Heading)
        ensures
            h == (if touches_wall {
                self.spec_reversed()
            } else {
                *self
            }),
    {
        if touches_wall {
            self.reversed()
        } else {
            *self
        }
    }
}

/// Turning round twice restores the heading: an enemy bouncing off both side
/// walls travels the way it started.
pub proof fn lemma_reversed_twice(h: Heading)
    ensures
        h.spec_reversed().spec_reversed() == h,
{
}

/// Heading right means moving towards larger x; every heading moves one
/// unit along x, and turning round always changes the heading and the
/// direction of travel.
pub proof fn lemma_heading_directions(h: Heading)
    ensures
        Heading::Right.spec_sign() == 1,
        h.spec_sign() == 1 || h.spec_sign() == -1,
        h.spec_reversed() != h,
        h.spec_reversed().spec_sign() == -h.spec_sign(),
{
}

} // verus!
