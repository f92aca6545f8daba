use vstd::prelude::*;

verus! {

/// The horizontal direction the player asks for: `1` to the right, `-1` to
/// the left, `0` when neither or both movement keys are held.
pub open spec fn held_direction(right_held: bool, left_held: bool) -> int {
    (if right_held {
        1int
    } else {
        0int
    }) - (if left_held {
        1int
    } else {
        0int
    })
}

/// Reads the movement keys into a unit direction along the x axis: the
/// right key adds one, the left key takes one away. A horizontal unit vector
/// is already normalised, so this is the direction of travel.
pub fn horizontal_input(right_held: bool, left_held: bool) -> (dir: i8)
    ensures
        dir == held_direction(right_held, left_held),
        -1 <= dir <= 1,
{
    let mut dir: i8 = 0;
    if right_held {
        dir = dir + 1;
    }
    if left_held {
        dir = dir - 1;
    }
    dir
}

/// Swapping the two movement keys reverses the direction of travel.
pub proof fn lemma_input_mirrored(right_held: bool, left_held: bool)
    ensures
        held_direction(left_held, right_held) == -held_direction(right_held, left_held),
{
}

/// The right key alone moves right, the left key alone moves left, and
/// holding both keys, or neither, keeps the player still.
pub proof fn lemma_input_keys(held: bool)
    ensures
        held_direction(true, false) == 1,
        held_direction(false, true) == -1,
        held_direction(held, held) == 0,
{
}

} // verus!
