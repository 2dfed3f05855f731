//! Small programs that exercise common constructs of a code generator:
//! integer arithmetic, an enum with a match.

use vstd::prelude::*;

verus! {

/// Sum of two integers.
pub fn add(a: i32, b: i32) -> (r: i32)
    requires
        i32::MIN <= a + b <= i32::MAX,
    ensures
        r == a + b,
{
    a + b
}

/// `a * b - c`.
pub fn mul_sub(a: i32, b: i32, c: i32) -> (r: i32)
    requires
        i32::MIN <= a * b <= i32::MAX,
        i32::MIN <= a * b - c <= i32::MAX,
    ensures
        r == a * b - c,
{
    a * b - c
}

/// A compass direction.
#[derive(Clone, Copy, Debug, PartialEq, Eq, Structural)]
pub enum Direction {
    North,
    South,
    East,
    West,
}

/// The lower-case name of a direction.
pub open spec fn direction_name(d: Direction) -> Seq<char> {
    match d {
        Direction::North => "north"@,
        Direction::South => "south"@,
        Direction::East => "east"@,
        Direction::West => "west"@,
    }
}

/// The label printed for a direction.
pub fn direction_label(d: Direction) -> (s: &'static str)
    ensures
        s@ == direction_name(d),
{
    match d {
        Direction::North => "north",
        Direction::South => "south",
        Direction::East => "east",
        Direction::West => "west",
    }
}

} // verus!
