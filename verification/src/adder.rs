use vstd::prelude::*;

verus! {

/// The sum of two numbers.
pub fn add(left: u64, right: u64) -> (r: u64)
    requires
        left + right <= u64::MAX,
    ensures
        r == left + right,
{
    left + right
}

/// An axis-aligned rectangle.
#[derive(Debug)]
pub struct Rectangle {
    pub width: u32,
    pub height: u32,
}

impl Rectangle {
    /// Whether another rectangle fits strictly inside this one.
    pub fn can_hold(&self, other: &Rectangle) -> (r: bool)
        ensures
            r == (self.width > other.width && self.height > other.height),
    {
        self.width > other.width && self.height > other.height
    }
}

/// A guess in the guessing game: a number from 1 to 100.
pub struct Guess {
    value: i32,
}

impl Guess {
    /// The guessed number.
    pub closed spec fn spec_value(&self) -> i32 {
        self.value
    }

    /// Wrap a guess; a value outside 1 to 100 is refused by contract.
    pub fn new(value: i32) -> (g: Guess)
        requires
            1 <= value <= 100,
        ensures
            g.spec_value() == value,
    {
        Guess { value }
    }
}

} // verus!
