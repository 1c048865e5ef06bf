//! A click counter and what the page derives from it.

use vstd::prelude::*;

verus! {

/// The count above which a counter is called big.
pub const BIG_THRESHOLD: i32 = 10;

/// What is shown for a count, by its parity.
pub open spec fn parity_text(n: int) -> Seq<char> {
    if n % 2 == 1 {
        "Odd"@
    } else {
        "Even"@
    }
}

/// A count of clicks. It starts at a value that is not negative and only
/// ever goes up, one click at a time.
#[derive(Clone, Copy, Debug, PartialEq, Eq)]
pub struct Counter {
    count: i32,
}

impl View for Counter {
    type V = int;

    closed spec fn view(&self) -> int {
        self.count as int
    }
}

impl Counter {
    #[verifier::type_invariant]
    spec fn never_negative(self) -> bool {
        self.count >= 0
    }

    /// A counter that has seen no click.
    pub fn new() -> (c: Self)
        ensures
            c@ == 0,
    {
        Counter { count: 0 }
    }

    /// A counter that already stands at `start`. There is none for a `start`
    /// below zero.
    pub fn starting_at(start: i32) -> (c: Option<Self>)
        ensures
            match c {
                Some(counter) => start >= 0 && counter@ == start,
                None => start < 0,
            },
    {
        if start >= 0 {
            Some(Counter { count: start })
        } else {
            None
        }
    }

    /// The current count.
    pub fn get(&self) -> (n: i32)
        ensures
            n == self@,
            n >= 0,
    {
        proof {
            use_type_invariant(self);
        }
        self.count
    }

    /// Whether one more click still fits.
    pub fn can_increment(&self) -> (fits: bool)
        ensures
            fits == (self@ < i32::MAX),
    {
        self.count < i32::MAX
    }

    /// One click.
    pub fn increment(&mut self)
        requires
            old(self)@ < i32::MAX,
        ensures
            final(self)@ == old(self)@ + 1,
    {
        proof {
            use_type_invariant(&*self);
        }
        self.count = self.count + 1;
    }

    /// Whether twice the count still fits.
    pub fn can_double(&self) -> (fits: bool)
        ensures
            fits == (2 * self@ <= i32::MAX),
    {
        self.count <= i32::MAX / 2
    }

    /// Twice the count.
    pub fn doubled(&self) -> (d: i32)
        requires
            2 * self@ <= i32::MAX,
        ensures
            d == 2 * self@,
    {
        proof {
            use_type_invariant(self);
        }
        self.count * 2
    }

    /// Whether the count is odd.
    pub fn is_odd(&self) -> (odd: bool)
        ensures
            odd == (self@ % 2 == 1),
    {
        proof {
            use_type_invariant(self);
        }
        self.count % 2 == 1
    }

    /// `"Odd"` or `"Even"`.
    pub fn parity(&self) -> (label: &'static str)
        ensures
            label@ == parity_text(self@),
    {
        if self.is_odd() {
            "Odd"
        } else {
            "Even"
        }
    }

    /// Whether the count went past [`BIG_THRESHOLD`].
    pub fn is_big(&self) -> (big: bool)
        ensures
            big == (self@ > BIG_THRESHOLD),
    {
        self.count > BIG_THRESHOLD
    }
}

/// The counters of a fixed row of `length`: the first stands at one, each
/// next one a step higher. A `length` below one gives an empty row.
pub fn counter_row(length: i32) -> (row: Vec<Counter>)
    ensures
        row.len() == if length > 0 {
            length as int
        } else {
            0
        },
        forall|i: int| 0 <= i < row.len() ==> (#[trigger] row[i])@ == i + 1,
{
    let mut row: Vec<Counter> = Vec::new();
    let mut start: i32 = 0;
    while start < length
        invariant
            0 <= start,
            start <= length || start == 0,
            row.len() == start,
            forall|i: int| 0 <= i < row.len() ==> (#[trigger] row[i])@ == i + 1,
        decreases length - start,
    {
        start = start + 1;
        row.push(Counter { count: start });
    }
    row
}

/// A click turns an odd count into an even one and an even one into an odd
/// one.
pub proof fn lemma_click_flips_parity(n: int)
    ensures
        (n + 1) % 2 == 1 <==> n % 2 != 1,
        parity_text(n + 1) != parity_text(n),
{
    reveal_strlit("Odd");
    reveal_strlit("Even");
    assert("Odd"@.len() != "Even"@.len());
}

/// Twice a count is never odd.
pub proof fn lemma_double_is_even(n: int)
    ensures
        parity_text(2 * n) == "Even"@,
{
}

} // verus!
