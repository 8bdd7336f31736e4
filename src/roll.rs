//! The stick throw that gives the distance of a move.

use crate::text::{decimal, push_decimal, push_text};
use vstd::prelude::*;

verus! {

/// A throw of the four sticks: the raw values and the distance they give.
pub struct PulucRoll {
    pub result: u8,
    pub rolls: [u8; 4],
}

/// What one stick adds to the count: a 1 counts, anything else does not.
pub open spec fn stick_value(v: u8) -> nat {
    if v == 1 {
        1
    } else {
        0
    }
}

/// The number of sticks that show 1.
pub open spec fn ones(rolls: Seq<u8>) -> nat
    decreases rolls.len(),
{
    if rolls.len() == 0 {
        0
    } else {
        ones(rolls.drop_last()) + stick_value(rolls.last())
    }
}

/// The distance of a throw: the number of ones, or 5 when no stick shows 1.
pub open spec fn distance_of(rolls: Seq<u8>) -> nat {
    if ones(rolls) == 0 {
        5
    } else {
        ones(rolls)
    }
}

/// Relies on `rand::random_range`: a value drawn from the thread-local generator
/// that lies in the half-open range asked for.
#[verifier::external_body]
fn throw_stick() -> (r: u8)
    ensures
        r < 2,
{
    rand::random_range(0..2u8)
}

impl PulucRoll {
    /// The roll's distance agrees with its sticks.
    pub open spec fn wf(&self) -> bool {
        self.result as nat == distance_of(self.rolls@)
    }

    /// The text form of a roll: "Roll: d, (a,b,c,e)".
    pub open spec fn text(&self) -> Seq<char> {
        "Roll: "@ + decimal(self.result as nat) + ", ("@ + decimal(self.rolls@[0] as nat) + ","@
            + decimal(self.rolls@[1] as nat) + ","@ + decimal(self.rolls@[2] as nat) + ","@
            + decimal(self.rolls@[3] as nat) + ")"@
    }

    pub fn from_rolls(rolls: [u8; 4]) -> (r: Self)
        ensures
            r.rolls == rolls,
            r.wf(),
            1 <= r.result <= 5,
    {
        let mut result: u8 = 0;
        let mut i: usize = 0;
        while i < 4
            invariant
                0 <= i <= 4,
                rolls@.len() == 4,
                result as nat == ones(rolls@.subrange(0, i as int)),
                result <= i,
            decreases 4 - i,
        {
            assert(rolls@.subrange(0, i as int + 1).drop_last() == rolls@.subrange(0, i as int));
            if rolls[i] == 1 {
                result = result + 1;
            }
            i = i + 1;
        }
        assert(rolls@.subrange(0, 4) == rolls@);
        if result == 0 {
            result = 5;
        }
        PulucRoll { rolls, result }
    }

    /// Throws the four sticks.
    pub fn new() -> (r: Self)
        ensures
            r.wf(),
            1 <= r.result <= 5,
            forall|i: int| 0 <= i < 4 ==> #[trigger] r.rolls@[i] <= 1,
    {
        let mut rolls: [u8; 4] = [0, 0, 0, 0];
        let mut n: usize = 0;
        while n < 4
            invariant
                0 <= n <= 4,
                rolls@.len() == 4,
                forall|i: int| 0 <= i < 4 ==> #[trigger] rolls@[i] <= 1,
            decreases 4 - n,
        {
            let stick = throw_stick();
            rolls[n] = stick;
            n = n + 1;
        }
        PulucRoll::from_rolls(rolls)
    }

    pub fn to_string(&self) -> (r: String)
        ensures
            r@ == self.text(),
    {
        let mut s = String::new();
        push_text(&mut s, "Roll: ");
        push_decimal(&mut s, self.result);
        push_text(&mut s, ", (");
        push_decimal(&mut s, self.rolls[0]);
        push_text(&mut s, ",");
        push_decimal(&mut s, self.rolls[1]);
        push_text(&mut s, ",");
        push_decimal(&mut s, self.rolls[2]);
        push_text(&mut s, ",");
        push_decimal(&mut s, self.rolls[3]);
        push_text(&mut s, ")");
        proof {
            reveal_strlit("Roll: ");
            reveal_strlit(", (");
            reveal_strlit(",");
            reveal_strlit(")");
        }
        s
    }
}

} // verus!
