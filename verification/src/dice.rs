use vstd::prelude::*;

verus! {

/// One roll of two six-sided dice, stored with the higher value in `first`.
#[derive(Clone, Copy, Debug, PartialEq, Eq, Structural)]
pub struct Dice {
    pub first: u8,
    pub second: u8,
}

impl Dice {
    /// Both dice show a value between 1 and 6, and the higher one comes first.
    pub open spec fn is_valid_spec(self) -> bool {
        1 <= self.second <= self.first <= 6
    }

    /// The dice value built from an unordered pair: high die first.
    pub open spec fn make_spec(first: u8, second: u8) -> Dice {
        if first >= second {
            Dice { first, second }
        } else {
            Dice { first: second, second: first }
        }
    }

    pub fn make(first: u8, second: u8) -> (d: Dice)
        requires
            1 <= first <= 6,
            1 <= second <= 6,
        ensures
            d == Dice::make_spec(first, second),
            d.is_valid_spec(),
    {
        if first < 1 || first > 6 || second < 1 || second > 6 {
            // Construction fails fast on a die value outside 1 to 6.
            return vstd::pervasive::unreached();
        }
        if first >= second {
            Dice { first, second }
        } else {
            Dice { first: second, second: first }
        }
    }

    /// A uniformly random roll of the two dice, canonically ordered.
    pub fn roll() -> (d: Dice)
        ensures
            d.is_valid_spec(),
    {
        let r = crate::rng::random_below(36);
        let a = (r % 6) as u8 + 1;
        let b = (r / 6) as u8 + 1;
        Dice::make(a, b)
    }

    pub fn high(&self) -> (h: u8)
        ensures
            h == self.first,
    {
        self.first
    }

    pub fn low(&self) -> (l: u8)
        ensures
            l == self.second,
    {
        self.second
    }

    pub fn is_double(&self) -> (b: bool)
        ensures
            b == (self.first == self.second),
    {
        self.first == self.second
    }
}

/// The canonical ordering makes dice construction symmetric:
/// the dice made from `(a, b)` equal the dice made from `(b, a)`.
pub proof fn lemma_dice_make_symmetric(a: u8, b: u8)
    ensures
        Dice::make_spec(a, b) == Dice::make_spec(b, a),
{
}

} // verus!
