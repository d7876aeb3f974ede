use vstd::prelude::*;

verus! {

/// The chance of winning one round, as the exact fraction
/// `numerator / denominator`.
#[derive(Clone, Copy, Debug, PartialEq, Eq, Structural)]
pub struct WinChance {
    pub numerator: u32,
    pub denominator: u32,
}

impl WinChance {
    /// A chance is a probability: a fraction with a positive denominator that
    /// lies in `[0, 1]`.
    pub open spec fn wf(self) -> bool {
        0 < self.denominator && self.numerator <= self.denominator
    }

    /// A draw is a number in `[0, denominator)`, each equally likely.
    pub open spec fn valid_draw(self, draw: u32) -> bool {
        draw < self.denominator
    }

    /// The round is won on a draw below the numerator: `numerator` of the
    /// `denominator` possible draws win.
    pub open spec fn wins_on(self, draw: u32) -> bool {
        draw < self.numerator
    }

    /// The chance `numerator / denominator`, or `None` when that is no
    /// probability.
    pub fn new(numerator: u32, denominator: u32) -> (r: Option<WinChance>)
        ensures
            r matches Some(c) ==> c.numerator == numerator && c.denominator == denominator,
            r is Some <==> 0 < denominator && numerator <= denominator,
    {
        if 0 < denominator && numerator <= denominator {
            Some(WinChance { numerator, denominator })
        } else {
            None
        }
    }

    /// Whether every round is won whatever is drawn.
    pub fn is_certain(&self) -> (r: bool)
        requires
            self.wf(),
        ensures
            r == (self.numerator == self.denominator),
            r ==> forall|d: u32| self.valid_draw(d) ==> self.wins_on(d),
    {
        self.numerator == self.denominator
    }
}

} // verus!
