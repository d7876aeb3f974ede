use vstd::prelude::*;
use crate::chance::WinChance;
use crate::histogram::{bin, Histogram, lowest, highest, bucket_width, bin_counts, sum};
use crate::simulation::{pity_experiment, valid_draws, wins};

verus! {

/// Number of bars the outcomes of a batch are shown in.
pub const NUM_BARS: usize = 10;

/// Outcome of one run may be `w`: some sequence of draws that the chance can
/// produce makes a run of `rounds` rounds win `w` of them.
pub open spec fn possible_outcome(chance: WinChance, rounds: nat, pity_limit: nat, w: nat) -> bool {
    exists|draws: Seq<u32>|
        draws.len() == rounds && valid_draws(chance, draws) && w == wins(
            chance,
            pity_limit,
            draws,
        )
}

/// Runs `num_runs` independent simulations of `rounds` rounds each and
/// returns the number of rounds won in each, in the order they ran.
pub fn run_batch(chance: WinChance, rounds: usize, pity_limit: usize, num_runs: usize) -> (r: Vec<
    usize,
>)
    requires
        chance.wf(),
    ensures
        r@.len() == num_runs,
        forall|i: int|
            0 <= i < num_runs ==> possible_outcome(
                chance,
                rounds as nat,
                pity_limit as nat,
                #[trigger] r@[i] as nat,
            ),
        forall|i: int|
            0 <= i < num_runs ==> rounds as nat / (pity_limit as nat + 1) <= #[trigger] r@[i]
                <= rounds,
        chance.numerator == chance.denominator ==> forall|i: int|
            0 <= i < num_runs ==> #[trigger] r@[i] == rounds,
        chance.numerator == 0 && rounds <= pity_limit ==> forall|i: int|
            0 <= i < num_runs ==> #[trigger] r@[i] == 0,
{
    let mut hist: Vec<usize> = Vec::new();
    let mut k: usize = 0;
    while k < num_runs
        invariant
            chance.wf(),
            k <= num_runs,
            hist@.len() == k,
            forall|i: int|
                0 <= i < k ==> possible_outcome(
                    chance,
                    rounds as nat,
                    pity_limit as nat,
                    #[trigger] hist@[i] as nat,
                ),
            forall|i: int|
                0 <= i < k ==> rounds as nat / (pity_limit as nat + 1) <= #[trigger] hist@[i]
                    <= rounds,
            chance.numerator == chance.denominator ==> forall|i: int|
                0 <= i < k ==> #[trigger] hist@[i] == rounds,
            chance.numerator == 0 && rounds <= pity_limit ==> forall|i: int|
                0 <= i < k ==> #[trigger] hist@[i] == 0,
        decreases num_runs - k,
    {
        let w = pity_experiment(chance, rounds, pity_limit);
        hist.push(w);
        k += 1;
    }
    hist
}

/// Parameters of the experiment, the outcomes of the last batch, and how
/// many batches have been run.
pub struct PityExperimentApp {
    pub proba: WinChance,
    pub rounds: usize,
    pub pity_limit: usize,
    pub num_simu: usize,
    pub histogram: Option<Vec<usize>>,
    pub last_run_simulation: usize,
}

impl Default for PityExperimentApp {
    /// A chance of 1 in 20, 2000 rounds per run, a forced win after 20
    /// losses, 1000 runs per batch; nothing run yet.
    fn default() -> (r: Self)
        ensures
            r.proba == (WinChance { numerator: 1, denominator: 20 }),
            r.rounds == 2000,
            r.pity_limit == 20,
            r.num_simu == 1000,
            r.histogram is None,
            r.last_run_simulation == 0,
    {
        PityExperimentApp {
            proba: WinChance { numerator: 1, denominator: 20 },
            rounds: 2000,
            pity_limit: 20,
            num_simu: 1000,
            histogram: None,
            last_run_simulation: 0,
        }
    }
}

impl PityExperimentApp {
    /// Runs a batch with the current parameters; its outcomes replace those of
    /// the previous batch, and the count of batches goes up by one.
    pub fn run_simulation(&mut self)
        requires
            old(self).proba.wf(),
            old(self).last_run_simulation < usize::MAX,
        ensures
            final(self).proba == old(self).proba,
            final(self).rounds == old(self).rounds,
            final(self).pity_limit == old(self).pity_limit,
            final(self).num_simu == old(self).num_simu,
            final(self).last_run_simulation == old(self).last_run_simulation + 1,
            final(self).histogram matches Some(h) && h@.len() == old(self).num_simu && forall|
                i: int,
            |
                0 <= i < h@.len() ==> possible_outcome(
                    old(self).proba,
                    old(self).rounds as nat,
                    old(self).pity_limit as nat,
                    #[trigger] h@[i] as nat,
                ) && h@[i] <= old(self).rounds,
    {
        let hist = run_batch(self.proba, self.rounds, self.pity_limit, self.num_simu);
        self.histogram = Some(hist);
        self.last_run_simulation = self.last_run_simulation + 1;
    }

    /// The outcomes of the last batch split into `NUM_BARS` buckets, or
    /// `None` before the first batch.
    pub fn bars(&self) -> (r: Option<Histogram>)
        ensures
            self.histogram is None ==> r is None,
            self.histogram matches Some(h) ==> r matches Some(b) && b.min == lowest(h@)
                && b.width == bucket_width(lowest(h@), highest(h@), NUM_BARS as nat)
                && b.counts@.len() == NUM_BARS && sum(b.counts@) == h@.len() && forall|k: int|
                0 <= k < NUM_BARS ==> b.counts@[k] == #[trigger] bin_counts(h@, NUM_BARS as nat)[k],
    {
        match &self.histogram {
            Some(h) => Some(bin(h, NUM_BARS)),
            None => None,
        }
    }
}

} // verus!
