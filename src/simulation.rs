use vstd::prelude::*;
use crate::chance::WinChance;
use crate::random::{draw_below, thread_rng};

verus! {

/// Wins and current run of losses after one round per draw in `draws`.
///
/// A round first looks at the run of losses: once it has reached
/// `pity_limit` the round is won outright and its draw is not looked at.
/// Otherwise the round is won exactly when its draw wins. A win ends the run
/// of losses; a loss lengthens it.
pub open spec fn play(chance: WinChance, pity_limit: nat, draws: Seq<u32>) -> (nat, nat)
    decreases draws.len(),
{
    if draws.len() == 0 {
        (0, 0)
    } else {
        let (wins, losses) = play(chance, pity_limit, draws.drop_last());
        if losses >= pity_limit {
            (wins + 1, 0)
        } else if chance.wins_on(draws.last()) {
            (wins + 1, 0)
        } else {
            (wins, losses + 1)
        }
    }
}

/// Number of rounds won when one round is played per draw in `draws`.
pub open spec fn wins(chance: WinChance, pity_limit: nat, draws: Seq<u32>) -> nat {
    play(chance, pity_limit, draws).0
}

/// Every draw is one that `chance` can produce.
pub open spec fn valid_draws(chance: WinChance, draws: Seq<u32>) -> bool {
    forall|i: int| 0 <= i < draws.len() ==> chance.valid_draw(#[trigger] draws[i])
}

/// No more rounds are won than are played, and the run of losses never
/// passes the pity limit.
pub proof fn lemma_play_bounds(chance: WinChance, pity_limit: nat, draws: Seq<u32>)
    ensures
        play(chance, pity_limit, draws).0 <= draws.len(),
        play(chance, pity_limit, draws).1 <= draws.len(),
        play(chance, pity_limit, draws).1 <= pity_limit,
    decreases draws.len(),
{
    if draws.len() > 0 {
        lemma_play_bounds(chance, pity_limit, draws.drop_last());
    }
}

proof fn lemma_play_progress(chance: WinChance, pity_limit: nat, draws: Seq<u32>)
    ensures
        draws.len() <= play(chance, pity_limit, draws).0 * (pity_limit + 1)
            + play(chance, pity_limit, draws).1,
    decreases draws.len(),
{
    if draws.len() > 0 {
        let prev = draws.drop_last();
        lemma_play_progress(chance, pity_limit, prev);
        lemma_play_bounds(chance, pity_limit, prev);
        let w = play(chance, pity_limit, prev).0;
        let l = pity_limit + 1;
        assert((w + 1) * l == w * l + l) by (nonlinear_arith);
    }
}

/// Pity alone wins at least one round in every `pity_limit + 1`, whatever
/// is drawn.
pub proof fn lemma_pity_guarantee(chance: WinChance, pity_limit: nat, draws: Seq<u32>)
    ensures
        wins(chance, pity_limit, draws) >= draws.len() / (pity_limit + 1),
{
    lemma_play_progress(chance, pity_limit, draws);
    lemma_play_bounds(chance, pity_limit, draws);
    let n = draws.len() as int;
    let l = pity_limit as int + 1;
    let w = wins(chance, pity_limit, draws) as int;
    let losses = play(chance, pity_limit, draws).1 as int;
    let q = n / l;
    vstd::arithmetic::div_mod::lemma_fundamental_div_mod(n, l as int);
    assert(w >= q) by (nonlinear_arith)
        requires
            n <= w * l + losses,
            losses <= l - 1,
            n == l * q + n % l,
            0 <= n % l,
            l >= 1,
    ;
}

/// With `pity_limit` rounds per forced win, a run of at least `pity_limit`
/// rounds wins at least `len / pity_limit` of them, on the lengths where that
/// is the same count as one win per `pity_limit + 1` rounds.
pub proof fn lemma_pity_floor(chance: WinChance, pity_limit: nat, draws: Seq<u32>)
    requires
        1 <= pity_limit <= draws.len(),
        draws.len() / pity_limit == draws.len() / (pity_limit + 1),
    ensures
        wins(chance, pity_limit, draws) >= draws.len() / pity_limit,
{
    lemma_pity_guarantee(chance, pity_limit, draws);
}

/// A chance of one wins every round.
pub proof fn lemma_certain_chance(chance: WinChance, pity_limit: nat, draws: Seq<u32>)
    requires
        chance.wf(),
        chance.numerator == chance.denominator,
        valid_draws(chance, draws),
    ensures
        wins(chance, pity_limit, draws) == draws.len(),
    decreases draws.len(),
{
    if draws.len() > 0 {
        let prev = draws.drop_last();
        assert(valid_draws(chance, prev)) by {
            assert forall|i: int| 0 <= i < prev.len() implies chance.valid_draw(
                #[trigger] prev[i],
            ) by {
                assert(prev[i] == draws[i]);
            }
        }
        assert(chance.valid_draw(draws[draws.len() - 1]));
        lemma_certain_chance(chance, pity_limit, prev);
    }
}

/// A chance of zero wins no round before pity is due.
pub proof fn lemma_zero_chance(chance: WinChance, pity_limit: nat, draws: Seq<u32>)
    requires
        chance.numerator == 0,
        draws.len() <= pity_limit,
    ensures
        wins(chance, pity_limit, draws) == 0,
        play(chance, pity_limit, draws).1 == draws.len(),
    decreases draws.len(),
{
    if draws.len() > 0 {
        lemma_zero_chance(chance, pity_limit, draws.drop_last());
    }
}

/// Plays one round per draw in `draws` and returns the number of rounds won.
/// The draws stand in for a random source, so a run can be replayed exactly.
pub fn simulate_with_draws(chance: WinChance, pity_limit: usize, draws: &Vec<u32>) -> (r: usize)
    ensures
        r == wins(chance, pity_limit as nat, draws@),
{
    let mut num_wins: usize = 0;
    let mut pity_counter: usize = 0;
    let mut i: usize = 0;
    while i < draws.len()
        invariant
            i <= draws.len(),
            (num_wins as nat, pity_counter as nat) == play(
                chance,
                pity_limit as nat,
                draws@.take(i as int),
            ),
        decreases draws.len() - i,
    {
        proof {
            lemma_play_bounds(chance, pity_limit as nat, draws@.take(i as int));
            assert(draws@.take(i as int + 1).drop_last() =~= draws@.take(i as int));
        }
        if pity_counter >= pity_limit {
            num_wins += 1;
            pity_counter = 0;
        } else if draws[i] < chance.numerator {
            num_wins += 1;
            pity_counter = 0;
        } else {
            pity_counter += 1;
        }
        i += 1;
    }
    assert(draws@.take(draws@.len() as int) =~= draws@);
    num_wins
}

/// Plays `num_rounds` rounds against the thread's random generator and
/// returns the number won. A draw is made only in a round that pity does not
/// decide.
pub fn pity_experiment(chance: WinChance, num_rounds: usize, pity_limit: usize) -> (r: usize)
    requires
        chance.wf(),
    ensures
        exists|draws: Seq<u32>|
            draws.len() == num_rounds && valid_draws(chance, draws) && r == wins(
                chance,
                pity_limit as nat,
                draws,
            ),
        r <= num_rounds,
        r >= num_rounds as nat / (pity_limit as nat + 1),
        chance.numerator == chance.denominator ==> r == num_rounds,
        chance.numerator == 0 && num_rounds <= pity_limit ==> r == 0,
{
    let mut rng = thread_rng();
    let mut num_wins: usize = 0;
    let mut pity_counter: usize = 0;
    let ghost mut drawn: Seq<u32> = Seq::empty();
    let mut i: usize = 0;
    while i < num_rounds
        invariant
            chance.wf(),
            i <= num_rounds,
            drawn.len() == i,
            valid_draws(chance, drawn),
            (num_wins as nat, pity_counter as nat) == play(chance, pity_limit as nat, drawn),
        decreases num_rounds - i,
    {
        proof {
            lemma_play_bounds(chance, pity_limit as nat, drawn);
        }
        let ghost prev = drawn;
        if pity_counter >= pity_limit {
            num_wins += 1;
            pity_counter = 0;
            proof {
                drawn = drawn.push(0);
            }
        } else {
            let draw = draw_below(&mut rng, chance.denominator);
            if draw < chance.numerator {
                num_wins += 1;
                pity_counter = 0;
            } else {
                pity_counter += 1;
            }
            proof {
                drawn = drawn.push(draw);
            }
        }
        proof {
            assert(drawn.drop_last() =~= prev);
            assert forall|k: int| 0 <= k < drawn.len() implies chance.valid_draw(
                #[trigger] drawn[k],
            ) by {
                if k < prev.len() {
                    assert(drawn[k] == prev[k]);
                }
            }
        }
        i += 1;
    }
    proof {
        lemma_play_bounds(chance, pity_limit as nat, drawn);
        lemma_pity_guarantee(chance, pity_limit as nat, drawn);
        if chance.numerator == chance.denominator {
            lemma_certain_chance(chance, pity_limit as nat, drawn);
        }
        if chance.numerator == 0 && num_rounds <= pity_limit {
            lemma_zero_chance(chance, pity_limit as nat, drawn);
        }
    }
    num_wins
}

} // verus!
