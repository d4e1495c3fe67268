//! The strength signal: full on a detected beat, then fading by a factor of
//! 0.8 once per update tick.
//!
//! The signal is held exactly, as the number of decay steps taken since the
//! last beat: `Fading(k)` stands for strength 0.8^k, and `Idle` for strength
//! 0 (no beat seen yet).
use vstd::prelude::*;

verus! {

/// The decay factor as a fraction: strength is multiplied by 4/5 per tick.
pub const DECAY_NUM: u64 = 4;

pub const DECAY_DEN: u64 = 5;

#[derive(Clone, Copy, Debug, PartialEq, Eq, Structural)]
pub enum Pulse {
    /// Strength 0: no beat has been detected yet.
    Idle,
    /// Strength 0.8^steps.
    Fading { steps: u64 },
}

pub open spec fn pow_nat(b: nat, k: nat) -> nat
    decreases k,
{
    if k == 0 { 1 } else { b * pow_nat(b, (k - 1) as nat) }
}

/// Whether a detector value, given as single-precision bits, is greater than
/// zero: sign bit clear, not zero, and not a NaN (infinity counts).
pub open spec fn is_positive_bits(b: u32) -> bool {
    0 < b <= 0x7f80_0000
}

/// No detector value in `results` is positive.
pub open spec fn no_beat(results: Seq<u32>) -> bool {
    forall|i: int| 0 <= i < results.len() ==> !is_positive_bits(#[trigger] results[i])
}

proof fn lemma_quiet_results(p: Pulse, results: Seq<u32>)
    requires
        no_beat(results),
    ensures
        p.after_results(results) == p,
    decreases results.len(),
{
    if results.len() > 0 {
        let init = results.drop_last();
        assert(no_beat(init)) by {
            assert forall|i: int| 0 <= i < init.len() implies !is_positive_bits(#[trigger] init[i]) by {
                assert(init[i] == results[i]);
            }
        }
        lemma_quiet_results(p, init);
        assert(!is_positive_bits(results[results.len() - 1]));
    }
}

/// Between beats the strength never rises: a tick whose detector values are
/// all non-positive leaves the pulse at most as strong as before, whatever
/// the number of values. A tick with a positive value sets the strength to
/// exactly 1 before the tick's decay, whatever came before or after it.
pub proof fn lemma_fades_between_beats(p: Pulse, results: Seq<u32>)
    ensures
        no_beat(results) ==> p.after_tick(results).at_most(p),
        !no_beat(results) ==> p.after_results(results) == (Pulse::Fading { steps: 0 })
            && p.after_results(results).strength_num() == 1
            && p.after_results(results).strength_den() == 1
            && p.after_tick(results) == (Pulse::Fading { steps: 1 }),
    decreases results.len(),
{
    if no_beat(results) {
        lemma_quiet_results(p, results);
    } else if results.len() > 0 {
        let init = results.drop_last();
        if is_positive_bits(results.last()) {
        } else {
            assert(!no_beat(init)) by {
                let i = choose|i: int| 0 <= i < results.len() && is_positive_bits(#[trigger] results[i]);
                assert(i != results.len() - 1);
                assert(init[i] == results[i]);
            }
            lemma_fades_between_beats(p, init);
        }
        assert(pow_nat(DECAY_NUM as nat, 0) == 1);
        assert(pow_nat(DECAY_DEN as nat, 0) == 1);
    }
}

/// Decay comes once per tick, however many detector values the tick had:
/// a tick with no beat is exactly one decay step, so from full strength `k`
/// beatless ticks leave strength (4/5)^k.
pub proof fn lemma_decay_per_tick(ticks: Seq<Seq<u32>>)
    requires
        ticks.len() <= u64::MAX,
        forall|t: int| 0 <= t < ticks.len() ==> no_beat(#[trigger] ticks[t]),
    ensures
        (Pulse::Fading { steps: 0 }).after_ticks(ticks) == (Pulse::Fading { steps: ticks.len() as u64 }),
        (Pulse::Fading { steps: 0 }).after_ticks(ticks).strength_num() == pow_nat(4, ticks.len()),
        (Pulse::Fading { steps: 0 }).after_ticks(ticks).strength_den() == pow_nat(5, ticks.len()),
        forall|p: Pulse, t: int| 0 <= t < ticks.len() ==> #[trigger] p.after_tick(ticks[t]) == p.decayed(),
    decreases ticks.len(),
{
    assert forall|p: Pulse, t: int| 0 <= t < ticks.len() implies #[trigger] p.after_tick(ticks[t]) == p.decayed() by {
        lemma_quiet_results(p, ticks[t]);
    }
    if ticks.len() > 0 {
        let init = ticks.drop_last();
        assert forall|t: int| 0 <= t < init.len() implies no_beat(#[trigger] init[t]) by {
            assert(init[t] == ticks[t]);
        }
        lemma_decay_per_tick(init);
        lemma_quiet_results((Pulse::Fading { steps: init.len() as u64 }), ticks.last());
    }
}

impl Pulse {
    /// The strength as a fraction `num / den`: 0, or (4/5)^steps.
    pub open spec fn strength_num(self) -> nat {
        match self {
            Pulse::Idle => 0,
            Pulse::Fading { steps } => pow_nat(DECAY_NUM as nat, steps as nat),
        }
    }

    pub open spec fn strength_den(self) -> nat {
        match self {
            Pulse::Idle => 1,
            Pulse::Fading { steps } => pow_nat(DECAY_DEN as nat, steps as nat),
        }
    }

    /// Strength of `self` is at most that of `other`.
    pub open spec fn at_most(self, other: Pulse) -> bool {
        match (self, other) {
            (Pulse::Idle, _) => true,
            (Pulse::Fading { .. }, Pulse::Idle) => false,
            (Pulse::Fading { steps: a }, Pulse::Fading { steps: b }) => b <= a,
        }
    }

    /// One decay step (saturating once the strength is far below anything
    /// that can be shown).
    pub open spec fn decayed(self) -> Pulse {
        match self {
            Pulse::Idle => Pulse::Idle,
            Pulse::Fading { steps } => Pulse::Fading {
                steps: if steps == u64::MAX { steps } else { (steps + 1) as u64 },
            },
        }
    }

    /// The pulse after one detector value.
    pub open spec fn after_result(self, result: u32) -> Pulse {
        if is_positive_bits(result) {
            Pulse::Fading { steps: 0 }
        } else {
            self
        }
    }

    /// The pulse after a run of detector values, before the tick's decay.
    pub open spec fn after_results(self, results: Seq<u32>) -> Pulse
        decreases results.len(),
    {
        if results.len() == 0 {
            self
        } else {
            self.after_results(results.drop_last()).after_result(results.last())
        }
    }

    /// The pulse after a whole tick: the tick's detector values, then one decay.
    pub open spec fn after_tick(self, results: Seq<u32>) -> Pulse {
        self.after_results(results).decayed()
    }

    /// The pulse after a run of ticks, each given by its detector values.
    pub open spec fn after_ticks(self, ticks: Seq<Seq<u32>>) -> Pulse
        decreases ticks.len(),
    {
        if ticks.len() == 0 {
            self
        } else {
            self.after_ticks(ticks.drop_last()).after_tick(ticks.last())
        }
    }

    /// A pulse with no beat seen yet.
    pub fn new() -> (r: Pulse)
        ensures
            r == Pulse::Idle,
            r.strength_num() == 0,
    {
        Pulse::Idle
    }

    /// Takes one detector value: a positive one sets the strength to full.
    pub fn observe(&mut self, result: u32)
        ensures
            *final(self) == old(self).after_result(result),
            is_positive_bits(result) ==> final(self).strength_num() == 1
                && final(self).strength_den() == 1,
    {
        if 0 < result && result <= 0x7f80_0000 {
            *self = Pulse::Fading { steps: 0 };
        }
    }

    /// Applies the tick's single decay step.
    pub fn decay(&mut self)
        ensures
            *final(self) == old(self).decayed(),
    {
        match *self {
            Pulse::Idle => {},
            Pulse::Fading { steps } => {
                *self = Pulse::Fading { steps: steps.saturating_add(1) };
            },
        }
    }

    /// Whether no beat has been seen yet (strength 0).
    pub fn is_idle(&self) -> (r: bool)
        ensures
            r == (*self is Idle),
    {
        matches!(*self, Pulse::Idle)
    }

    /// Decay steps taken since the last beat: strength is 0.8 to this power;
    /// `None` while no beat has been seen (strength 0).
    pub fn decay_steps(&self) -> (r: Option<u64>)
        ensures
            r == match *self {
                Pulse::Idle => None,
                Pulse::Fading { steps } => Some(steps),
            },
    {
        match *self {
            Pulse::Idle => None,
            Pulse::Fading { steps } => Some(steps),
        }
    }
}

} // verus!
