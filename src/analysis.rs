//! The analysis loop. Once per update tick it cuts 50%-overlapping windows
//! from the channel while a whole window is buffered, hands each to the
//! detector with the parameters current at that moment, takes the
//! detector's value back, and at the end of the tick decays the pulse once.
use crate::channel::{grows_to, SampleConsumer};
use crate::pulse::Pulse;
use crate::settings::{SettingChange, Settings};
use vstd::prelude::*;

verus! {

/// Samples per analysis window.
pub const WINDOW_LEN: usize = 1024;

/// Samples the read position advances per window.
pub const HOP_LEN: usize = 512;

/// What a step of the tick asks of the caller.
#[derive(Clone, Copy, Debug, PartialEq, Eq, Structural)]
pub enum Step {
    /// Set these parameters on the detector, run it on the window just cut,
    /// and hand its value to the next step.
    Analyze(Settings),
    /// The tick is over; the pulse has taken its one decay step.
    Done,
}

pub struct Analyzer {
    pub input: SampleConsumer,
    pub settings: Settings,
    pub pulse: Pulse,
}

/// What one window cut leaves of the buffered samples `q`.
pub open spec fn after_cut(q: Seq<u32>) -> Seq<u32> {
    q.subrange(HOP_LEN as int, q.len() as int)
}

/// Cutting a window from `q` takes its oldest `WINDOW_LEN` samples and
/// frees exactly `HOP_LEN` of them; whatever the producer appends meanwhile,
/// the next window begins with the last `HOP_LEN` samples of this one.
pub proof fn lemma_window_overlap(q: Seq<u32>, appended: Seq<u32>)
    requires
        q.len() >= WINDOW_LEN,
    ensures
        after_cut(q).len() == q.len() - HOP_LEN,
        (after_cut(q) + appended).subrange(0, HOP_LEN as int)
            == q.subrange(0, WINDOW_LEN as int).subrange(HOP_LEN as int, WINDOW_LEN as int),
{
    assert((after_cut(q) + appended).subrange(0, HOP_LEN as int)
        =~= q.subrange(0, WINDOW_LEN as int).subrange(HOP_LEN as int, WINDOW_LEN as int));
}

/// The pulse after the detector value handed to a step, if any.
pub open spec fn observed(p: Pulse, last: Option<u32>) -> Pulse {
    match last {
        Some(v) => p.after_result(v),
        None => p,
    }
}

/// What `j` window cuts leave of the buffered samples `q` when nothing is
/// appended meanwhile.
pub open spec fn after_cuts(q: Seq<u32>, j: nat) -> Seq<u32> {
    q.subrange(HOP_LEN * j, q.len() as int)
}

/// Draining a buffer `q` that nothing is appended to: each cut takes `HOP_LEN`
/// more from the front, so the `j`-th window is
/// `q[HOP_LEN * j .. HOP_LEN * j + WINDOW_LEN]`, and each window begins with
/// the last `HOP_LEN` samples of the one before it.
pub proof fn lemma_successive_windows(q: Seq<u32>, j: nat)
    requires
        q.len() >= HOP_LEN * j + WINDOW_LEN,
    ensures
        after_cuts(q, j).len() >= WINDOW_LEN,
        after_cuts(q, j).subrange(0, WINDOW_LEN as int)
            == q.subrange(HOP_LEN * j, HOP_LEN * j + WINDOW_LEN),
        after_cut(after_cuts(q, j)) == after_cuts(q, j + 1),
        j >= 1 ==> after_cuts(q, j).subrange(0, HOP_LEN as int)
            == after_cuts(q, (j - 1) as nat).subrange(0, WINDOW_LEN as int).subrange(
                HOP_LEN as int,
                WINDOW_LEN as int,
            ),
{
    assert(after_cuts(q, j).subrange(0, WINDOW_LEN as int)
        =~= q.subrange(HOP_LEN * j, HOP_LEN * j + WINDOW_LEN));
    assert(after_cut(after_cuts(q, j)) =~= after_cuts(q, j + 1));
    if j >= 1 {
        let k = (j - 1) as nat;
        assert(HOP_LEN * j == HOP_LEN * k + HOP_LEN);
        assert(after_cuts(q, j).subrange(0, HOP_LEN as int)
            =~= after_cuts(q, k).subrange(0, WINDOW_LEN as int).subrange(HOP_LEN as int, WINDOW_LEN as int));
    }
}

/// A tick run by `step`: the first step takes no value, each later one the
/// detector's value for the window before it. After the values `results`
/// have been handed in, the pulse is `after_results(results)`, and the step
/// that ends the tick leaves `after_tick(results)`: one decay, however many
/// windows there were.
pub proof fn lemma_tick_by_steps(p: Pulse, results: Seq<u32>, x: u32)
    ensures
        observed(p, None) == p.after_results(Seq::<u32>::empty()),
        observed(p.after_results(results), Some(x)) == p.after_results(results.push(x)),
        observed(p.after_results(results), Some(x)).decayed() == p.after_tick(results.push(x)),
        observed(p.after_results(results), None).decayed() == p.after_tick(results),
{
    assert(results.push(x).drop_last() =~= results);
}

impl Analyzer {
    /// A loop over `input` with the default parameters and no beat seen.
    pub fn new(input: SampleConsumer) -> (r: Analyzer)
        ensures
            r.input == input,
            r.settings.threshold == crate::settings::DEFAULT_THRESHOLD,
            r.settings.silence == crate::settings::DEFAULT_SILENCE,
            r.pulse == Pulse::Idle,
    {
        Analyzer { input, settings: Settings::new(), pulse: Pulse::new() }
    }

    /// Takes a change from the controls; it reaches the detector with the
    /// next window cut after it, and no earlier one.
    pub fn apply(&mut self, change: SettingChange)
        ensures
            final(self).settings == old(self).settings.changed(change),
            final(self).input == old(self).input,
            final(self).pulse == old(self).pulse,
    {
        self.settings.apply(change);
    }

    /// Cuts the next window into `window` when a whole one is buffered: its
    /// samples are the oldest `WINDOW_LEN`, the current parameters come back
    /// with it, and the read position moves on by `HOP_LEN`. With less
    /// buffered, nothing is cut and `None` comes back.
    pub fn next_window(&mut self, window: &mut Vec<u32>) -> (r: Option<Settings>)
        ensures
            final(self).settings == old(self).settings,
            final(self).pulse == old(self).pulse,
            final(self).input.capacity() == old(self).input.capacity(),
            exists|seen: Seq<u32>|
                #![trigger grows_to(old(self).input.contents(), seen)]
                grows_to(old(self).input.contents(), seen) && match r {
                    None => seen.len() < WINDOW_LEN && final(self).input.contents() == seen
                        && final(window)@ == old(window)@,
                    Some(s) => seen.len() >= WINDOW_LEN
                        && final(window)@ == seen.subrange(0, WINDOW_LEN as int)
                        && s == old(self).settings
                        && final(self).input.contents() == after_cut(seen),
                },
    {
        let n = self.input.available_len();
        let ghost seen = self.input.contents();
        if n < WINDOW_LEN {
            assert(grows_to(old(self).input.contents(), seen));
            None
        } else {
            self.input.peek_copy(window, WINDOW_LEN);
            self.input.discard(HOP_LEN);
            assert(grows_to(old(self).input.contents(), seen));
            Some(self.settings)
        }
    }

    /// One step of an update tick. `last` is the detector's value for the
    /// window the previous step cut (`None` on a tick's first step); a
    /// positive one sets the pulse to full. Then, when a whole window is
    /// buffered, it is cut into `window` and `Analyze` comes back with the
    /// parameters for it; otherwise the pulse decays once and the tick is
    /// `Done`. So each tick decays exactly once, after all its windows.
    pub fn step(&mut self, last: Option<u32>, window: &mut Vec<u32>) -> (r: Step)
        ensures
            final(self).settings == old(self).settings,
            final(self).input.capacity() == old(self).input.capacity(),
            exists|seen: Seq<u32>|
                #![trigger grows_to(old(self).input.contents(), seen)]
                grows_to(old(self).input.contents(), seen) && match r {
                    Step::Done => seen.len() < WINDOW_LEN && final(self).input.contents() == seen
                        && final(self).pulse == observed(old(self).pulse, last).decayed(),
                    Step::Analyze(s) => seen.len() >= WINDOW_LEN
                        && final(window)@ == seen.subrange(0, WINDOW_LEN as int)
                        && s == old(self).settings
                        && final(self).input.contents() == after_cut(seen)
                        && final(self).pulse == observed(old(self).pulse, last),
                },
    {
        if let Some(v) = last {
            self.record(v);
        }
        match self.next_window(window) {
            Some(s) => Step::Analyze(s),
            None => {
                self.end_tick();
                Step::Done
            },
        }
    }

    /// Takes the detector's value for the last window cut, as
    /// single-precision bits: a positive value sets the pulse to full.
    pub fn record(&mut self, result: u32)
        ensures
            final(self).pulse == old(self).pulse.after_result(result),
            final(self).settings == old(self).settings,
            final(self).input == old(self).input,
    {
        self.pulse.observe(result);
    }

    /// Ends the tick: one decay step, however many windows were cut.
    pub fn end_tick(&mut self)
        ensures
            final(self).pulse == old(self).pulse.decayed(),
            final(self).settings == old(self).settings,
            final(self).input == old(self).input,
    {
        self.pulse.decay();
    }

    /// Decay steps since the last beat (strength 0.8 to that power), or
    /// `None` while no beat has been seen (strength 0).
    pub fn decay_steps(&self) -> (r: Option<u64>)
        ensures
            r == match self.pulse {
                Pulse::Idle => None,
                Pulse::Fading { steps } => Some(steps),
            },
    {
        self.pulse.decay_steps()
    }
}

} // verus!
