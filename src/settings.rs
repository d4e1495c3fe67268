//! The detector's two tunable parameters, changed only by explicit commands.
//!
//! Each value is the single-precision bit pattern of a number in [0, 1]; the
//! range is kept by the control that produces it.
use vstd::prelude::*;

verus! {

/// Bits of 0.3, the default onset threshold.
pub const DEFAULT_THRESHOLD: u32 = 0x3e99_999a;

/// Bits of 0.1, the default silence floor.
pub const DEFAULT_SILENCE: u32 = 0x3dcc_cccd;

#[derive(Clone, Copy, Debug, PartialEq, Eq, Structural)]
pub struct Settings {
    pub threshold: u32,
    pub silence: u32,
}

/// A change made from the controls.
#[derive(Clone, Copy, Debug, PartialEq, Eq, Structural)]
pub enum SettingChange {
    Threshold(u32),
    Silence(u32),
}

impl Settings {
    pub fn new() -> (r: Settings)
        ensures
            r.threshold == DEFAULT_THRESHOLD,
            r.silence == DEFAULT_SILENCE,
    {
        Settings { threshold: DEFAULT_THRESHOLD, silence: DEFAULT_SILENCE }
    }

    pub open spec fn changed(self, change: SettingChange) -> Settings {
        match change {
            SettingChange::Threshold(v) => Settings { threshold: v, ..self },
            SettingChange::Silence(v) => Settings { silence: v, ..self },
        }
    }

    /// The settings after a run of changes, applied in order.
    pub open spec fn changed_all(self, changes: Seq<SettingChange>) -> Settings
        decreases changes.len(),
    {
        if changes.len() == 0 {
            self
        } else {
            self.changed_all(changes.drop_last()).changed(changes.last())
        }
    }

    /// Applies one change: the named parameter takes the new value, the
    /// other keeps its own.
    pub fn apply(&mut self, change: SettingChange)
        ensures
            *final(self) == old(self).changed(change),
    {
        match change {
            SettingChange::Threshold(v) => self.threshold = v,
            SettingChange::Silence(v) => self.silence = v,
        }
    }
}

/// After any run of changes each parameter holds the value of the last
/// change made to it, or its old value when none was; a change to one never
/// touches the other.
pub proof fn lemma_last_change_stands(s: Settings, changes: Seq<SettingChange>, i: int)
    ensures
        (forall|k: int| 0 <= k < changes.len() ==> !(#[trigger] changes[k] is Threshold))
            ==> s.changed_all(changes).threshold == s.threshold,
        (forall|k: int| 0 <= k < changes.len() ==> !(#[trigger] changes[k] is Silence))
            ==> s.changed_all(changes).silence == s.silence,
        0 <= i < changes.len() && changes[i] is Threshold
            && (forall|k: int| i < k < changes.len() ==> !(#[trigger] changes[k] is Threshold))
            ==> s.changed_all(changes).threshold == changes[i]->Threshold_0,
        0 <= i < changes.len() && changes[i] is Silence
            && (forall|k: int| i < k < changes.len() ==> !(#[trigger] changes[k] is Silence))
            ==> s.changed_all(changes).silence == changes[i]->Silence_0,
    decreases changes.len(),
{
    if changes.len() > 0 {
        let init = changes.drop_last();
        let n = changes.len() - 1;
        assert forall|k: int| 0 <= k < init.len() implies #[trigger] init[k] == changes[k] by {}
        if i < n {
            lemma_last_change_stands(s, init, i);
        } else {
            lemma_last_change_stands(s, init, 0);
        }
        if forall|k: int| 0 <= k < changes.len() ==> !(#[trigger] changes[k] is Threshold) {
            assert(!(changes[n] is Threshold));
        }
        if forall|k: int| 0 <= k < changes.len() ==> !(#[trigger] changes[k] is Silence) {
            assert(!(changes[n] is Silence));
        }
    }
}

} // verus!
