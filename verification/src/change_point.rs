//! Boundaries in a measurement series: the points at which the epoch of
//! consecutive commits changes.
//!
//! The statistical change-point search itself works on floating-point
//! values and is done by the application.
use vstd::prelude::*;

verus! {

/// Direction of a detected change.
#[derive(Debug, Clone, Copy, PartialEq, Eq)]
pub enum ChangeDirection {
    /// Performance regression (value increased)
    Increase,
    /// Performance improvement (value decreased)
    Decrease,
}

/// An epoch boundary between two consecutive commits of a series.
#[derive(Debug, Clone, PartialEq, Eq)]
pub struct EpochTransition {
    /// Index in the commit sequence where the transition occurs
    pub index: usize,
    /// Epoch number before the transition
    pub from_epoch: u32,
    /// Epoch number after the transition
    pub to_epoch: u32,
}

/// The transitions of `epochs`: one for each index `i > 0` whose epoch
/// differs from the one before it, in increasing order of `i`.
pub open spec fn transitions_spec(epochs: Seq<u32>) -> Seq<(int, u32, u32)>
    decreases epochs.len(),
{
    if epochs.len() < 2 {
        Seq::empty()
    } else {
        let prev = transitions_spec(epochs.drop_last());
        let n = epochs.len() - 1;
        if epochs[n] != epochs[n - 1] {
            prev.push((n, epochs[n - 1], epochs[n]))
        } else {
            prev
        }
    }
}

/// The fields of a transition as a triple.
pub open spec fn transition_view(t: EpochTransition) -> (int, u32, u32) {
    (t.index as int, t.from_epoch, t.to_epoch)
}

/// The epoch transitions in a sequence of per-commit epochs.
pub fn detect_epoch_transitions(epochs: &[u32]) -> (r: Vec<EpochTransition>)
    ensures
        r@.len() == transitions_spec(epochs@).len(),
        forall|i: int| 0 <= i < r@.len() ==> transition_view(#[trigger] r@[i]) == transitions_spec(epochs@)[i],
{
    let mut transitions: Vec<EpochTransition> = Vec::new();
    if epochs.len() < 2 {
        return transitions;
    }
    let mut i: usize = 1;
    while i < epochs.len()
        invariant
            1 <= i <= epochs@.len(),
            transitions@.len() == transitions_spec(epochs@.take(i as int)).len(),
            forall|j: int| 0 <= j < transitions@.len() ==> transition_view(#[trigger] transitions@[j]) == transitions_spec(epochs@.take(i as int))[j],
        decreases epochs@.len() - i,
    {
        proof {
            assert(epochs@.take(i + 1).drop_last() =~= epochs@.take(i as int));
        }
        if epochs[i] != epochs[i - 1] {
            transitions.push(EpochTransition { index: i, from_epoch: epochs[i - 1], to_epoch: epochs[i] });
        }
        i = i + 1;
    }
    assert(epochs@.take(i as int) =~= epochs@);
    transitions
}

/// Every transition marks a real change: its epochs differ, they are the
/// epochs at `index - 1` and `index`, and the indices increase strictly.
pub proof fn lemma_transitions_are_changes(epochs: Seq<u32>)
    ensures
        forall|k: int| 0 <= k < transitions_spec(epochs).len() ==> {
            let t = #[trigger] transitions_spec(epochs)[k];
            &&& 1 <= t.0 < epochs.len()
            &&& t.1 == epochs[t.0 - 1]
            &&& t.2 == epochs[t.0]
            &&& t.1 != t.2
        },
        forall|a: int, b: int| 0 <= a < b < transitions_spec(epochs).len() ==> transitions_spec(epochs)[a].0 < transitions_spec(epochs)[b].0,
    decreases epochs.len(),
{
    if epochs.len() >= 2 {
        let q = epochs.drop_last();
        lemma_transitions_are_changes(q);
        assert forall|k: int| 0 <= k < transitions_spec(q).len() implies {
            let t = #[trigger] transitions_spec(q)[k];
            t.1 == epochs[t.0 - 1] && t.2 == epochs[t.0]
        } by {
            let t = transitions_spec(q)[k];
            assert(q[t.0 - 1] == epochs[t.0 - 1]);
            assert(q[t.0] == epochs[t.0]);
        }
    }
}

/// Every change of epoch between neighbours is reported as a transition.
pub proof fn lemma_transitions_complete(epochs: Seq<u32>, i: int)
    requires
        1 <= i < epochs.len(),
        epochs[i] != epochs[i - 1],
    ensures
        exists|k: int| 0 <= k < transitions_spec(epochs).len() && #[trigger] transitions_spec(epochs)[k] == (i, epochs[i - 1], epochs[i]),
    decreases epochs.len(),
{
    let q = epochs.drop_last();
    let n = epochs.len() - 1;
    if i == n {
        let t = transitions_spec(epochs);
        assert(t[t.len() - 1] == (i, epochs[i - 1], epochs[i]));
    } else {
        assert(q[i] == epochs[i]);
        assert(q[i - 1] == epochs[i - 1]);
        lemma_transitions_complete(q, i);
        let k = choose|k: int| 0 <= k < transitions_spec(q).len() && #[trigger] transitions_spec(q)[k] == (i, q[i - 1], q[i]);
        assert(transitions_spec(epochs)[k] == transitions_spec(q)[k]);
    }
}

} // verus!
