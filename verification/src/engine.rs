//! The scheduling side of playback, as pure decisions: what the scheduler
//! loop does with the state it reads, and how a chord's time slot is split
//! over its notes.  The loop itself — tone emission, sleeping, locking —
//! lives outside the library and only carries these decisions out.

use vstd::prelude::*;
use crate::duration::Duration;
use crate::melody::{apply_ops, Error, Melody, MelodyOp, MelodyView};
use crate::model::{Chord, ChordView};

verus! {

/// Model of a [`SchedulerStep`].
pub enum StepView {
    Finish,
    Wait,
    Emit(ChordView, u64),
}

/// What one iteration of the scheduler loop must do.
#[derive(Debug, PartialEq)]
pub enum SchedulerStep {
    /// The session is over (stopped, or the cursor reached the finished
    /// condition): leave the loop.
    Finish,
    /// The session is paused: poll again without advancing.
    Wait,
    /// Emit this chord over this nominal time base, then advance the cursor.
    Emit(Chord, Duration),
}

impl View for SchedulerStep {
    type V = StepView;

    open spec fn view(&self) -> StepView {
        match self {
            SchedulerStep::Finish => StepView::Finish,
            SchedulerStep::Wait => StepView::Wait,
            SchedulerStep::Emit(c, d) => StepView::Emit(c@, d@),
        }
    }
}

/// The scheduler's per-iteration decision: stop and finished conditions are
/// terminal, a paused session waits, and otherwise the chord under the
/// cursor is emitted with the nominal time base.
pub open spec fn spec_scheduler_step(m: MelodyView) -> StepView {
    if m.was_stopped {
        StepView::Finish
    } else if m.is_finished() {
        StepView::Finish
    } else if !m.is_playing {
        StepView::Wait
    } else {
        StepView::Emit(m.chords[m.position], m.chord_duration)
    }
}

/// Reads the melody once and decides what the scheduler loop does next.
pub fn scheduler_step(m: &Melody) -> (r: SchedulerStep)
    requires
        m@.wf(),
    ensures
        r@ == spec_scheduler_step(m@),
{
    if m.was_stopped() {
        SchedulerStep::Finish
    } else if m.is_finished() {
        SchedulerStep::Finish
    } else if !m.is_playing() {
        SchedulerStep::Wait
    } else {
        SchedulerStep::Emit(m.get_chord(), m.get_chord_duration())
    }
}

/// Model of a [`ToneStep`].
pub struct ToneStepView {
    pub freq: u16,
    pub hold: u64,
}

/// One tone emission: set the output to `freq` (0 is silence) and hold it
/// for `hold`.
#[derive(Debug, PartialEq)]
pub struct ToneStep {
    pub freq: u16,
    pub hold: Duration,
}

impl View for ToneStep {
    type V = ToneStepView;

    open spec fn view(&self) -> ToneStepView {
        ToneStepView { freq: self.freq, hold: self.hold@ }
    }
}

impl DeepView for ToneStep {
    type V = ToneStepView;

    open spec fn deep_view(&self) -> ToneStepView {
        self@
    }
}

/// How a chord is rendered: each note in order gets an equal slice of the
/// nominal time base (played sequentially — the system's approximation of a
/// chord), the last note is re-emitted and held for the extra time folded in
/// from absorbed rests, and a final silence cleanly ends the segment.
pub open spec fn spec_emission_plan(c: ChordView, d: u64) -> Seq<ToneStepView>
    recommends
        c.notes.len() <= u32::MAX,
{
    let n = c.notes.len();
    let slices = Seq::new(
        n,
        |i: int| ToneStepView { freq: c.notes[i], hold: (d / (n as u64)) as u64 },
    );
    let tail = if n > 0 {
        seq![ToneStepView { freq: c.notes[n - 1], hold: c.extended_duration }]
    } else {
        Seq::<ToneStepView>::empty()
    };
    slices + tail + seq![ToneStepView { freq: 0u16, hold: 0u64 }]
}

/// Splits a chord's time slot into the exact sequence of tone emissions the
/// scheduler must perform.  Fails only when the note count does not fit the
/// divisor type, which a compiled score never produces.
pub fn chord_emission_plan(chord: &Chord, chord_duration: &Duration) -> (r: Result<
    Vec<ToneStep>,
    Error,
>)
    ensures
        chord@.notes.len() > u32::MAX ==> r == Err::<Vec<ToneStep>, Error>(Error::Convert),
        chord@.notes.len() <= u32::MAX ==> (r matches Ok(p) && p.deep_view()
            == spec_emission_plan(chord@, chord_duration@)),
{
    let n = chord.notes.len();
    if n > u32::MAX as usize {
        return Err(Error::Convert);
    }

    let mut plan: Vec<ToneStep> = Vec::new();
    let mut i: usize = 0;
    while i < n
        invariant
            n == chord@.notes.len(),
            n <= u32::MAX,
            i <= n,
            plan@.len() == i,
            forall|j: int|
                0 <= j < i ==> plan@[j]@ == (ToneStepView {
                    freq: chord@.notes[j],
                    hold: (chord_duration@ / (n as u64)) as u64,
                }),
        decreases n - i,
    {
        plan.push(ToneStep { freq: chord.notes[i], hold: chord_duration.div(n as u64) });
        i += 1;
    }

    if n > 0 {
        plan.push(ToneStep { freq: chord.notes[n - 1], hold: chord.extended_duration });
    }
    plan.push(ToneStep { freq: 0, hold: Duration::zero() });

    proof {
        let goal = spec_emission_plan(chord@, chord_duration@);
        assert forall|j: int| 0 <= j < goal.len() implies plan.deep_view()[j] == goal[j] by {
            assert(plan.deep_view()[j] == plan@[j]@);
            if j < n {
                assert(plan@[j]@ == (ToneStepView {
                    freq: chord@.notes[j],
                    hold: (chord_duration@ / (n as u64)) as u64,
                }));
            } else if n > 0 && j == n {
                assert(plan@[j]@ == (ToneStepView {
                    freq: chord@.notes[n - 1],
                    hold: chord@.extended_duration,
                }));
            } else {
                assert(plan@[j]@ == (ToneStepView { freq: 0u16, hold: 0u64 }));
            }
        }
        assert(plan.deep_view() =~= goal);
    }
    Ok(plan)
}

/// Once the stop latch is set, no later pause, resume or cursor-advance
/// operation can make the scheduler emit again: every subsequent decision is
/// to leave the loop.  This is what makes `stop` take effect within one
/// loop iteration, and a second `play` safe to start after the old thread
/// is joined.
pub proof fn lemma_stop_halts_scheduler(m: MelodyView, ops: Seq<MelodyOp>)
    requires
        m.was_stopped,
    ensures
        spec_scheduler_step(apply_ops(m, ops)) is Finish,
{
    crate::melody::lemma_stop_is_latched(m, ops);
}

} // verus!
