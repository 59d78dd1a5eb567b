//! Playback state for one session: a cursor over the chords, a transport
//! flag, and a one-way stop latch, shared between the control side and the
//! scheduling side.

use vstd::prelude::*;
use crate::duration::Duration;
use crate::model::{Chord, ChordView, PlayData};

verus! {

/// What can go wrong inside the playback engine.
#[derive(Clone, Copy, Debug, PartialEq, Eq, Structural)]
pub enum Error {
    /// A play request carried no chords at all.
    NoChordsProvided,
    /// A chord's note count does not fit the divisor type used to apportion
    /// its time slot.
    Convert,
}

/// Mathematical model of a [`Melody`].
pub struct MelodyView {
    pub chord_duration: u64,
    pub chords: Seq<ChordView>,
    pub position: int,
    pub is_playing: bool,
    pub was_stopped: bool,
}

impl MelodyView {
    /// Well-formedness: a melody always holds at least one chord and its
    /// cursor stays in bounds.
    pub open spec fn wf(self) -> bool {
        &&& self.chords.len() >= 1
        &&& 0 <= self.position < self.chords.len()
    }

    /// The scheduler's finished condition: the cursor stands on (or past)
    /// the last chord.  The last chord itself is never emitted; this mirrors
    /// the engine's observed behaviour and is kept for compatibility.
    pub open spec fn is_finished(self) -> bool {
        self.position >= self.chords.len() - 1
    }
}

/// The `pause` transition: playback halts, everything else is unchanged.
pub open spec fn spec_pause(m: MelodyView) -> MelodyView {
    MelodyView { is_playing: false, ..m }
}

/// The `resume` transition: playback runs again, everything else is
/// unchanged; the cursor stays where it was.
pub open spec fn spec_resume(m: MelodyView) -> MelodyView {
    MelodyView { is_playing: true, ..m }
}

/// The `stop` transition: playback halts, the stop latch is set, and the
/// cursor returns to the first chord.
pub open spec fn spec_stop(m: MelodyView) -> MelodyView {
    MelodyView { is_playing: false, was_stopped: true, position: 0, ..m }
}

/// The cursor advance: one step forward, wrapping at the end.
pub open spec fn spec_next_chord(m: MelodyView) -> MelodyView
    recommends
        m.chords.len() >= 1,
{
    MelodyView { position: (m.position + 1) % (m.chords.len() as int), ..m }
}

/// One playback session's state.  Owned by the dispatcher, read and advanced
/// by the scheduler, for the lifetime of the session.
#[derive(Debug)]
pub struct Melody {
    chord_duration: Duration,
    chords: Vec<Chord>,
    position: usize,
    is_playing: bool,
    was_stopped: bool,
}

impl View for Melody {
    type V = MelodyView;

    closed spec fn view(&self) -> MelodyView {
        MelodyView {
            chord_duration: self.chord_duration@,
            chords: self.chords.deep_view(),
            position: self.position as int,
            is_playing: self.is_playing,
            was_stopped: self.was_stopped,
        }
    }
}

impl Melody {
    /// Builds the state for a fresh session.  Fails, with no other effect,
    /// exactly when the request carries no chords; otherwise the session
    /// starts at the first chord, not yet playing and not stopped.
    pub fn from_data(data: PlayData) -> (r: Result<Melody, Error>)
        ensures
            data@.chords.len() == 0 <==> r is Err,
            r is Err ==> (r matches Err(e) && e == Error::NoChordsProvided),
            r matches Ok(m) ==> m@ == (MelodyView {
                chord_duration: data@.chord_duration,
                chords: data@.chords,
                position: 0,
                is_playing: false,
                was_stopped: false,
            }),
            r matches Ok(m) ==> m@.wf(),
    {
        if data.chords.len() == 0 {
            return Err(Error::NoChordsProvided);
        }

        Ok(Melody {
            position: 0,
            is_playing: false,
            was_stopped: false,
            chord_duration: data.chord_duration,
            chords: data.chords,
        })
    }

    /// Whether the transport flag says "playing".
    pub fn is_playing(&self) -> (r: bool)
        ensures
            r == self@.is_playing,
    {
        self.is_playing
    }

    /// Lets playback run; the cursor stays where it was.
    pub fn resume(&mut self)
        ensures
            final(self)@ == spec_resume(old(self)@),
    {
        self.is_playing = true;
    }

    /// Halts playback; the cursor stays where it was.  The caller is
    /// expected to emit silence so output stops at once.
    pub fn pause(&mut self)
        ensures
            final(self)@ == spec_pause(old(self)@),
    {
        self.is_playing = false;
    }

    /// Whether the scheduler's finished condition holds.
    pub fn is_finished(&self) -> (r: bool)
        requires
            self@.wf(),
        ensures
            r == self@.is_finished(),
    {
        self.position >= self.chords.len() - 1
    }

    /// Whether the stop latch has been set.
    pub fn was_stopped(&self) -> (r: bool)
        ensures
            r == self@.was_stopped,
    {
        self.was_stopped
    }

    /// Halts playback for good: sets the one-way stop latch and resets the
    /// cursor.  The caller is expected to emit silence so output stops at
    /// once.
    pub fn stop(&mut self)
        ensures
            final(self)@ == spec_stop(old(self)@),
    {
        self.is_playing = false;
        self.was_stopped = true;
        self.position = 0;
    }

    /// Advances the cursor by one chord, wrapping at the end.
    pub fn next_chord(&mut self)
        requires
            old(self)@.wf(),
        ensures
            final(self)@ == spec_next_chord(old(self)@),
            final(self)@.wf(),
    {
        let n = self.chords.len();
        proof {
            assert(self@.chords.len() == self.chords@.len());
            assert((self.position as int) < n as int);
        }
        self.position = (self.position + 1) % n;
    }

    /// The chord under the cursor.
    pub fn get_chord(&self) -> (r: Chord)
        requires
            self@.wf(),
        ensures
            r@ == self@.chords[self@.position],
    {
        self.chords[self.position].clone()
    }

    /// The nominal per-chord time base.
    pub fn get_chord_duration(&self) -> (r: Duration)
        ensures
            r@ == self@.chord_duration,
    {
        self.chord_duration
    }
}

/// A control-side operation that can reach a melody after it was created:
/// used to state what whole call sequences preserve.
pub enum MelodyOp {
    Pause,
    Resume,
    Next,
}

/// The state after one control-side operation.
pub open spec fn apply_op(m: MelodyView, op: MelodyOp) -> MelodyView {
    match op {
        MelodyOp::Pause => spec_pause(m),
        MelodyOp::Resume => spec_resume(m),
        MelodyOp::Next => spec_next_chord(m),
    }
}

/// The state after a whole sequence of control-side operations, first one
/// first.
pub open spec fn apply_ops(m: MelodyView, ops: Seq<MelodyOp>) -> MelodyView
    decreases ops.len(),
{
    if ops.len() == 0 {
        m
    } else {
        apply_ops(apply_op(m, ops[0]), ops.skip(1))
    }
}

/// Pausing and then resuming leaves the cursor (and everything but the
/// transport flag) unchanged: playback picks up where it left off.
pub proof fn lemma_pause_then_resume(m: MelodyView)
    ensures
        spec_resume(spec_pause(m)) == spec_resume(m),
        spec_resume(spec_pause(m)).position == m.position,
        spec_resume(spec_pause(m)).chords == m.chords,
        spec_resume(spec_pause(m)).was_stopped == m.was_stopped,
{
}

/// Stopping always resets the cursor to the first chord and sets the stop
/// latch.
pub proof fn lemma_stop_resets(m: MelodyView)
    ensures
        spec_stop(m).position == 0,
        spec_stop(m).was_stopped,
        !spec_stop(m).is_playing,
{
}

/// The stop latch is one-way: once set, no sequence of pause, resume or
/// cursor-advance operations ever clears it, so a stopped session is not
/// resumable.
pub proof fn lemma_stop_is_latched(m: MelodyView, ops: Seq<MelodyOp>)
    requires
        m.was_stopped,
    ensures
        apply_ops(m, ops).was_stopped,
    decreases ops.len(),
{
    if ops.len() > 0 {
        lemma_stop_is_latched(apply_op(m, ops[0]), ops.skip(1));
    }
}

} // verus!
