//! The data carried between the notemap compiler, the transport, and the
//! playback engine: chords, play requests, and transport commands.

use vstd::prelude::*;
use vstd::slice::slice_to_vec;
use crate::duration::Duration;

verus! {

/// Mathematical model of a [`Chord`]: the extra hold time in nanoseconds and
/// the note frequencies in order.
pub struct ChordView {
    pub extended_duration: u64,
    pub notes: Seq<u16>,
}

/// A set of simultaneously notated notes sharing one nominal time slot.
///
/// `notes` holds the frequencies in hertz; 0 is reserved to mean silence.
/// `extended_duration` is hold time folded in from rests that followed this
/// chord in the source score.
#[derive(Debug, PartialEq)]
pub struct Chord {
    pub extended_duration: Duration,
    pub notes: Vec<u16>,
}

impl View for Chord {
    type V = ChordView;

    open spec fn view(&self) -> ChordView {
        ChordView { extended_duration: self.extended_duration@, notes: self.notes@ }
    }
}

impl DeepView for Chord {
    type V = ChordView;

    open spec fn deep_view(&self) -> ChordView {
        self@
    }
}

impl Chord {
    /// A chord with no notes and no extra hold time, as a fresh time column
    /// starts out during compilation.
    pub fn empty() -> (r: Chord)
        ensures
            r@ == (ChordView { extended_duration: 0, notes: Seq::empty() }),
    {
        Chord { extended_duration: Duration::zero(), notes: Vec::new() }
    }
}

impl Default for Chord {
    /// The default chord is the empty time column.
    fn default() -> (r: Chord)
        ensures
            r@ == (ChordView { extended_duration: 0, notes: Seq::empty() }),
    {
        Chord::empty()
    }
}

impl Clone for Chord {
    fn clone(&self) -> (r: Self)
        ensures
            r@ == self@,
    {
        Chord {
            extended_duration: self.extended_duration,
            notes: slice_to_vec(self.notes.as_slice()),
        }
    }
}

/// Mathematical model of a [`PlayData`].
pub struct PlayDataView {
    pub chord_duration: u64,
    pub chords: Seq<ChordView>,
}

/// A full play request: the nominal per-chord time base and the chords to
/// render, in order.
#[derive(Debug, PartialEq)]
pub struct PlayData {
    pub chord_duration: Duration,
    pub chords: Vec<Chord>,
}

impl View for PlayData {
    type V = PlayDataView;

    open spec fn view(&self) -> PlayDataView {
        PlayDataView {
            chord_duration: self.chord_duration@,
            chords: self.chords.deep_view(),
        }
    }
}

impl Default for PlayData {
    /// The default request holds no chords and a zero time base; it is
    /// rejected by session construction.
    fn default() -> (r: PlayData)
        ensures
            r@.chord_duration == 0,
            r@.chords.len() == 0,
    {
        PlayData { chord_duration: Duration::zero(), chords: Vec::new() }
    }
}

/// Mathematical model of a [`Command`].
pub enum CommandView {
    Play(PlayDataView),
    Stop,
    Pause,
    Resume,
}

/// A transport command: the wire message and the internal dispatch message
/// are the same shape.
#[derive(Debug, PartialEq)]
pub enum Command {
    Play(PlayData),
    Stop,
    Pause,
    Resume,
}

impl View for Command {
    type V = CommandView;

    open spec fn view(&self) -> CommandView {
        match self {
            Command::Play(data) => CommandView::Play(data@),
            Command::Stop => CommandView::Stop,
            Command::Pause => CommandView::Pause,
            Command::Resume => CommandView::Resume,
        }
    }
}

} // verus!
