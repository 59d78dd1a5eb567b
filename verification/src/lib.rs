//! A melody daemon's core: a textual score ("notemap") is compiled into a
//! timed sequence of chords, wrapped into transport commands, and driven by a
//! small playback state machine.

pub mod codec;
pub mod duration;
pub mod engine;
pub mod melody;
pub mod model;
pub mod notemap;
pub mod notes;

pub use codec::{lemma_round_trip, spec_command_wf, spec_decode, spec_enc_command};
pub use duration::Duration;
pub use engine::{SchedulerStep, StepView, ToneStep, ToneStepView};
pub use melody::{Melody, MelodyView};
pub use model::{Chord, ChordView, Command, CommandView, PlayData, PlayDataView};
pub use notemap::chords_from_notemap;
