//! The wire encoding of transport commands: a compact binary form, read
//! back from a stream that was received whole.
//!
//! A command is one tag byte — 0 play, 1 stop, 2 pause, 3 resume — and, for
//! play, the request body: the chord duration in nanoseconds, then the
//! chord count, then each chord as its extended duration, its note count,
//! and its notes.  Durations and counts are little-endian 64-bit words;
//! notes are little-endian 16-bit frequencies.  Decoding accepts exactly
//! the encodings and nothing else: trailing bytes, a short body, or an
//! unknown tag are failures.

use vstd::prelude::*;
use crate::model::{Chord, ChordView, Command, CommandView, PlayData, PlayDataView};
use crate::duration::Duration;

verus! {

/// What can go wrong on the wire.
#[derive(Clone, Copy, Debug, PartialEq, Eq, Structural)]
pub enum Error {
    /// The bytes are not the encoding of any command.
    Decode,
    /// Reserved for an encoding failure; the encoder here always succeeds.
    Encode,
}

/// A 16-bit word, little endian.
pub open spec fn spec_enc_u16(v: u16) -> Seq<u8> {
    seq![(v & 0xff) as u8, ((v >> 8) & 0xff) as u8]
}

/// A 64-bit word, little endian.
pub open spec fn spec_enc_u64(v: u64) -> Seq<u8> {
    seq![
        (v & 0xff) as u8,
        ((v >> 8) & 0xff) as u8,
        ((v >> 16) & 0xff) as u8,
        ((v >> 24) & 0xff) as u8,
        ((v >> 32) & 0xff) as u8,
        ((v >> 40) & 0xff) as u8,
        ((v >> 48) & 0xff) as u8,
        ((v >> 56) & 0xff) as u8,
    ]
}

/// The notes of one chord, in order.
pub open spec fn spec_enc_notes(notes: Seq<u16>) -> Seq<u8>
    decreases notes.len(),
{
    if notes.len() == 0 {
        Seq::empty()
    } else {
        spec_enc_u16(notes[0]) + spec_enc_notes(notes.skip(1))
    }
}

/// One chord: extended duration, note count, notes.
pub open spec fn spec_enc_chord(c: ChordView) -> Seq<u8> {
    spec_enc_u64(c.extended_duration) + spec_enc_u64(c.notes.len() as u64) + spec_enc_notes(
        c.notes,
    )
}

/// A chord list, in order.
pub open spec fn spec_enc_chords(cs: Seq<ChordView>) -> Seq<u8>
    decreases cs.len(),
{
    if cs.len() == 0 {
        Seq::empty()
    } else {
        spec_enc_chord(cs[0]) + spec_enc_chords(cs.skip(1))
    }
}

/// A play request body: chord duration, chord count, chords.
pub open spec fn spec_enc_play_data(p: PlayDataView) -> Seq<u8> {
    spec_enc_u64(p.chord_duration) + spec_enc_u64(p.chords.len() as u64) + spec_enc_chords(
        p.chords,
    )
}

/// A whole command: its tag byte, then for play the body.
pub open spec fn spec_enc_command(c: CommandView) -> Seq<u8> {
    match c {
        CommandView::Play(p) => seq![0u8] + spec_enc_play_data(p),
        CommandView::Stop => seq![1u8],
        CommandView::Pause => seq![2u8],
        CommandView::Resume => seq![3u8],
    }
}

/// Reads a 64-bit word at `pos`: its value and the next position.
pub open spec fn spec_dec_u64(b: Seq<u8>, pos: int) -> Option<(u64, int)> {
    if pos < 0 || pos + 8 > b.len() {
        None
    } else {
        let v = (b[pos] as u64) | ((b[pos + 1] as u64) << 8) | ((b[pos + 2] as u64) << 16) | ((
        b[pos + 3] as u64) << 24) | ((b[pos + 4] as u64) << 32) | ((b[pos + 5] as u64) << 40)
            | ((b[pos + 6] as u64) << 48) | ((b[pos + 7] as u64) << 56);
        Some((v, pos + 8))
    }
}

/// Reads a 16-bit word at `pos`.
pub open spec fn spec_dec_u16(b: Seq<u8>, pos: int) -> Option<(u16, int)> {
    if pos < 0 || pos + 2 > b.len() {
        None
    } else {
        Some(((b[pos] as u16) | ((b[pos + 1] as u16) << 8), pos + 2))
    }
}

/// Reads `m` notes at `pos`.
pub open spec fn spec_dec_notes(b: Seq<u8>, pos: int, m: nat) -> Option<(Seq<u16>, int)>
    decreases m,
{
    if m == 0 {
        Some((Seq::empty(), pos))
    } else {
        match spec_dec_u16(b, pos) {
            None => None,
            Some((v, p2)) => match spec_dec_notes(b, p2, (m - 1) as nat) {
                None => None,
                Some((rest, p3)) => Some((seq![v] + rest, p3)),
            },
        }
    }
}

/// Reads one chord at `pos`.
pub open spec fn spec_dec_chord(b: Seq<u8>, pos: int) -> Option<(ChordView, int)> {
    match spec_dec_u64(b, pos) {
        None => None,
        Some((ext, p2)) => match spec_dec_u64(b, p2) {
            None => None,
            Some((m, p3)) => match spec_dec_notes(b, p3, m as nat) {
                None => None,
                Some((notes, p4)) => Some(
                    (ChordView { extended_duration: ext, notes }, p4),
                ),
            },
        },
    }
}

/// Reads `n` chords at `pos`.
pub open spec fn spec_dec_chords(b: Seq<u8>, pos: int, n: nat) -> Option<(Seq<ChordView>, int)>
    decreases n,
{
    if n == 0 {
        Some((Seq::empty(), pos))
    } else {
        match spec_dec_chord(b, pos) {
            None => None,
            Some((c, p2)) => match spec_dec_chords(b, p2, (n - 1) as nat) {
                None => None,
                Some((rest, p3)) => Some((seq![c] + rest, p3)),
            },
        }
    }
}

/// Reads a play request body at `pos`.
pub open spec fn spec_dec_play_data(b: Seq<u8>, pos: int) -> Option<(PlayDataView, int)> {
    match spec_dec_u64(b, pos) {
        None => None,
        Some((d, p2)) => match spec_dec_u64(b, p2) {
            None => None,
            Some((n, p3)) => match spec_dec_chords(b, p3, n as nat) {
                None => None,
                Some((chords, p4)) => Some((PlayDataView { chord_duration: d, chords }, p4)),
            },
        },
    }
}

/// The command encoded by `b`, which must be consumed exactly.
pub open spec fn spec_decode(b: Seq<u8>) -> Option<CommandView> {
    if b.len() < 1 {
        None
    } else if b[0] == 0u8 {
        match spec_dec_play_data(b, 1) {
            None => None,
            Some((p, end)) => if end == b.len() {
                Some(CommandView::Play(p))
            } else {
                None
            },
        }
    } else if b[0] == 1u8 {
        if b.len() == 1 {
            Some(CommandView::Stop)
        } else {
            None
        }
    } else if b[0] == 2u8 {
        if b.len() == 1 {
            Some(CommandView::Pause)
        } else {
            None
        }
    } else if b[0] == 3u8 {
        if b.len() == 1 {
            Some(CommandView::Resume)
        } else {
            None
        }
    } else {
        None
    }
}

/// Appends the little-endian bytes of a 64-bit word.
fn push_u64(out: &mut Vec<u8>, v: u64)
    ensures
        final(out)@ == old(out)@ + spec_enc_u64(v),
{
    out.push((v & 0xff) as u8);
    out.push(((v >> 8) & 0xff) as u8);
    out.push(((v >> 16) & 0xff) as u8);
    out.push(((v >> 24) & 0xff) as u8);
    out.push(((v >> 32) & 0xff) as u8);
    out.push(((v >> 40) & 0xff) as u8);
    out.push(((v >> 48) & 0xff) as u8);
    out.push(((v >> 56) & 0xff) as u8);
    proof {
        assert(out@ =~= old(out)@ + spec_enc_u64(v));
    }
}

/// Appends the little-endian bytes of a 16-bit word.
fn push_u16(out: &mut Vec<u8>, v: u16)
    ensures
        final(out)@ == old(out)@ + spec_enc_u16(v),
{
    out.push((v & 0xff) as u8);
    out.push(((v >> 8) & 0xff) as u8);
    proof {
        assert(out@ =~= old(out)@ + spec_enc_u16(v));
    }
}

/// Encoding one more note extends the encoding of the notes before it.
proof fn lemma_enc_notes_take(notes: Seq<u16>, i: int)
    requires
        0 <= i < notes.len(),
    ensures
        spec_enc_notes(notes.take(i + 1)) == spec_enc_notes(notes.take(i)) + spec_enc_u16(
            notes[i],
        ),
    decreases i,
{
    if i == 0 {
        assert(notes.take(1)[0] == notes[0]);
        assert(notes.take(1).skip(1) =~= Seq::<u16>::empty());
        assert(notes.take(0) =~= Seq::<u16>::empty());
        assert(spec_enc_notes(Seq::<u16>::empty()) == Seq::<u8>::empty());
        assert(spec_enc_notes(notes.take(1)) =~= spec_enc_u16(notes[0]));
        assert(spec_enc_notes(notes.take(0)) + spec_enc_u16(notes[0]) =~= spec_enc_u16(
            notes[0],
        ));
    } else {
        lemma_enc_notes_take(notes.skip(1), i - 1);
        assert(notes.take(i + 1)[0] == notes[0]);
        assert(notes.take(i + 1).skip(1) =~= notes.skip(1).take(i));
        assert(notes.take(i)[0] == notes[0]);
        assert(notes.take(i).skip(1) =~= notes.skip(1).take(i - 1));
        assert(notes.skip(1)[i - 1] == notes[i]);
        assert(spec_enc_u16(notes[0]) + (spec_enc_notes(notes.skip(1).take(i - 1))
            + spec_enc_u16(notes[i])) =~= (spec_enc_u16(notes[0]) + spec_enc_notes(
            notes.skip(1).take(i - 1),
        )) + spec_enc_u16(notes[i]));
    }
}

/// Encoding one more chord extends the encoding of the chords before it.
proof fn lemma_enc_chords_take(cs: Seq<ChordView>, i: int)
    requires
        0 <= i < cs.len(),
    ensures
        spec_enc_chords(cs.take(i + 1)) == spec_enc_chords(cs.take(i)) + spec_enc_chord(cs[i]),
    decreases i,
{
    if i == 0 {
        assert(cs.take(1)[0] == cs[0]);
        assert(cs.take(1).skip(1) =~= Seq::<ChordView>::empty());
        assert(cs.take(0) =~= Seq::<ChordView>::empty());
        assert(spec_enc_chords(Seq::<ChordView>::empty()) == Seq::<u8>::empty());
        assert(spec_enc_chords(cs.take(1)) =~= spec_enc_chord(cs[0]));
        assert(spec_enc_chords(cs.take(0)) + spec_enc_chord(cs[0]) =~= spec_enc_chord(cs[0]));
    } else {
        lemma_enc_chords_take(cs.skip(1), i - 1);
        assert(cs.take(i + 1)[0] == cs[0]);
        assert(cs.take(i + 1).skip(1) =~= cs.skip(1).take(i));
        assert(cs.take(i)[0] == cs[0]);
        assert(cs.take(i).skip(1) =~= cs.skip(1).take(i - 1));
        assert(cs.skip(1)[i - 1] == cs[i]);
        assert(spec_enc_chord(cs[0]) + (spec_enc_chords(cs.skip(1).take(i - 1))
            + spec_enc_chord(cs[i])) =~= (spec_enc_chord(cs[0]) + spec_enc_chords(
            cs.skip(1).take(i - 1),
        )) + spec_enc_chord(cs[i]));
    }
}

/// Appends the encoding of one chord.
fn push_chord(out: &mut Vec<u8>, chord: &Chord)
    ensures
        final(out)@ == old(out)@ + spec_enc_chord(chord@),
{
    push_u64(out, chord.extended_duration.nanos);
    push_u64(out, chord.notes.len() as u64);
    let ghost pre = out@;
    let mut i: usize = 0;
    while i < chord.notes.len()
        invariant
            i <= chord@.notes.len(),
            out@ == pre + spec_enc_notes(chord@.notes.take(i as int)),
        decreases chord@.notes.len() - i,
    {
        proof {
            lemma_enc_notes_take(chord@.notes, i as int);
        }
        push_u16(out, chord.notes[i]);
        proof {
            assert(out@ =~= pre + spec_enc_notes(chord@.notes.take(i + 1)));
        }
        i += 1;
    }
    proof {
        assert(chord@.notes.take(chord@.notes.len() as int) =~= chord@.notes);
        assert(out@ =~= old(out)@ + spec_enc_chord(chord@));
    }
}

impl Command {
    /// Encodes the command for the wire.  Never fails; the `Result` mirrors
    /// the transport signature.
    pub fn as_bytes(&self) -> (r: Result<Vec<u8>, Error>)
        ensures
            r matches Ok(b) && b@ == spec_enc_command(self@),
            spec_command_wf(self@),
    {
        proof {
            if let Command::Play(data) = self {
                assert(vstd::std_specs::vec::spec_vec_len(&data.chords) == data.chords@.len());
                assert forall|i: int| 0 <= i < data@.chords.len() implies #[trigger] data@.chords[
                    i
                ].notes.len() <= u64::MAX by {
                    assert(vstd::std_specs::vec::spec_vec_len(&data.chords@[i].notes)
                        == data.chords@[i].notes@.len());
                    assert(data@.chords[i] == data.chords@[i]@);
                }
            }
        }
        let mut out: Vec<u8> = Vec::new();
        match self {
            Command::Stop => {
                out.push(1);
                proof {
                    assert(out@ =~= spec_enc_command(self@));
                }
            },
            Command::Pause => {
                out.push(2);
                proof {
                    assert(out@ =~= spec_enc_command(self@));
                }
            },
            Command::Resume => {
                out.push(3);
                proof {
                    assert(out@ =~= spec_enc_command(self@));
                }
            },
            Command::Play(data) => {
                out.push(0);
                push_u64(&mut out, data.chord_duration.nanos);
                push_u64(&mut out, data.chords.len() as u64);
                let ghost pre = out@;
                let mut i: usize = 0;
                while i < data.chords.len()
                    invariant
                        i <= data@.chords.len(),
                        out@ == pre + spec_enc_chords(data@.chords.take(i as int)),
                    decreases data@.chords.len() - i,
                {
                    proof {
                        lemma_enc_chords_take(data@.chords, i as int);
                        assert(data@.chords[i as int] == data.chords@[i as int]@);
                    }
                    push_chord(&mut out, &data.chords[i]);
                    proof {
                        assert(out@ =~= pre + spec_enc_chords(data@.chords.take(i + 1)));
                    }
                    i += 1;
                }
                proof {
                    assert(data@.chords.take(data@.chords.len() as int) =~= data@.chords);
                    assert(out@ =~= spec_enc_command(self@));
                }
            },
        }
        Ok(out)
    }
}


/// Reads a 64-bit word.
fn read_u64(b: &[u8], pos: usize) -> (r: Option<(u64, usize)>)
    ensures
        (match spec_dec_u64(b@, pos as int) {
            None => r is None,
            Some(pr) => r matches Some(x) && x.0 == pr.0 && x.1 as int == pr.1,
        }),
{
    if b.len() < 8 || pos > b.len() - 8 {
        return None;
    }
    let v = (b[pos] as u64) | ((b[pos + 1] as u64) << 8) | ((b[pos + 2] as u64) << 16) | ((b[pos
        + 3] as u64) << 24) | ((b[pos + 4] as u64) << 32) | ((b[pos + 5] as u64) << 40) | ((
    b[pos + 6] as u64) << 48) | ((b[pos + 7] as u64) << 56);
    Some((v, pos + 8))
}

/// Reads a 16-bit word.
fn read_u16(b: &[u8], pos: usize) -> (r: Option<(u16, usize)>)
    ensures
        (match spec_dec_u16(b@, pos as int) {
            None => r is None,
            Some(pr) => r matches Some(x) && x.0 == pr.0 && x.1 as int == pr.1,
        }),
{
    if b.len() < 2 || pos > b.len() - 2 {
        return None;
    }
    Some(((b[pos] as u16) | ((b[pos + 1] as u16) << 8), pos + 2))
}

/// Reads one chord.
#[verifier::loop_isolation(false)]
fn read_chord(b: &[u8], pos: usize) -> (r: Option<(Chord, usize)>)
    ensures
        (match spec_dec_chord(b@, pos as int) {
            None => r is None,
            Some(pr) => r matches Some(x) && (x.0@ == pr.0 && x.1 as int == pr.1 && x.1
                <= b@.len()),
        }),
{
    let (ext, p2) = match read_u64(b, pos) {
        None => {
            return None;
        },
        Some(x) => x,
    };
    let (m, p3) = match read_u64(b, p2) {
        None => {
            return None;
        },
        Some(x) => x,
    };
    let mut notes: Vec<u16> = Vec::new();
    let mut cur: usize = p3;
    let mut i: u64 = 0;
    proof {
        assert(notes@ =~= Seq::<u16>::empty());
    }
    while i < m
        invariant
            i <= m,
            cur <= b@.len(),
            (match spec_dec_notes(b@, cur as int, (m - i) as nat) {
                None => spec_dec_notes(b@, p3 as int, m as nat) is None,
                Some(pr) => spec_dec_notes(b@, p3 as int, m as nat) == Some::<(Seq<u16>, int)>(
                    (notes@ + pr.0, pr.1),
                ),
            }),
        decreases m - i,
    {
        let (v, ncur) = match read_u16(b, cur) {
            None => {
                return None;
            },
            Some(x) => x,
        };
        let ghost pre = notes@;
        notes.push(v);
        proof {
            assert(notes@ =~= pre.push(v));
            match spec_dec_notes(b@, ncur as int, (m - i - 1) as nat) {
                None => {},
                Some(pr) => {
                    assert(pre.push(v) + pr.0 =~= pre + (seq![v] + pr.0));
                },
            }
        }
        cur = ncur;
        i += 1;
    }
    proof {
        assert(spec_dec_notes(b@, cur as int, 0) == Some::<(Seq<u16>, int)>(
            (Seq::empty(), cur as int),
        ));
        assert(notes@ + Seq::<u16>::empty() =~= notes@);
    }
    Some((Chord { extended_duration: Duration::from_nanos(ext), notes }, cur))
}

impl Command {
    /// Decodes a command from received bytes; fails on anything that is not
    /// exactly an encoding.
    #[verifier::loop_isolation(false)]
    pub fn from_bytes(bytes: &[u8]) -> (r: Result<Command, Error>)
        ensures
            spec_decode(bytes@) matches Some(c) ==> (r matches Ok(cmd) && cmd@ == c),
            spec_decode(bytes@) is None ==> r == Err::<Command, Error>(Error::Decode),
    {
        if bytes.len() < 1 {
            return Err(Error::Decode);
        }
        let tag = bytes[0];
        if tag == 1 {
            return if bytes.len() == 1 {
                Ok(Command::Stop)
            } else {
                Err(Error::Decode)
            };
        }
        if tag == 2 {
            return if bytes.len() == 1 {
                Ok(Command::Pause)
            } else {
                Err(Error::Decode)
            };
        }
        if tag == 3 {
            return if bytes.len() == 1 {
                Ok(Command::Resume)
            } else {
                Err(Error::Decode)
            };
        }
        if tag != 0 {
            return Err(Error::Decode);
        }
        let (d, p2) = match read_u64(bytes, 1) {
            None => {
                return Err(Error::Decode);
            },
            Some(x) => x,
        };
        let (n, p3) = match read_u64(bytes, p2) {
            None => {
                return Err(Error::Decode);
            },
            Some(x) => x,
        };
        let mut chords: Vec<Chord> = Vec::new();
        let mut pos: usize = p3;
        let mut i: u64 = 0;
        proof {
            assert(chords.deep_view() =~= Seq::<ChordView>::empty());
            assert(p3 <= bytes@.len());
        }
        while i < n
            invariant
                i <= n,
                pos <= bytes@.len(),
                (match spec_dec_chords(bytes@, pos as int, (n - i) as nat) {
                    None => spec_dec_chords(bytes@, p3 as int, n as nat) is None,
                    Some(pr) => spec_dec_chords(bytes@, p3 as int, n as nat) == Some::<
                        (Seq<ChordView>, int),
                    >((chords.deep_view() + pr.0, pr.1)),
                }),
            decreases n - i,
        {
            let (c, npos) = match read_chord(bytes, pos) {
                None => {
                    return Err(Error::Decode);
                },
                Some(x) => x,
            };
            let ghost pre = chords.deep_view();
            let ghost cv = c@;
            chords.push(c);
            proof {
                assert(chords.deep_view() =~= pre.push(cv));
                match spec_dec_chords(bytes@, npos as int, (n - i - 1) as nat) {
                    None => {},
                    Some(pr) => {
                        assert(pre.push(cv) + pr.0 =~= pre + (seq![cv] + pr.0));
                    },
                }
            }
            pos = npos;
            i += 1;
        }
        proof {
            assert(spec_dec_chords(bytes@, pos as int, 0) == Some::<(Seq<ChordView>, int)>(
                (Seq::empty(), pos as int),
            ));
            assert(chords.deep_view() + Seq::<ChordView>::empty() =~= chords.deep_view());
        }
        if pos != bytes.len() {
            return Err(Error::Decode);
        }
        Ok(Command::Play(PlayData { chord_duration: Duration::from_nanos(d), chords }))
    }
}


/// Validity of a command model for the wire: every count fits its field.
/// The view of any in-memory command satisfies this.
pub open spec fn spec_command_wf(c: CommandView) -> bool {
    match c {
        CommandView::Play(p) => p.chords.len() <= u64::MAX && (forall|i: int|
            0 <= i < p.chords.len() ==> #[trigger] p.chords[i].notes.len() <= u64::MAX),
        _ => true,
    }
}

/// An encoded 64-bit word reads back as itself.
proof fn lemma_dec_u64_enc(b: Seq<u8>, pos: int, v: u64)
    requires
        0 <= pos,
        pos + 8 <= b.len(),
        b.subrange(pos, pos + 8) == spec_enc_u64(v),
    ensures
        spec_dec_u64(b, pos) == Some::<(u64, int)>((v, pos + 8)),
{
    assert(b[pos] == (v & 0xff) as u8) by {
        assert(b.subrange(pos, pos + 8)[0] == b[pos]);
    }
    assert(b[pos + 1] == ((v >> 8) & 0xff) as u8) by {
        assert(b.subrange(pos, pos + 8)[1] == b[pos + 1]);
    }
    assert(b[pos + 2] == ((v >> 16) & 0xff) as u8) by {
        assert(b.subrange(pos, pos + 8)[2] == b[pos + 2]);
    }
    assert(b[pos + 3] == ((v >> 24) & 0xff) as u8) by {
        assert(b.subrange(pos, pos + 8)[3] == b[pos + 3]);
    }
    assert(b[pos + 4] == ((v >> 32) & 0xff) as u8) by {
        assert(b.subrange(pos, pos + 8)[4] == b[pos + 4]);
    }
    assert(b[pos + 5] == ((v >> 40) & 0xff) as u8) by {
        assert(b.subrange(pos, pos + 8)[5] == b[pos + 5]);
    }
    assert(b[pos + 6] == ((v >> 48) & 0xff) as u8) by {
        assert(b.subrange(pos, pos + 8)[6] == b[pos + 6]);
    }
    assert(b[pos + 7] == ((v >> 56) & 0xff) as u8) by {
        assert(b.subrange(pos, pos + 8)[7] == b[pos + 7]);
    }
    assert((((v & 0xff) as u8) as u64) | ((((v >> 8) & 0xff) as u8) as u64) << 8 | ((((v >> 16)
        & 0xff) as u8) as u64) << 16 | ((((v >> 24) & 0xff) as u8) as u64) << 24 | ((((v >> 32)
        & 0xff) as u8) as u64) << 32 | ((((v >> 40) & 0xff) as u8) as u64) << 40 | ((((v >> 48)
        & 0xff) as u8) as u64) << 48 | ((((v >> 56) & 0xff) as u8) as u64) << 56 == v)
        by (bit_vector);
}

/// An encoded 16-bit word reads back as itself.
proof fn lemma_dec_u16_enc(b: Seq<u8>, pos: int, v: u16)
    requires
        0 <= pos,
        pos + 2 <= b.len(),
        b.subrange(pos, pos + 2) == spec_enc_u16(v),
    ensures
        spec_dec_u16(b, pos) == Some::<(u16, int)>((v, pos + 2)),
{
    assert(b[pos] == (v & 0xff) as u8) by {
        assert(b.subrange(pos, pos + 2)[0] == b[pos]);
    }
    assert(b[pos + 1] == ((v >> 8) & 0xff) as u8) by {
        assert(b.subrange(pos, pos + 2)[1] == b[pos + 1]);
    }
    assert((((v & 0xff) as u8) as u16) | ((((v >> 8) & 0xff) as u8) as u16) << 8 == v)
        by (bit_vector);
}

/// An encoded note list is as long as its count says.
proof fn lemma_enc_notes_len(notes: Seq<u16>)
    ensures
        spec_enc_notes(notes).len() == 2 * notes.len(),
    decreases notes.len(),
{
    if notes.len() > 0 {
        lemma_enc_notes_len(notes.skip(1));
    }
}

/// An encoded note list reads back as itself.
proof fn lemma_dec_notes_enc(b: Seq<u8>, pos: int, notes: Seq<u16>)
    requires
        0 <= pos,
        pos + 2 * notes.len() <= b.len(),
        b.subrange(pos, pos + 2 * notes.len()) == spec_enc_notes(notes),
    ensures
        spec_dec_notes(b, pos, notes.len()) == Some::<(Seq<u16>, int)>(
            (notes, pos + 2 * notes.len()),
        ),
    decreases notes.len(),
{
    if notes.len() == 0 {
        assert(notes =~= Seq::<u16>::empty());
    } else {
        lemma_enc_notes_len(notes.skip(1));
        assert(b.subrange(pos, pos + 2) =~= spec_enc_u16(notes[0])) by {
            assert(forall|k: int| 0 <= k < 2 ==> b.subrange(pos, pos + 2 * notes.len())[k]
                == #[trigger] b.subrange(pos, pos + 2)[k]);
        }
        lemma_dec_u16_enc(b, pos, notes[0]);
        assert(b.subrange(pos + 2, pos + 2 + 2 * notes.skip(1).len()) =~= spec_enc_notes(
            notes.skip(1),
        )) by {
            assert(forall|k: int| 0 <= k < 2 * notes.skip(1).len() ==> b.subrange(
                pos,
                pos + 2 * notes.len(),
            )[k + 2] == #[trigger] b.subrange(pos + 2, pos + 2 + 2 * notes.skip(1).len())[k]);
        }
        lemma_dec_notes_enc(b, pos + 2, notes.skip(1));
        assert(seq![notes[0]] + notes.skip(1) =~= notes);
    }
}

/// An encoded chord reads back as itself.
proof fn lemma_dec_chord_enc(b: Seq<u8>, pos: int, c: ChordView)
    requires
        0 <= pos,
        c.notes.len() <= u64::MAX,
        pos + spec_enc_chord(c).len() <= b.len(),
        b.subrange(pos, pos + spec_enc_chord(c).len()) == spec_enc_chord(c),
    ensures
        spec_dec_chord(b, pos) == Some::<(ChordView, int)>((c, pos + spec_enc_chord(c).len())),
{
    lemma_enc_notes_len(c.notes);
    let e = spec_enc_chord(c);
    assert(e.len() == 16 + 2 * c.notes.len());
    assert(b.subrange(pos, pos + 8) =~= spec_enc_u64(c.extended_duration)) by {
        assert(forall|k: int| 0 <= k < 8 ==> b.subrange(pos, pos + e.len())[k] == #[trigger] b
            .subrange(pos, pos + 8)[k]);
    }
    lemma_dec_u64_enc(b, pos, c.extended_duration);
    assert(b.subrange(pos + 8, pos + 16) =~= spec_enc_u64(c.notes.len() as u64)) by {
        assert(forall|k: int| 0 <= k < 8 ==> b.subrange(pos, pos + e.len())[k + 8]
            == #[trigger] b.subrange(pos + 8, pos + 16)[k]);
    }
    lemma_dec_u64_enc(b, pos + 8, c.notes.len() as u64);
    assert(b.subrange(pos + 16, pos + 16 + 2 * c.notes.len()) =~= spec_enc_notes(c.notes)) by {
        assert(forall|k: int| 0 <= k < 2 * c.notes.len() ==> b.subrange(pos, pos + e.len())[k
            + 16] == #[trigger] b.subrange(pos + 16, pos + 16 + 2 * c.notes.len())[k]);
    }
    lemma_dec_notes_enc(b, pos + 16, c.notes);
    assert((c.notes.len() as u64) as nat == c.notes.len());
}

/// An encoded chord list reads back as itself.
proof fn lemma_dec_chords_enc(b: Seq<u8>, pos: int, cs: Seq<ChordView>)
    requires
        0 <= pos,
        forall|i: int| 0 <= i < cs.len() ==> #[trigger] cs[i].notes.len() <= u64::MAX,
        pos + spec_enc_chords(cs).len() <= b.len(),
        b.subrange(pos, pos + spec_enc_chords(cs).len()) == spec_enc_chords(cs),
    ensures
        spec_dec_chords(b, pos, cs.len()) == Some::<(Seq<ChordView>, int)>(
            (cs, pos + spec_enc_chords(cs).len()),
        ),
    decreases cs.len(),
{
    if cs.len() == 0 {
        assert(cs =~= Seq::<ChordView>::empty());
    } else {
        let e0 = spec_enc_chord(cs[0]);
        let erest = spec_enc_chords(cs.skip(1));
        assert(spec_enc_chords(cs) == e0 + erest);
        assert(b.subrange(pos, pos + e0.len()) =~= e0) by {
            assert(forall|k: int| 0 <= k < e0.len() ==> b.subrange(
                pos,
                pos + spec_enc_chords(cs).len(),
            )[k] == #[trigger] b.subrange(pos, pos + e0.len() as int)[k]);
        }
        lemma_dec_chord_enc(b, pos, cs[0]);
        assert(b.subrange(pos + e0.len(), pos + e0.len() + erest.len()) =~= erest) by {
            assert(forall|k: int| 0 <= k < erest.len() ==> b.subrange(
                pos,
                pos + spec_enc_chords(cs).len(),
            )[k + e0.len()] == #[trigger] b.subrange(
                pos + e0.len(),
                pos + e0.len() + erest.len(),
            )[k]);
        }
        lemma_dec_chords_enc(b, pos + e0.len() as int, cs.skip(1));
        assert(seq![cs[0]] + cs.skip(1) =~= cs);
    }
}

/// The round-trip law: encoding any command and decoding the bytes gives
/// the same command back, for every variant.
pub proof fn lemma_round_trip(c: CommandView)
    requires
        spec_command_wf(c),
    ensures
        spec_decode(spec_enc_command(c)) == Some(c),
{
    let b = spec_enc_command(c);
    match c {
        CommandView::Stop => {
            assert(b[0] == 1u8 && b.len() == 1);
        },
        CommandView::Pause => {
            assert(b[0] == 2u8 && b.len() == 1);
        },
        CommandView::Resume => {
            assert(b[0] == 3u8 && b.len() == 1);
        },
        CommandView::Play(p) => {
            let body = spec_enc_play_data(p);
            assert(b[0] == 0u8);
            assert(b.len() == 1 + body.len());
            assert(b.subrange(1, 9) =~= spec_enc_u64(p.chord_duration));
            lemma_dec_u64_enc(b, 1, p.chord_duration);
            assert(b.subrange(9, 17) =~= spec_enc_u64(p.chords.len() as u64));
            lemma_dec_u64_enc(b, 9, p.chords.len() as u64);
            let ec = spec_enc_chords(p.chords);
            assert(b.subrange(17, 17 + ec.len() as int) =~= ec);
            lemma_dec_chords_enc(b, 17, p.chords);
            assert((p.chords.len() as u64) as nat == p.chords.len());
            assert(17 + ec.len() == b.len());
        },
    }
}

} // verus!
