//! The notemap compiler: parses a textual score into a compressed,
//! timing-accurate sequence of chords.
//!
//! A notemap is split into sections on blank lines.  Within a section each
//! staff line reads `<octave>|<notes>|`, where every column of `<notes>` is
//! one time slot: a letter sounds that note, `-` is silence.  Columns
//! aligned across the lines of a section sound together as one chord.
//! After parsing, rest columns are folded into the preceding sounding
//! chord's extended duration and dropped.

use vstd::prelude::*;
use vstd::string::StringSliceAdditionalSpecFns;
use crate::duration::Duration;
use crate::model::{Chord, ChordView};
use crate::notes::{is_note_letter, note_freq, spec_note_freq, OCTAVE_COUNT};

verus! {

/// Line feed.
pub const LF: u8 = 10;

/// Carriage return.
pub const CR: u8 = 13;

/// `#`, which opens a comment line.
pub const HASH: u8 = 35;

/// `+`, an accepted sign before an octave number.
pub const PLUS: u8 = 43;

/// `-`, a rest column.
pub const DASH: u8 = 45;

/// `:`, which ends a label prefix such as a hand designation.
pub const COLON: u8 = 58;

/// `|`, the staff separator.
pub const PIPE: u8 = 124;

/// What can go wrong while compiling a notemap.  Each variant is a terminal
/// parse failure: no partial result is returned.
#[derive(Clone, Copy, Debug, PartialEq, Eq, Structural)]
pub enum Error {
    /// A column names a letter outside the note table.
    NoteDoesNotExist(char),
    /// A staff line names an octave at or beyond the table's range.
    OctaveDoesNotExist(usize),
    /// The text before the first separator is not a non-negative integer.
    InvalidOctave,
    /// A staff line has separators but nothing at all between and around
    /// them.
    OctaveNotSpecified,
    /// A staff line has an octave but no notes part.  Defensive: the line
    /// shape that reaches the notes lookup always has one.
    NotesNotSpecified,
}

/// ASCII whitespace, as trimmed from section and line edges.
pub open spec fn is_ws(b: u8) -> bool {
    b == 9 || b == 10 || b == 11 || b == 12 || b == 13 || b == 32
}

/// Index of the first occurrence of `b` at or after `from`, or -1.
pub open spec fn spec_find_at(s: Seq<u8>, b: u8, from: int) -> int
    decreases s.len() - from,
{
    if from < 0 {
        -1
    } else if from >= s.len() {
        -1
    } else if s[from] == b {
        from
    } else {
        spec_find_at(s, b, from + 1)
    }
}

/// The first occurrence found is in range and at or after `from`.
pub proof fn lemma_find_at_bounds(s: Seq<u8>, b: u8, from: int)
    requires
        0 <= from,
    ensures
        spec_find_at(s, b, from) == -1 || (from <= spec_find_at(s, b, from) < s.len()),
    decreases s.len() - from,
{
    if from < s.len() && s[from] != b {
        lemma_find_at_bounds(s, b, from + 1);
    }
}

/// Index of the last occurrence of `b` at or before `upto`, or -1.
pub open spec fn spec_find_last(s: Seq<u8>, b: u8, upto: int) -> int
    decreases upto + 1,
{
    if upto < 0 || upto >= s.len() {
        -1
    } else if s[upto] == b {
        upto
    } else {
        spec_find_last(s, b, upto - 1)
    }
}

/// Index of the first blank-line break (two line feeds in a row) at or
/// after `from`, or -1.
pub open spec fn spec_find_break(s: Seq<u8>, from: int) -> int
    decreases s.len() - from,
{
    if from < 0 {
        -1
    } else if from + 1 >= s.len() {
        -1
    } else if s[from] == LF && s[from + 1] == LF {
        from
    } else {
        spec_find_break(s, from + 1)
    }
}

/// The first break found is in range and at or after `from`.
pub proof fn lemma_find_break_bounds(s: Seq<u8>, from: int)
    requires
        0 <= from,
    ensures
        spec_find_break(s, from) == -1 || (from <= spec_find_break(s, from)
            && spec_find_break(s, from) + 1 < s.len()),
    decreases s.len() - from,
{
    if from + 1 < s.len() && !(s[from] == LF && s[from + 1] == LF) {
        lemma_find_break_bounds(s, from + 1);
    }
}

/// Index of the first non-whitespace byte at or after `i`, or the length.
pub open spec fn spec_skip_ws(s: Seq<u8>, i: int) -> int
    decreases s.len() - i,
{
    if i < 0 || i >= s.len() {
        s.len() as int
    } else if is_ws(s[i]) {
        spec_skip_ws(s, i + 1)
    } else {
        i
    }
}

/// Index of the last non-whitespace byte at or before `j`, or -1.
pub open spec fn spec_last_non_ws(s: Seq<u8>, j: int) -> int
    decreases j + 1,
{
    if j < 0 || j >= s.len() {
        -1
    } else if is_ws(s[j]) {
        spec_last_non_ws(s, j - 1)
    } else {
        j
    }
}

pub proof fn lemma_last_non_ws_bounds(s: Seq<u8>, j: int)
    requires
        -1 <= j < s.len(),
    ensures
        -1 <= spec_last_non_ws(s, j) <= j,
    decreases j + 1,
{
    if 0 <= j && is_ws(s[j]) {
        lemma_last_non_ws_bounds(s, j - 1);
    }
}

/// `s` with leading and trailing ASCII whitespace removed.
pub open spec fn spec_trim(s: Seq<u8>) -> Seq<u8> {
    let a = spec_skip_ws(s, 0);
    if a == s.len() {
        Seq::empty()
    } else {
        s.subrange(a, spec_last_non_ws(s, s.len() - 1) + 1)
    }
}

/// `s` with every carriage-return–line-feed pair replaced by a line feed,
/// read from `from` on.
pub open spec fn spec_normalize_at(s: Seq<u8>, from: int) -> Seq<u8>
    decreases s.len() - from,
{
    if from < 0 || from >= s.len() {
        Seq::empty()
    } else if s[from] == CR && from + 1 < s.len() && s[from + 1] == LF {
        seq![LF] + spec_normalize_at(s, from + 2)
    } else {
        seq![s[from]] + spec_normalize_at(s, from + 1)
    }
}

/// Finds the first occurrence of `b` at or after `from`.
pub fn find_at(s: &[u8], b: u8, from: usize) -> (r: Option<usize>)
    requires
        from <= s@.len(),
    ensures
        r is None ==> spec_find_at(s@, b, from as int) == -1,
        r matches Some(i) ==> from <= i < s@.len() && i as int == spec_find_at(
            s@,
            b,
            from as int,
        ),
{
    let mut i: usize = from;
    while i < s.len()
        invariant
            from <= i <= s@.len(),
            spec_find_at(s@, b, from as int) == spec_find_at(s@, b, i as int),
        decreases s@.len() - i,
    {
        if s[i] == b {
            return Some(i);
        }
        i += 1;
    }
    None
}

/// Finds the first blank-line break at or after `from`.
pub fn find_break(s: &[u8], from: usize) -> (r: Option<usize>)
    requires
        from <= s@.len(),
    ensures
        r is None ==> spec_find_break(s@, from as int) == -1,
        r matches Some(i) ==> from <= i && i + 1 < s@.len() && i as int == spec_find_break(
            s@,
            from as int,
        ),
{
    let mut i: usize = from;
    while i < s.len() && i + 1 < s.len()
        invariant
            from <= i,
            i <= s@.len(),
            spec_find_break(s@, from as int) == spec_find_break(s@, i as int),
        decreases s@.len() - i,
    {
        if s[i] == LF && s[i + 1] == LF {
            return Some(i);
        }
        i += 1;
    }
    None
}

/// Finds the last occurrence of `b` in `s`.
pub fn find_last(s: &[u8], b: u8) -> (r: Option<usize>)
    ensures
        r is None ==> spec_find_last(s@, b, s@.len() - 1) == -1,
        r matches Some(i) ==> i < s@.len() && i as int == spec_find_last(s@, b, s@.len() - 1),
{
    let mut j: usize = s.len();
    while j > 0
        invariant
            j <= s@.len(),
            spec_find_last(s@, b, s@.len() - 1) == spec_find_last(s@, b, j - 1),
        decreases j,
    {
        j -= 1;
        if s[j] == b {
            return Some(j);
        }
    }
    None
}

/// Returns `s` with leading and trailing ASCII whitespace removed.
pub fn trim(s: &[u8]) -> (r: &[u8])
    ensures
        r@ == spec_trim(s@),
        r@.len() <= s@.len(),
{
    let n = s.len();
    let mut a: usize = 0;
    while a < n && (s[a] == 9 || s[a] == 10 || s[a] == 11 || s[a] == 12 || s[a] == 13 || s[a]
        == 32)
        invariant
            0 <= a <= n,
            n == s@.len(),
            spec_skip_ws(s@, 0) == spec_skip_ws(s@, a as int),
        decreases n - a,
    {
        a += 1;
    }
    if a == n {
        proof {
            assert(spec_skip_ws(s@, a as int) == s@.len());
        }
        return vstd::slice::slice_subrange(s, 0, 0);
    }
    let mut j: usize = n - 1;
    while j > 0 && (s[j] == 9 || s[j] == 10 || s[j] == 11 || s[j] == 12 || s[j] == 13 || s[j]
        == 32)
        invariant
            0 <= j < n,
            n == s@.len(),
            spec_last_non_ws(s@, n - 1) == spec_last_non_ws(s@, j as int),
        decreases j,
    {
        j -= 1;
    }
    proof {
        assert(spec_skip_ws(s@, 0) == a as int);
        assert(!is_ws(s@[a as int]));
        lemma_last_non_ws_at_least(s@, n - 1, a as int);
        lemma_last_non_ws_bounds(s@, j as int);
        assert(spec_last_non_ws(s@, n - 1) == j as int) by {
            if is_ws(s@[j as int]) {
                // the loop can stop on a whitespace byte only at index 0,
                // but a non-whitespace byte stands at `a`, so the last
                // non-whitespace index cannot be -1
                assert(j == 0);
                assert(spec_last_non_ws(s@, j as int) == -1);
                assert(false);
            }
        }
        assert(a as int <= j as int);
    }
    vstd::slice::slice_subrange(s, a, j + 1)
}

/// A non-whitespace byte at `w` keeps the last non-whitespace index at or
/// after `w`.
proof fn lemma_last_non_ws_at_least(s: Seq<u8>, j: int, w: int)
    requires
        0 <= w <= j < s.len(),
        !is_ws(s[w]),
    ensures
        spec_last_non_ws(s, j) >= w,
    decreases j + 1,
{
    if w < j && is_ws(s[j]) {
        lemma_last_non_ws_at_least(s, j - 1, w);
    }
}

/// Replaces every carriage-return–line-feed pair with a line feed.
pub fn normalize(s: &[u8]) -> (r: Vec<u8>)
    ensures
        r@ == spec_normalize_at(s@, 0),
        r@.len() <= s@.len(),
{
    let n = s.len();
    let mut out: Vec<u8> = Vec::new();
    let mut i: usize = 0;
    while i < n
        invariant
            0 <= i <= n,
            n == s@.len(),
            out@.len() <= i,
            spec_normalize_at(s@, 0) == out@ + spec_normalize_at(s@, i as int),
        decreases n - i,
    {
        if s[i] == CR && i + 1 < n && s[i + 1] == LF {
            out.push(LF);
            proof {
                assert(spec_normalize_at(s@, 0) == out@ + spec_normalize_at(s@, i + 2)) by {
                    assert(spec_normalize_at(s@, i as int) == seq![LF] + spec_normalize_at(
                        s@,
                        i + 2,
                    ));
                }
            }
            i += 2;
        } else {
            out.push(s[i]);
            proof {
                assert(spec_normalize_at(s@, 0) == out@ + spec_normalize_at(s@, i + 1)) by {
                    assert(spec_normalize_at(s@, i as int) == seq![s@[i as int]]
                        + spec_normalize_at(s@, i + 1));
                }
            }
            i += 1;
        }
    }
    out
}


/// The lines of `s` from `from` on, split on line feeds; the final piece is
/// kept even when empty, as `str::split` keeps it.
pub open spec fn spec_lines(s: Seq<u8>, from: int) -> Seq<Seq<u8>>
    recommends
        0 <= from <= s.len(),
    decreases s.len() - from,
    via spec_lines_dec
{
    if from < 0 || from > s.len() {
        Seq::empty()
    } else {
        let i = spec_find_at(s, LF, from);
        if i < 0 {
            seq![s.subrange(from, s.len() as int)]
        } else {
            seq![s.subrange(from, i)] + spec_lines(s, i + 1)
        }
    }
}

#[via_fn]
proof fn spec_lines_dec(s: Seq<u8>, from: int) {
    if 0 <= from <= s.len() {
        lemma_find_at_bounds(s, LF, from);
    }
}

/// The sections of the normalized text `n` from `pos` on: pieces between
/// blank-line breaks, trimmed, with empty pieces dropped.
pub open spec fn spec_sections_at(n: Seq<u8>, pos: int) -> Seq<Seq<u8>>
    recommends
        0 <= pos <= n.len(),
    decreases n.len() - pos,
    via spec_sections_at_dec
{
    if pos < 0 || pos > n.len() {
        Seq::empty()
    } else {
        let i = spec_find_break(n, pos);
        if i < 0 {
            let t = spec_trim(n.subrange(pos, n.len() as int));
            if t.len() > 0 {
                seq![t]
            } else {
                Seq::empty()
            }
        } else {
            let t = spec_trim(n.subrange(pos, i));
            (if t.len() > 0 {
                seq![t]
            } else {
                Seq::<Seq<u8>>::empty()
            }) + spec_sections_at(n, i + 2)
        }
    }
}

#[via_fn]
proof fn spec_sections_at_dec(n: Seq<u8>, pos: int) {
    if 0 <= pos <= n.len() {
        lemma_find_break_bounds(n, pos);
    }
}

/// The sections of a raw notemap: line endings normalized, then split on
/// blank lines.
pub open spec fn spec_sections(s: Seq<u8>) -> Seq<Seq<u8>> {
    spec_sections_at(spec_normalize_at(s, 0), 0)
}

/// Whether every byte of `s` is a decimal digit.
pub open spec fn spec_all_digits(s: Seq<u8>) -> bool {
    forall|i: int| 0 <= i < s.len() ==> 48 <= #[trigger] s[i] <= 57
}

/// The value of a digit string, most significant digit first.
pub open spec fn spec_digits_val(s: Seq<u8>) -> int
    decreases s.len(),
{
    if s.len() == 0 {
        0
    } else {
        spec_digits_val(s.take(s.len() - 1)) * 10 + (s[s.len() - 1] - 48)
    }
}

pub proof fn lemma_digits_val_nonneg(s: Seq<u8>)
    requires
        spec_all_digits(s),
    ensures
        spec_digits_val(s) >= 0,
    decreases s.len(),
{
    if s.len() > 0 {
        lemma_digits_val_nonneg(s.take(s.len() - 1));
    }
}

/// A digit string is worth at least any of its prefixes.
pub proof fn lemma_digits_val_prefix_le(s: Seq<u8>, i: int)
    requires
        spec_all_digits(s),
        0 <= i <= s.len(),
    ensures
        spec_digits_val(s.take(i)) <= spec_digits_val(s),
    decreases s.len() - i,
{
    if i < s.len() {
        lemma_digits_val_prefix_le(s, i + 1);
        assert(s.take(i + 1).take(i) =~= s.take(i));
        lemma_digits_val_nonneg(s.take(i));
        assert(spec_digits_val(s.take(i + 1)) == spec_digits_val(s.take(i)) * 10 + (s[i] - 48));
    } else {
        assert(s.take(i) =~= s);
    }
}

/// The number named by `s`, read as `usize::from_str` reads it: an optional
/// leading plus sign, then at least one decimal digit, the whole value
/// fitting the type.
pub open spec fn spec_parse_usize(s: Seq<u8>) -> Option<usize> {
    let t = if s.len() > 0 && s[0] == PLUS {
        s.skip(1)
    } else {
        s
    };
    if t.len() == 0 || !spec_all_digits(t) {
        None
    } else if spec_digits_val(t) > usize::MAX {
        None
    } else {
        Some(spec_digits_val(t) as usize)
    }
}

/// Parses a non-negative decimal integer.
pub fn parse_usize(s: &[u8]) -> (r: Option<usize>)
    ensures
        r == spec_parse_usize(s@),
{
    let t: &[u8] = if s.len() > 0 && s[0] == PLUS {
        vstd::slice::slice_subrange(s, 1, s.len())
    } else {
        s
    };
    proof {
        if s@.len() > 0 && s@[0] == PLUS {
            assert(t@ =~= s@.skip(1));
        }
    }
    if t.len() == 0 {
        return None;
    }
    let mut acc: usize = 0;
    let mut i: usize = 0;
    while i < t.len()
        invariant
            0 <= i <= t@.len(),
            t@.len() > 0,
            forall|j: int| 0 <= j < i ==> 48 <= #[trigger] t@[j] <= 57,
            acc as int == spec_digits_val(t@.take(i as int)),
            spec_parse_usize(s@) == spec_parse_usize_tail(t@),
        decreases t@.len() - i,
    {
        let b = t[i];
        if b < 48 || b > 57 {
            proof {
                assert(!spec_all_digits(t@));
            }
            return None;
        }
        let d = (b - 48) as usize;
        proof {
            assert(t@.take(i + 1).take(i as int) =~= t@.take(i as int));
            assert(spec_digits_val(t@.take(i + 1)) == acc as int * 10 + d);
        }
        let next = match acc.checked_mul(10) {
            Some(x) => x.checked_add(d),
            None => None,
        };
        match next {
            Some(x) => {
                acc = x;
            },
            None => {
                proof {
                    if spec_all_digits(t@) {
                        lemma_digits_val_prefix_le(t@, i + 1);
                    }
                }
                return None;
            },
        }
        i += 1;
    }
    proof {
        assert(t@.take(t@.len() as int) =~= t@);
    }
    Some(acc)
}

/// What `spec_parse_usize` says once the sign is stripped.
pub open spec fn spec_parse_usize_tail(t: Seq<u8>) -> Option<usize> {
    if t.len() == 0 || !spec_all_digits(t) {
        None
    } else if spec_digits_val(t) > usize::MAX {
        None
    } else {
        Some(spec_digits_val(t) as usize)
    }
}

/// The frequency of the note written `c` at `octave`, or the parse failure
/// naming what was wrong: an octave at or beyond the table's range (checked
/// first), or a letter the table does not know.
pub open spec fn spec_get_note(c: char, octave: usize) -> Result<u16, Error> {
    if octave >= 9 {
        Err(Error::OctaveDoesNotExist(octave))
    } else if !is_note_letter(c) {
        Err(Error::NoteDoesNotExist(c))
    } else {
        Ok(spec_note_freq(c, octave as int))
    }
}

/// Resolves one notemap letter at one octave against the frequency table.
pub fn get_note(c: char, octave: usize) -> (r: Result<u16, Error>)
    ensures
        r == spec_get_note(c, octave),
{
    if octave >= OCTAVE_COUNT {
        return Err(Error::OctaveDoesNotExist(octave));
    }
    if c == 'a' || c == 'A' || c == 'b' || c == 'c' || c == 'C' || c == 'd' || c == 'D' || c
        == 'e' || c == 'f' || c == 'F' || c == 'g' || c == 'G' {
        Ok(note_freq(c, octave))
    } else {
        Err(Error::NoteDoesNotExist(c))
    }
}


/// A byte slice's deep view is its view.
pub proof fn lemma_slice_deep_view(s: &[u8])
    ensures
        s.deep_view() == s@,
{
    assert(s.deep_view() =~= s@);
}

/// A byte vector's deep view is its view.
pub proof fn lemma_vec_u8_deep_view(v: &Vec<u8>)
    ensures
        v.deep_view() == v@,
{
    assert(v.deep_view() =~= v@);
}

/// Total length of a sequence of byte strings.
pub open spec fn seq_len_sum(ss: Seq<Seq<u8>>) -> int
    decreases ss.len(),
{
    if ss.len() == 0 {
        0
    } else {
        ss[0].len() + seq_len_sum(ss.skip(1))
    }
}

pub proof fn lemma_seq_len_sum_nonneg(ss: Seq<Seq<u8>>)
    ensures
        seq_len_sum(ss) >= 0,
    decreases ss.len(),
{
    if ss.len() > 0 {
        lemma_seq_len_sum_nonneg(ss.skip(1));
    }
}

pub proof fn lemma_seq_len_sum_push(ss: Seq<Seq<u8>>, x: Seq<u8>)
    ensures
        seq_len_sum(ss.push(x)) == seq_len_sum(ss) + x.len(),
    decreases ss.len(),
{
    if ss.len() == 0 {
        assert(ss.push(x).skip(1) =~= Seq::<Seq<u8>>::empty());
        assert(ss.push(x)[0] == x);
        assert(seq_len_sum(Seq::<Seq<u8>>::empty()) == 0);
        assert(seq_len_sum(ss.push(x)) == x.len() + seq_len_sum(ss.push(x).skip(1)));
    } else {
        assert(ss.push(x).skip(1) =~= ss.skip(1).push(x));
        lemma_seq_len_sum_push(ss.skip(1), x);
        assert(ss.push(x)[0] == ss[0]);
    }
}

/// Splits a section into its lines on line feeds.
pub fn split_lines<'a>(s: &'a [u8]) -> (r: Vec<&'a [u8]>)
    ensures
        r.deep_view() == spec_lines(s@, 0),
        forall|i: int| 0 <= i < r@.len() ==> #[trigger] r@[i]@.len() <= s@.len(),
{
    let slen = s.len();
    let mut out: Vec<&[u8]> = Vec::new();
    let ghost mut acc: Seq<Seq<u8>> = Seq::empty();
    let mut pos: usize = 0;
    loop
        invariant
            slen == s@.len(),
            pos <= s@.len(),
            out.deep_view() == acc,
            spec_lines(s@, 0) == acc + spec_lines(s@, pos as int),
            forall|i: int| 0 <= i < out@.len() ==> #[trigger] out@[i]@.len() <= s@.len(),
        decreases s@.len() - pos,
    {
        match find_at(s, LF, pos) {
            Some(i) => {
                let piece = vstd::slice::slice_subrange(s, pos, i);
                out.push(piece);
                proof {
                    lemma_slice_deep_view(piece);
                    acc = acc.push(piece@);
                    assert(out.deep_view() =~= acc);
                    assert(spec_lines(s@, pos as int) == seq![
                        s@.subrange(pos as int, i as int),
                    ] + spec_lines(s@, i + 1));
                    assert(spec_lines(s@, 0) =~= acc + spec_lines(s@, i + 1));
                }
                pos = i + 1;
            },
            None => {
                let piece = vstd::slice::slice_subrange(s, pos, s.len());
                out.push(piece);
                proof {
                    lemma_slice_deep_view(piece);
                    acc = acc.push(piece@);
                    assert(out.deep_view() =~= acc);
                    assert(spec_lines(s@, pos as int) == seq![
                        s@.subrange(pos as int, s@.len() as int),
                    ]);
                    assert(spec_lines(s@, 0) =~= acc);
                }
                return out;
            },
        }
    }
}

/// Finds the sections of a notemap: normalizes line endings, splits the
/// text on blank lines, trims each piece, and drops the empty ones.
pub fn get_sections(notemap: &[u8]) -> (r: Vec<Vec<u8>>)
    ensures
        r.deep_view() == spec_sections(notemap@),
        seq_len_sum(r.deep_view()) <= notemap@.len(),
{
    let norm = normalize(notemap);
    let n = norm.len();
    let mut out: Vec<Vec<u8>> = Vec::new();
    let ghost mut acc: Seq<Seq<u8>> = Seq::empty();
    let mut pos: usize = 0;
    loop
        invariant
            pos <= n,
            n == norm@.len(),
            norm@.len() <= notemap@.len(),
            norm@ == spec_normalize_at(notemap@, 0),
            out.deep_view() == acc,
            seq_len_sum(acc) <= pos as int,
            spec_sections(notemap@) == acc + spec_sections_at(norm@, pos as int),
        decreases n - pos,
    {
        match find_break(norm.as_slice(), pos) {
            Some(i) => {
                let piece = trim(vstd::slice::slice_subrange(norm.as_slice(), pos, i));
                proof {
                    assert(piece@ == spec_trim(norm@.subrange(pos as int, i as int)));
                }
                if piece.len() > 0 {
                    let kept = vstd::slice::slice_to_vec(piece);
                    out.push(kept);
                    proof {
                        lemma_vec_u8_deep_view(&kept);
                        lemma_seq_len_sum_push(acc, piece@);
                        acc = acc.push(piece@);
                        assert(out.deep_view() =~= acc);
                        assert(spec_sections_at(norm@, pos as int) == seq![piece@]
                            + spec_sections_at(norm@, i + 2));
                        assert(spec_sections(notemap@) =~= acc + spec_sections_at(
                            norm@,
                            i + 2,
                        ));
                    }
                } else {
                    proof {
                        assert(spec_sections_at(norm@, pos as int) == spec_sections_at(
                            norm@,
                            i + 2,
                        ));
                    }
                }
                pos = i + 2;
            },
            None => {
                let piece = trim(vstd::slice::slice_subrange(norm.as_slice(), pos, n));
                proof {
                    assert(piece@ == spec_trim(norm@.subrange(pos as int, n as int)));
                }
                if piece.len() > 0 {
                    let kept = vstd::slice::slice_to_vec(piece);
                    out.push(kept);
                    proof {
                        lemma_vec_u8_deep_view(&kept);
                        lemma_seq_len_sum_push(acc, piece@);
                        acc = acc.push(piece@);
                        assert(out.deep_view() =~= acc);
                        assert(spec_sections_at(norm@, pos as int) == seq![piece@]);
                        assert(spec_sections(notemap@) =~= acc);
                    }
                } else {
                    proof {
                        assert(spec_sections_at(norm@, pos as int) =~= Seq::<Seq<u8>>::empty());
                        assert(spec_sections(notemap@) =~= acc);
                    }
                }
                return out;
            },
        }
    }
}


/// What one line of a section contributes: nothing, or a staff with an
/// octave and one byte per time column.
pub enum LineStep {
    Skip,
    Staff(usize, Seq<u8>),
}

/// Reads one line of a section.
///
/// A line starting with `#` is a comment.  Only the text after the last
/// colon counts (a label such as a hand designation stands before it), and
/// it must hold exactly two `|` separators to be a staff line; anything
/// else is tolerated and skipped.  Of the trimmed pieces around the
/// separators, the first names the octave and the last the notes; a line
/// with separators but only empty pieces, or an octave that is not a
/// number, is a hard failure.
pub open spec fn spec_line_step(line: Seq<u8>) -> Result<LineStep, Error> {
    if line.len() > 0 && line[0] == HASH {
        Ok(LineStep::Skip)
    } else {
        let lc = spec_find_last(line, COLON, line.len() - 1);
        let value = spec_trim(
            if lc < 0 {
                line
            } else {
                line.subrange(lc + 1, line.len() as int)
            },
        );
        if value.len() == 0 {
            Ok(LineStep::Skip)
        } else {
            let p1 = spec_find_at(value, PIPE, 0);
            if p1 < 0 {
                Ok(LineStep::Skip)
            } else {
                let p2 = spec_find_at(value, PIPE, p1 + 1);
                if p2 < 0 {
                    Ok(LineStep::Skip)
                } else if spec_find_at(value, PIPE, p2 + 1) >= 0 {
                    Ok(LineStep::Skip)
                } else {
                    let t0 = spec_trim(value.subrange(0, p1));
                    let t1 = spec_trim(value.subrange(p1 + 1, p2));
                    let t2 = spec_trim(value.subrange(p2 + 1, value.len() as int));
                    let parts = (if t0.len() > 0 {
                        seq![t0]
                    } else {
                        Seq::<Seq<u8>>::empty()
                    }) + (if t1.len() > 0 {
                        seq![t1]
                    } else {
                        Seq::<Seq<u8>>::empty()
                    }) + (if t2.len() > 0 {
                        seq![t2]
                    } else {
                        Seq::<Seq<u8>>::empty()
                    });
                    if parts.len() == 0 {
                        Err(Error::OctaveNotSpecified)
                    } else {
                        match spec_parse_usize(parts[0]) {
                            Some(octave) => Ok(
                                LineStep::Staff(octave, parts[parts.len() - 1]),
                            ),
                            None => Err(Error::InvalidOctave),
                        }
                    }
                }
            }
        }
    }
}

/// Reads one line of a section; `None` stands for a skipped line, and a
/// staff line comes back as its octave and its notes text.
pub fn line_step<'a>(line: &'a [u8]) -> (r: Result<Option<(usize, &'a [u8])>, Error>)
    ensures
        (match spec_line_step(line@) {
            Ok(LineStep::Skip) => r matches Ok(opt) && opt is None,
            Ok(LineStep::Staff(oct, notes)) => r matches Ok(opt) && (opt matches Some(pair)
                && pair.0 == oct && pair.1@ == notes && notes.len() <= line@.len()),
            Err(e) => r == Err::<Option<(usize, &'a [u8])>, Error>(e),
        }),
{
    let llen = line.len();
    if llen > 0 && line[0] == HASH {
        return Ok(None);
    }
    let value0: &[u8] = match find_last(line, COLON) {
        Some(j) => vstd::slice::slice_subrange(line, j + 1, llen),
        None => line,
    };
    let value = trim(value0);
    proof {
        let lc = spec_find_last(line@, COLON, line@.len() - 1);
        if lc < 0 {
            assert(value@ == spec_trim(line@));
        } else {
            assert(value@ == spec_trim(line@.subrange(lc + 1, line@.len() as int)));
        }
    }
    let vlen = value.len();
    if vlen == 0 {
        return Ok(None);
    }
    let p1 = match find_at(value, PIPE, 0) {
        Some(i) => i,
        None => {
            return Ok(None);
        },
    };
    let p2 = match find_at(value, PIPE, p1 + 1) {
        Some(i) => i,
        None => {
            return Ok(None);
        },
    };
    match find_at(value, PIPE, p2 + 1) {
        Some(_) => {
            return Ok(None);
        },
        None => {},
    }
    let t0 = trim(vstd::slice::slice_subrange(value, 0, p1));
    let t1 = trim(vstd::slice::slice_subrange(value, p1 + 1, p2));
    let t2 = trim(vstd::slice::slice_subrange(value, p2 + 1, vlen));
    let mut parts: Vec<&[u8]> = Vec::new();
    if t0.len() > 0 {
        parts.push(t0);
    }
    if t1.len() > 0 {
        parts.push(t1);
    }
    if t2.len() > 0 {
        parts.push(t2);
    }
    let ghost pseq = (if t0@.len() > 0 {
        seq![t0@]
    } else {
        Seq::<Seq<u8>>::empty()
    }) + (if t1@.len() > 0 {
        seq![t1@]
    } else {
        Seq::<Seq<u8>>::empty()
    }) + (if t2@.len() > 0 {
        seq![t2@]
    } else {
        Seq::<Seq<u8>>::empty()
    });
    proof {
        lemma_slice_deep_view(t0);
        lemma_slice_deep_view(t1);
        lemma_slice_deep_view(t2);
        assert(parts.deep_view() =~= pseq);
    }
    if parts.len() == 0 {
        return Err(Error::OctaveNotSpecified);
    }
    let first = parts[0];
    proof {
        assert(first@ == pseq[0]);
        lemma_slice_deep_view(first);
    }
    let octave = match parse_usize(first) {
        Some(o) => o,
        None => {
            return Err(Error::InvalidOctave);
        },
    };
    let last = parts[parts.len() - 1];
    proof {
        assert(last@ == pseq[pseq.len() - 1]);
        lemma_slice_deep_view(last);
    }
    Ok(Some((octave, last)))
}

/// A time column as it starts out: no notes, no extra hold time.
pub open spec fn spec_empty_chord() -> ChordView {
    ChordView { extended_duration: 0, notes: Seq::empty() }
}

/// Grows the per-section chord sequence to `n` columns, never shrinking:
/// every line keeps the columns that earlier lines of its section opened.
pub open spec fn spec_grow(chords: Seq<ChordView>, n: int) -> Seq<ChordView> {
    if n <= chords.len() {
        chords
    } else {
        chords + Seq::new((n - chords.len()) as nat, |i: int| spec_empty_chord())
    }
}

/// Adds the notes of one staff line, from column `i` on, to their columns'
/// chords.  A `-` column is silent; any other byte must resolve against the
/// frequency table at the line's octave, else its failure aborts the whole
/// compilation.
pub open spec fn spec_add_notes(
    chords: Seq<ChordView>,
    notes: Seq<u8>,
    octave: usize,
    i: int,
) -> Result<Seq<ChordView>, Error>
    recommends
        chords.len() >= notes.len(),
        0 <= i,
    decreases notes.len() - i,
{
    if i < 0 || i >= notes.len() {
        Ok(chords)
    } else if notes[i] == DASH {
        spec_add_notes(chords, notes, octave, i + 1)
    } else {
        match spec_get_note(notes[i] as char, octave) {
            Err(e) => Err(e),
            Ok(f) => spec_add_notes(
                chords.update(
                    i,
                    ChordView {
                        extended_duration: chords[i].extended_duration,
                        notes: chords[i].notes.push(f),
                    },
                ),
                notes,
                octave,
                i + 1,
            ),
        }
    }
}

/// Applies one line to the section's chords so far.
pub open spec fn spec_apply_line(chords: Seq<ChordView>, line: Seq<u8>) -> Result<
    Seq<ChordView>,
    Error,
> {
    match spec_line_step(line) {
        Err(e) => Err(e),
        Ok(LineStep::Skip) => Ok(chords),
        Ok(LineStep::Staff(octave, notes)) => spec_add_notes(
            spec_grow(chords, notes.len() as int),
            notes,
            octave,
            0,
        ),
    }
}

/// Applies a section's lines in order; the first failure wins.
pub open spec fn spec_apply_lines(lines: Seq<Seq<u8>>, chords: Seq<ChordView>) -> Result<
    Seq<ChordView>,
    Error,
>
    decreases lines.len(),
{
    if lines.len() == 0 {
        Ok(chords)
    } else {
        match spec_apply_line(chords, lines[0]) {
            Err(e) => Err(e),
            Ok(c2) => spec_apply_lines(lines.skip(1), c2),
        }
    }
}

/// The chords of one section: its lines applied to an empty column list.
pub open spec fn spec_get_chords(section: Seq<u8>) -> Result<Seq<ChordView>, Error> {
    spec_apply_lines(spec_lines(section, 0), Seq::empty())
}


/// Compiles one section: applies each of its lines in order, growing the
/// per-column chords and resolving every sounding note, and fails on the
/// first bad line.
#[verifier::loop_isolation(false)]
pub fn get_chords(section: &[u8]) -> (r: Result<Vec<Chord>, Error>)
    ensures
        spec_get_chords(section@) matches Ok(m) ==> (r matches Ok(cs) && cs.deep_view() == m),
        spec_get_chords(section@) matches Err(e) ==> r == Err::<Vec<Chord>, Error>(e),
        r matches Ok(cs) ==> cs@.len() <= section@.len() && (forall|i: int|
            0 <= i < cs@.len() ==> #[trigger] cs.deep_view()[i].extended_duration == 0),
{
    let lines = split_lines(section);
    let mut chords: Vec<Chord> = Vec::new();
    proof {
        assert(lines.deep_view().skip(0) =~= lines.deep_view());
        assert(chords.deep_view() =~= Seq::<ChordView>::empty());
    }
    let mut li: usize = 0;
    while li < lines.len()
        invariant
            li <= lines@.len(),
            lines.deep_view() == spec_lines(section@, 0),
            forall|i: int| 0 <= i < lines@.len() ==> #[trigger] lines@[i]@.len() <= section@.len(),
            spec_apply_lines(lines.deep_view().skip(li as int), chords.deep_view())
                == spec_get_chords(section@),
            chords@.len() <= section@.len(),
            forall|i: int| 0 <= i < chords@.len() ==> #[trigger] chords.deep_view()[
                i
            ].extended_duration == 0,
        decreases lines@.len() - li,
    {
        let line = lines[li];
        proof {
            lemma_slice_deep_view(line);
            assert(lines.deep_view()[li as int] == line@);
            assert(lines.deep_view().skip(li as int)[0] == line@);
            assert(lines.deep_view().skip(li as int).skip(1) =~= lines.deep_view().skip(
                li + 1,
            ));
        }
        match line_step(line) {
            Err(e) => {
                proof {
                    assert(spec_apply_line(chords.deep_view(), line@) == Err::<
                        Seq<ChordView>,
                        Error,
                    >(e));
                }
                return Err(e);
            },
            Ok(None) => {
                proof {
                    assert(spec_apply_line(chords.deep_view(), line@) == Ok::<
                        Seq<ChordView>,
                        Error,
                    >(chords.deep_view()));
                }
                li += 1;
            },
            Ok(Some(pair)) => {
                let (octave, notes) = pair;
                proof {
                    assert(spec_line_step(line@) == Ok::<LineStep, Error>(
                        LineStep::Staff(octave, notes@),
                    ));
                }
                let ghost entry = chords.deep_view();
                let nlen = notes.len();
                // open every column this line reaches
                while chords.len() < nlen
                    invariant
                        nlen == notes@.len(),
                        chords.deep_view() == spec_grow(entry, chords@.len() as int),
                        entry.len() <= chords@.len(),
                        chords@.len() <= vstd::math::max(entry.len() as int, nlen as int),
                        forall|i: int| 0 <= i < chords@.len() ==> #[trigger] chords.deep_view()[
                            i
                        ].extended_duration == 0,
                    decreases nlen - chords@.len(),
                {
                    let ghost before = chords.deep_view();
                    chords.push(Chord::empty());
                    proof {
                        assert(chords.deep_view() =~= before.push(
                            ChordView { extended_duration: 0, notes: Seq::empty() },
                        ));
                        assert(chords.deep_view() =~= spec_grow(entry, chords@.len() as int));
                    }
                }
                proof {
                    assert(chords.deep_view() == spec_grow(entry, nlen as int));
                }
                let ghost grown = chords.deep_view();
                let mut ni: usize = 0;
                while ni < nlen
                    invariant
                        ni <= nlen,
                        nlen == notes@.len(),
                        chords@.len() >= nlen,
                        spec_add_notes(chords.deep_view(), notes@, octave, ni as int)
                            == spec_add_notes(grown, notes@, octave, 0),
                        forall|i: int| 0 <= i < chords@.len() ==> #[trigger] chords.deep_view()[
                            i
                        ].extended_duration == 0,
                        chords@.len() == grown.len(),
                    decreases nlen - ni,
                {
                    let b = notes[ni];
                    if b != DASH {
                        match get_note(b as char, octave) {
                            Err(e) => {
                                proof {
                                    assert(spec_add_notes(
                                        chords.deep_view(),
                                        notes@,
                                        octave,
                                        ni as int,
                                    ) == Err::<Seq<ChordView>, Error>(e));
                                    assert(spec_apply_line(entry, line@) == Err::<
                                        Seq<ChordView>,
                                        Error,
                                    >(e));
                                }
                                return Err(e);
                            },
                            Ok(f) => {
                                let ghost before = chords.deep_view();
                                let slot = &mut chords[ni];
                                slot.notes.push(f);
                                proof {
                                    assert(chords.deep_view() =~= before.update(
                                        ni as int,
                                        ChordView {
                                            extended_duration: before[
                                                ni as int
                                            ].extended_duration,
                                            notes: before[ni as int].notes.push(f),
                                        },
                                    ));
                                }
                            },
                        }
                    }
                    ni += 1;
                }
                proof {
                    assert(spec_add_notes(chords.deep_view(), notes@, octave, nlen as int)
                        == Ok::<Seq<ChordView>, Error>(chords.deep_view()));
                    assert(spec_apply_line(entry, line@) == Ok::<Seq<ChordView>, Error>(
                        chords.deep_view(),
                    ));
                }
                li += 1;
            },
        }
    }
    proof {
        assert(lines.deep_view().skip(li as int) =~= Seq::<Seq<u8>>::empty());
    }
    Ok(chords)
}


/// The chords of a whole notemap before compression: each section's chords
/// in document order; the first failing section aborts the whole
/// compilation.
pub open spec fn spec_all_chords(ss: Seq<Seq<u8>>) -> Result<Seq<ChordView>, Error>
    decreases ss.len(),
{
    if ss.len() == 0 {
        Ok(Seq::empty())
    } else {
        match spec_get_chords(ss[0]) {
            Err(e) => Err(e),
            Ok(cs) => match spec_all_chords(ss.skip(1)) {
                Err(e) => Err(e),
                Ok(rest) => Ok(cs + rest),
            },
        }
    }
}

/// Compiles every section and concatenates their chords in order.
#[verifier::loop_isolation(false)]
pub fn get_all_chords(sections: Vec<Vec<u8>>) -> (r: Result<Vec<Chord>, Error>)
    ensures
        spec_all_chords(sections.deep_view()) matches Ok(m) ==> (r matches Ok(cs)
            && cs.deep_view() == m),
        spec_all_chords(sections.deep_view()) matches Err(e) ==> r == Err::<Vec<Chord>, Error>(
            e,
        ),
        r matches Ok(cs) ==> cs@.len() <= seq_len_sum(sections.deep_view()) && (forall|i: int|
            0 <= i < cs@.len() ==> #[trigger] cs.deep_view()[i].extended_duration == 0),
{
    let ghost sv = sections.deep_view();
    let mut chords: Vec<Chord> = Vec::new();
    proof {
        assert(sv.skip(0) =~= sv);
        assert(chords.deep_view() =~= Seq::<ChordView>::empty());
        assert(sv.take(0) =~= Seq::<Seq<u8>>::empty());
    }
    let mut i: usize = 0;
    while i < sections.len()
        invariant
            i <= sections@.len(),
            (match spec_all_chords(sv.skip(i as int)) {
                Ok(rest) => spec_all_chords(sv) == Ok::<Seq<ChordView>, Error>(
                    chords.deep_view() + rest,
                ),
                Err(e) => spec_all_chords(sv) == Err::<Seq<ChordView>, Error>(e),
            }),
            chords@.len() <= seq_len_sum(sv.take(i as int)),
            forall|j: int| 0 <= j < chords@.len() ==> #[trigger] chords.deep_view()[
                j
            ].extended_duration == 0,
        decreases sections@.len() - i,
    {
        let section = &sections[i];
        proof {
            lemma_vec_u8_deep_view(section);
            assert(sv[i as int] == section@);
            assert(sv.skip(i as int)[0] == sv[i as int]);
            assert(sv.skip(i as int).skip(1) =~= sv.skip(i + 1));
            assert(sv.take(i + 1) =~= sv.take(i as int).push(sv[i as int]));
            lemma_seq_len_sum_push(sv.take(i as int), sv[i as int]);
        }
        match get_chords(section.as_slice()) {
            Err(e) => {
                return Err(e);
            },
            Ok(mut cs) => {
                let ghost pre = chords.deep_view();
                let ghost csd = cs.deep_view();
                chords.append(&mut cs);
                proof {
                    assert(chords.deep_view() =~= pre + csd);
                    match spec_all_chords(sv.skip(i + 1)) {
                        Ok(rest) => {
                            assert((pre + csd) + rest =~= pre + (csd + rest));
                        },
                        Err(_) => {},
                    }
                }
                i += 1;
            },
        }
    }
    proof {
        assert(sv.skip(i as int) =~= Seq::<Seq<u8>>::empty());
        assert(chords.deep_view() + Seq::<ChordView>::empty() =~= chords.deep_view());
        assert(sv.take(i as int) =~= sv);
    }
    Ok(chords)
}

/// Index of the first chord with notes at or after `i`, or -1.
pub open spec fn spec_first_sounding(cs: Seq<ChordView>, i: int) -> int
    decreases cs.len() - i,
{
    if i < 0 || i >= cs.len() {
        -1
    } else if cs[i].notes.len() > 0 {
        i
    } else {
        spec_first_sounding(cs, i + 1)
    }
}

/// The rest of the compression walk: `pending` is the last sounding chord,
/// not yet emitted, and `racked` the time of the rest columns seen since
/// it.  A rest column adds one nominal duration to the carry; a sounding
/// chord flushes the carry into `pending`'s extended duration and takes its
/// place.  A carry left at the end is dropped with the rest columns that
/// produced it.
pub open spec fn spec_compress_go(
    cs: Seq<ChordView>,
    i: int,
    pending: ChordView,
    racked: int,
    d: u64,
) -> Seq<ChordView>
    decreases cs.len() - i,
{
    if i < 0 || i >= cs.len() {
        seq![pending]
    } else if cs[i].notes.len() == 0 {
        spec_compress_go(cs, i + 1, pending, racked + d, d)
    } else {
        seq![
            ChordView {
                extended_duration: (pending.extended_duration + racked) as u64,
                notes: pending.notes,
            },
        ] + spec_compress_go(cs, i + 1, cs[i], 0, d)
    }
}

/// The compression pass: every rest column after the first sounding chord
/// folds one nominal duration into the sounding chord before it, and only
/// sounding chords remain.  Rest columns before the first sounding chord,
/// and after the last one, are dropped outright with their time.
pub open spec fn spec_compress(cs: Seq<ChordView>, d: u64) -> Seq<ChordView> {
    let k = spec_first_sounding(cs, 0);
    if k < 0 {
        Seq::empty()
    } else {
        spec_compress_go(cs, k + 1, cs[k], 0, d)
    }
}

/// Folds rest columns into the extended duration of the sounding chord
/// before them and drops them from the sequence.
#[verifier::loop_isolation(false)]
pub fn compress_chords(chords: Vec<Chord>, chord_duration: &Duration) -> (r: Vec<Chord>)
    requires
        chord_duration@ * chords@.len() <= u64::MAX,
        forall|i: int| 0 <= i < chords@.len() ==> #[trigger] chords.deep_view()[
            i
        ].extended_duration + chord_duration@ * chords@.len() <= u64::MAX,
    ensures
        r.deep_view() == spec_compress(chords.deep_view(), chord_duration@),
{
    let ghost cv = chords.deep_view();
    let ghost d = chord_duration@;
    let n = chords.len();
    proof {
        assert(cv.len() == n);
    }
    let mut k: usize = 0;
    while k < n && chords[k].notes.len() == 0
        invariant
            k <= n,
            spec_first_sounding(cv, 0) == spec_first_sounding(cv, k as int),
        decreases n - k,
    {
        proof {
            assert(cv[k as int] == chords@[k as int]@);
        }
        k += 1;
    }
    if k == n {
        let out: Vec<Chord> = Vec::new();
        proof {
            assert(out.deep_view() =~= Seq::<ChordView>::empty());
        }
        return out;
    }
    proof {
        assert(cv[k as int] == chords@[k as int]@);
        assert(spec_first_sounding(cv, k as int) == k as int);
    }
    let mut out: Vec<Chord> = Vec::new();
    let mut pending: Chord = chords[k].clone();
    let mut racked: u64 = 0;
    let ghost mut pj: int = k as int;
    let mut i: usize = k + 1;
    while i < n
        invariant
            k < n,
            k + 1 <= i <= n,
            out.deep_view() + spec_compress_go(cv, i as int, pending@, racked as int, d)
                == spec_compress(cv, d),
            racked as int <= d * (i as int),
            0 <= pj < n,
            pending@ == cv[pj],
        decreases n - i,
    {
        proof {
            assert(cv[i as int] == chords@[i as int]@);
        }
        if chords[i].notes.len() == 0 {
            proof {
                vstd::arithmetic::mul::lemma_mul_is_distributive_add(d as int, i as int, 1);
                vstd::arithmetic::mul::lemma_mul_inequality(i + 1, n as int, d as int);
                vstd::arithmetic::mul::lemma_mul_is_commutative(d as int, i + 1);
                vstd::arithmetic::mul::lemma_mul_is_commutative(d as int, n as int);
                assert(racked as int + d <= d * ((i + 1) as int));
                assert(d * ((i + 1) as int) <= d * (n as int));
            }
            racked = racked + chord_duration.nanos;
        } else {
            proof {
                vstd::arithmetic::mul::lemma_mul_inequality(i as int, n as int, d as int);
                vstd::arithmetic::mul::lemma_mul_is_commutative(d as int, i as int);
                vstd::arithmetic::mul::lemma_mul_is_commutative(d as int, n as int);
                assert(pending@.extended_duration + racked as int <= u64::MAX);
            }
            let ghost preout = out.deep_view();
            let ghost oldp = pending@;
            let ghost oldracked = racked as int;
            let flushed = Chord {
                extended_duration: pending.extended_duration.add(&Duration::from_nanos(racked)),
                notes: vstd::slice::slice_to_vec(pending.notes.as_slice()),
            };
            out.push(flushed);
            pending = chords[i].clone();
            racked = 0;
            proof {
                pj = i as int;
                let fv = ChordView {
                    extended_duration: (oldp.extended_duration + oldracked) as u64,
                    notes: oldp.notes,
                };
                assert(out.deep_view() =~= preout.push(fv));
                assert(spec_compress_go(cv, i as int, oldp, oldracked, d) == seq![fv]
                    + spec_compress_go(cv, i + 1, cv[i as int], 0, d));
                assert(preout.push(fv) + spec_compress_go(cv, i + 1, cv[i as int], 0, d)
                    =~= preout + spec_compress_go(cv, i as int, oldp, oldracked, d));
            }
        }
        i += 1;
    }
    let ghost preout = out.deep_view();
    out.push(pending);
    proof {
        assert(spec_compress_go(cv, i as int, pending@, racked as int, d) == seq![pending@]);
        assert(out.deep_view() =~= preout.push(pending@));
        assert(out.deep_view() =~= spec_compress(cv, d));
    }
    out
}

/// The whole compilation: sections, chords, then compression.
pub open spec fn spec_chords_from_notemap(bytes: Seq<u8>, d: u64) -> Result<
    Seq<ChordView>,
    Error,
> {
    match spec_all_chords(spec_sections(bytes)) {
        Err(e) => Err(e),
        Ok(cs) => Ok(spec_compress(cs, d)),
    }
}

/// Compiles a notemap into its compressed chord sequence.
///
/// The score is split into sections on blank lines; comment lines and
/// label prefixes are ignored; each staff line sounds its columns at its
/// octave; rest columns are folded into the preceding sounding chord's
/// extended duration.  Fails exactly where a staff line is malformed or
/// names a note or octave outside the table.
pub fn chords_from_notemap(notemap: &str, chord_duration: &Duration) -> (r: Result<
    Vec<Chord>,
    Error,
>)
    requires
        chord_duration@ * notemap.spec_bytes().len() <= u64::MAX,
    ensures
        spec_chords_from_notemap(notemap.spec_bytes(), chord_duration@) matches Ok(m) ==> (
        r matches Ok(cs) && cs.deep_view() == m),
        spec_chords_from_notemap(notemap.spec_bytes(), chord_duration@) matches Err(e) ==> r
            == Err::<Vec<Chord>, Error>(e),
{
    let bytes = notemap.as_bytes();
    let sections = get_sections(bytes);
    let ghost secv = sections.deep_view();
    let cols = match get_all_chords(sections) {
        Err(e) => {
            return Err(e);
        },
        Ok(c) => c,
    };
    proof {
        lemma_seq_len_sum_nonneg(secv);
        vstd::arithmetic::mul::lemma_mul_inequality(
            cols@.len() as int,
            notemap.spec_bytes().len() as int,
            chord_duration@ as int,
        );
        vstd::arithmetic::mul::lemma_mul_is_commutative(chord_duration@ as int, cols@.len() as int);
        vstd::arithmetic::mul::lemma_mul_is_commutative(
            chord_duration@ as int,
            notemap.spec_bytes().len() as int,
        );
    }
    Ok(compress_chords(cols, chord_duration))
}


/// The compression law: a sounding chord followed by two rest columns and
/// then another sounding chord compiles to the two sounding chords alone,
/// with exactly two nominal durations added to the first one's extended
/// duration.  The rest columns never appear in the output.
pub proof fn lemma_compression_folds(x: ChordView, e1: ChordView, e2: ChordView, y: ChordView, d: u64)
    requires
        x.notes.len() > 0,
        y.notes.len() > 0,
        e1.notes.len() == 0,
        e2.notes.len() == 0,
        x.extended_duration + 2 * d <= u64::MAX,
    ensures
        spec_compress(seq![x, e1, e2, y], d) == seq![
            ChordView {
                extended_duration: (x.extended_duration + 2 * d) as u64,
                notes: x.notes,
            },
            y,
        ],
{
    let cs = seq![x, e1, e2, y];
    assert(cs[0] == x && cs[1] == e1 && cs[2] == e2 && cs[3] == y);
    assert(spec_first_sounding(cs, 0) == 0);
    let xd = ChordView {
        extended_duration: (x.extended_duration + 2 * d) as u64,
        notes: x.notes,
    };
    assert(spec_compress(cs, d) == spec_compress_go(cs, 1, x, 0, d));
    assert(spec_compress_go(cs, 1, x, 0, d) == spec_compress_go(cs, 2, x, 0 + d, d));
    assert(spec_compress_go(cs, 2, x, 0 + d, d) == spec_compress_go(cs, 3, x, 0 + d + d, d));
    assert(spec_compress_go(cs, 3, x, 0 + d + d, d) == seq![xd] + spec_compress_go(
        cs,
        4,
        y,
        0,
        d,
    ));
    assert(spec_compress_go(cs, 4, y, 0, d) == seq![y]);
    assert(spec_compress(cs, d) == seq![xd] + seq![y]);
    assert(seq![xd] + seq![y] =~= seq![xd, y]);
}

/// A comment line contributes nothing to its section.
pub proof fn lemma_comment_line_skipped(chords: Seq<ChordView>, line: Seq<u8>)
    requires
        line.len() > 0,
        line[0] == HASH,
    ensures
        spec_apply_line(chords, line) == Ok::<Seq<ChordView>, Error>(chords),
{
}

/// Inserting a comment line anywhere among a section's lines leaves the
/// compiled chords unchanged: comment lines can never abort a compilation
/// nor change its result.
pub proof fn lemma_comment_line_harmless(
    lines: Seq<Seq<u8>>,
    k: int,
    comment: Seq<u8>,
    chords: Seq<ChordView>,
)
    requires
        0 <= k <= lines.len(),
        comment.len() > 0,
        comment[0] == HASH,
    ensures
        spec_apply_lines(lines.insert(k, comment), chords) == spec_apply_lines(lines, chords),
    decreases lines.len(),
{
    let ins = lines.insert(k, comment);
    if k == 0 {
        assert(ins[0] == comment);
        lemma_comment_line_skipped(chords, comment);
        assert(ins.skip(1) =~= lines);
    } else {
        assert(ins[0] == lines[0]);
        match spec_apply_line(chords, lines[0]) {
            Err(_) => {},
            Ok(c2) => {
                assert(ins.skip(1) =~= lines.skip(1).insert(k - 1, comment));
                lemma_comment_line_harmless(lines.skip(1), k - 1, comment, c2);
            },
        }
    }
}


/// Reading a line can fail only over its octave part.
proof fn lemma_line_step_errors(line: Seq<u8>)
    ensures
        spec_line_step(line) matches Err(e) ==> (e is InvalidOctave || e is OctaveNotSpecified),
{
}

/// Adding a line's notes can fail only over the note table.
proof fn lemma_add_notes_errors(chords: Seq<ChordView>, notes: Seq<u8>, octave: usize, i: int)
    ensures
        spec_add_notes(chords, notes, octave, i) matches Err(e) ==> (e is NoteDoesNotExist
            || e is OctaveDoesNotExist),
    decreases notes.len() - i,
{
    if 0 <= i < notes.len() {
        if notes[i] == DASH {
            lemma_add_notes_errors(chords, notes, octave, i + 1);
        } else {
            match spec_get_note(notes[i] as char, octave) {
                Err(_) => {},
                Ok(f) => {
                    lemma_add_notes_errors(
                        chords.update(
                            i,
                            ChordView {
                                extended_duration: chords[i].extended_duration,
                                notes: chords[i].notes.push(f),
                            },
                        ),
                        notes,
                        octave,
                        i + 1,
                    );
                },
            }
        }
    }
}

/// Applying a section's lines can fail only as the two lemmas above say.
proof fn lemma_apply_lines_errors(lines: Seq<Seq<u8>>, chords: Seq<ChordView>)
    ensures
        spec_apply_lines(lines, chords) matches Err(e) ==> !(e is NotesNotSpecified),
    decreases lines.len(),
{
    if lines.len() > 0 {
        lemma_line_step_errors(lines[0]);
        match spec_line_step(lines[0]) {
            Err(_) => {},
            Ok(LineStep::Skip) => {
                lemma_apply_lines_errors(lines.skip(1), chords);
            },
            Ok(LineStep::Staff(octave, notes)) => {
                lemma_add_notes_errors(spec_grow(chords, notes.len() as int), notes, octave, 0);
                match spec_apply_line(chords, lines[0]) {
                    Err(_) => {},
                    Ok(c2) => {
                        lemma_apply_lines_errors(lines.skip(1), c2);
                    },
                }
            },
        }
    }
}

/// Concatenating sections introduces no failure of its own.
proof fn lemma_all_chords_errors(ss: Seq<Seq<u8>>)
    ensures
        spec_all_chords(ss) matches Err(e) ==> !(e is NotesNotSpecified),
    decreases ss.len(),
{
    if ss.len() > 0 {
        lemma_apply_lines_errors(spec_lines(ss[0], 0), Seq::empty());
        lemma_all_chords_errors(ss.skip(1));
    }
}

/// The failures that can abort a compilation: an unknown note letter, an
/// octave beyond the table, an octave that is not a number, or a staff
/// line whose separators enclose nothing.  Splitting into sections,
/// skipping comments and labels, trimming whitespace and compressing never
/// fail, and the defensive missing-notes failure can never arise.
pub proof fn lemma_compile_failures(bytes: Seq<u8>, d: u64)
    ensures
        spec_chords_from_notemap(bytes, d) matches Err(e) ==> (e is NoteDoesNotExist
            || e is OctaveDoesNotExist || e is InvalidOctave || e is OctaveNotSpecified),
{
    lemma_all_chords_errors(spec_sections(bytes));
}


/// Whether every byte of `s` is ASCII whitespace.
pub open spec fn spec_all_ws(s: Seq<u8>) -> bool {
    forall|i: int| 0 <= i < s.len() ==> is_ws(#[trigger] s[i])
}

/// Normalizing line endings keeps a whitespace-only text whitespace-only.
proof fn lemma_normalize_ws(s: Seq<u8>, from: int)
    requires
        spec_all_ws(s),
    ensures
        spec_all_ws(spec_normalize_at(s, from)),
    decreases s.len() - from,
{
    if 0 <= from < s.len() {
        if s[from] == CR && from + 1 < s.len() && s[from + 1] == LF {
            lemma_normalize_ws(s, from + 2);
        } else {
            lemma_normalize_ws(s, from + 1);
        }
    }
}

/// Trimming a whitespace-only text leaves nothing.
proof fn lemma_trim_ws(s: Seq<u8>)
    requires
        spec_all_ws(s),
    ensures
        spec_trim(s).len() == 0,
{
    lemma_skip_all_ws(s, 0);
}

proof fn lemma_skip_all_ws(s: Seq<u8>, i: int)
    requires
        spec_all_ws(s),
        0 <= i <= s.len(),
    ensures
        spec_skip_ws(s, i) == s.len(),
    decreases s.len() - i,
{
    if i < s.len() {
        lemma_skip_all_ws(s, i + 1);
    }
}

/// A whitespace-only text has no sections.
proof fn lemma_sections_ws(n: Seq<u8>, pos: int)
    requires
        spec_all_ws(n),
        0 <= pos <= n.len(),
    ensures
        spec_sections_at(n, pos) =~= Seq::<Seq<u8>>::empty(),
    decreases n.len() - pos,
{
    let i = spec_find_break(n, pos);
    if i < 0 {
        lemma_trim_ws(n.subrange(pos, n.len() as int));
    } else {
        lemma_find_break_bounds(n, pos);
        lemma_trim_ws(n.subrange(pos, i));
        lemma_sections_ws(n, i + 2);
    }
}

/// Whitespace alone never aborts a compilation: a document of nothing but
/// whitespace compiles, to no chords at all.
pub proof fn lemma_whitespace_compiles_to_nothing(bytes: Seq<u8>, d: u64)
    requires
        spec_all_ws(bytes),
    ensures
        spec_chords_from_notemap(bytes, d) == Ok::<Seq<ChordView>, Error>(Seq::empty()),
{
    lemma_normalize_ws(bytes, 0);
    lemma_sections_ws(spec_normalize_at(bytes, 0), 0);
    assert(spec_all_chords(spec_sections(bytes)) == Ok::<Seq<ChordView>, Error>(Seq::empty()));
    assert(spec_first_sounding(Seq::<ChordView>::empty(), 0) == -1);
}

} // verus!
