use zing::duration::Duration;
use zing::model::Chord;
use zing::notemap::{chords_from_notemap, compress_chords, get_note, get_sections, Error};

fn ms(n: u64) -> Duration {
    Duration::from_nanos(n * 1_000_000)
}

fn chord(notes: Vec<u16>, ext: Duration) -> Chord {
    Chord { extended_duration: ext, notes }
}

#[test]
fn single_staff_two_columns() {
    // "4|ab|" with a 100 ms chord duration: two single-note chords at
    // octave 4, each with no extended duration
    let d = ms(100);
    let chords = chords_from_notemap("4|ab|", &d).unwrap();
    assert_eq!(chords.len(), 2);
    assert_eq!(chords[0], chord(vec![440], ms(0)));
    assert_eq!(chords[1], chord(vec![493], ms(0)));
}

#[test]
fn rests_fold_into_preceding_chord() {
    // [X, rest, rest, Y] compiles to [X(+2d), Y]
    let d = ms(100);
    let chords = chords_from_notemap("4|a--b|", &d).unwrap();
    assert_eq!(chords.len(), 2);
    assert_eq!(chords[0], chord(vec![440], ms(200)));
    assert_eq!(chords[1], chord(vec![493], ms(0)));
}

#[test]
fn leading_rest_column_is_dropped_silently() {
    let d = ms(100);
    let chords = chords_from_notemap("4|-a|", &d).unwrap();
    assert_eq!(chords, vec![chord(vec![440], ms(0))]);
}

#[test]
fn trailing_rest_time_is_dropped() {
    let d = ms(100);
    let chords = chords_from_notemap("4|a--|", &d).unwrap();
    assert_eq!(chords, vec![chord(vec![440], ms(0))]);
}

#[test]
fn columns_align_across_lines_of_a_section() {
    let d = ms(100);
    let chords = chords_from_notemap("5|-e|\n4|e-|", &d).unwrap();
    assert_eq!(chords.len(), 2);
    assert_eq!(chords[0], chord(vec![329], ms(0)));
    assert_eq!(chords[1], chord(vec![659], ms(0)));
}

#[test]
fn simultaneous_notes_form_one_chord() {
    let d = ms(100);
    let chords = chords_from_notemap("5|e|\n4|e|", &d).unwrap();
    assert_eq!(chords, vec![chord(vec![659, 329], ms(0))]);
}

#[test]
fn sections_concatenate_in_document_order() {
    let d = ms(100);
    let chords = chords_from_notemap("4|a|\n\n4|b|", &d).unwrap();
    assert_eq!(chords, vec![chord(vec![440], ms(0)), chord(vec![493], ms(0))]);
}

#[test]
fn crlf_line_endings_are_normalized() {
    let d = ms(100);
    let chords = chords_from_notemap("4|a|\r\n\r\n4|b|", &d).unwrap();
    assert_eq!(chords, vec![chord(vec![440], ms(0)), chord(vec![493], ms(0))]);
}

#[test]
fn comment_lines_and_labels_are_ignored() {
    let d = ms(100);
    let chords = chords_from_notemap("# a song\nRH:4|ab|", &d).unwrap();
    assert_eq!(chords.len(), 2);
    assert_eq!(chords[0], chord(vec![440], ms(0)));
}

#[test]
fn surrounding_whitespace_never_aborts() {
    let d = ms(100);
    let chords = chords_from_notemap("  \n\n  4|a|  \n\n  ", &d).unwrap();
    assert_eq!(chords, vec![chord(vec![440], ms(0))]);
}

#[test]
fn unknown_note_letter_fails() {
    let d = ms(100);
    let r = chords_from_notemap("4|h|", &d);
    assert_eq!(r, Err(Error::NoteDoesNotExist('h')));
}

#[test]
fn octave_beyond_table_fails() {
    let d = ms(100);
    let r = chords_from_notemap("9|a|", &d);
    assert_eq!(r, Err(Error::OctaveDoesNotExist(9)));
}

#[test]
fn octave_that_is_not_a_number_fails() {
    let d = ms(100);
    let r = chords_from_notemap("x|a|", &d);
    assert_eq!(r, Err(Error::InvalidOctave));
}

#[test]
fn separators_with_nothing_between_fail() {
    let d = ms(100);
    let r = chords_from_notemap("||", &d);
    assert_eq!(r, Err(Error::OctaveNotSpecified));
}

#[test]
fn lines_without_two_separators_are_skipped() {
    let d = ms(100);
    let chords = chords_from_notemap("4|a\njust text\n4|b|", &d).unwrap();
    assert_eq!(chords, vec![chord(vec![493], ms(0))]);
}

#[test]
fn empty_notemap_compiles_to_nothing() {
    let d = ms(100);
    assert_eq!(chords_from_notemap("", &d).unwrap(), vec![]);
}

#[test]
fn sharp_notes_use_upper_case_letters() {
    let d = ms(100);
    let chords = chords_from_notemap("4|AC|", &d).unwrap();
    assert_eq!(chords, vec![chord(vec![466], ms(0)), chord(vec![277], ms(0))]);
}

#[test]
fn note_table_lookups() {
    assert_eq!(get_note('a', 4), Ok(440));
    assert_eq!(get_note('A', 4), Ok(466));
    assert_eq!(get_note('c', 0), Ok(16));
    assert_eq!(get_note('G', 8), Ok(6644));
    assert_eq!(get_note('h', 0), Err(Error::NoteDoesNotExist('h')));
    assert_eq!(get_note('a', 9), Err(Error::OctaveDoesNotExist(9)));
    // the octave range check comes first
    assert_eq!(get_note('h', 10), Err(Error::OctaveDoesNotExist(10)));
}

#[test]
fn get_sections_trims_and_drops_empties() {
    let sections = get_sections(b"  one  \n\n\n\ntwo\n\n");
    assert_eq!(sections, vec![b"one".to_vec(), b"two".to_vec()]);
}

#[test]
fn compress_chords_folds_and_filters() {
    let d = ms(100);
    let input = vec![
        chord(vec![440], ms(0)),
        chord(vec![], ms(0)),
        chord(vec![], ms(0)),
        chord(vec![493], ms(50)),
    ];
    let out = compress_chords(input, &d);
    assert_eq!(out, vec![chord(vec![440], ms(200)), chord(vec![493], ms(50))]);
}

#[test]
fn compress_chords_of_only_rests_is_empty() {
    let d = ms(100);
    let input = vec![chord(vec![], ms(0)), chord(vec![], ms(0))];
    assert_eq!(compress_chords(input, &d), vec![]);
}

#[test]
fn shorter_lines_keep_earlier_columns() {
    // a later, shorter staff line never discards columns that earlier
    // lines of its section opened
    let d = ms(100);
    let chords = chords_from_notemap("4|ab|\n4|a|", &d).unwrap();
    assert_eq!(chords.len(), 2);
    assert_eq!(chords[0], chord(vec![440, 440], ms(0)));
    assert_eq!(chords[1], chord(vec![493], ms(0)));
}

#[test]
fn a_small_score_compiles_end_to_end() {
    let d = ms(100);
    let score = "# intro\nRH: 5|--e-|\nLH: 4|eg--|\n\n4|b|\n";
    let chords = chords_from_notemap(score, &d).unwrap();
    // column 0: e4; column 1: g4; column 2: e5; the all-rest column that
    // ends the first section folds into e5, because the second section's
    // chord follows it in the concatenated sequence
    assert_eq!(
        chords,
        vec![
            chord(vec![329], ms(0)),
            chord(vec![392], ms(0)),
            chord(vec![659], ms(100)),
            chord(vec![493], ms(0)),
        ]
    );
}
