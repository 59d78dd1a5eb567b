//! The frequency table: each note letter, at each of the nine octaves, has
//! a fixed frequency in hertz.

use vstd::prelude::*;

verus! {

/// Number of octaves the table covers.
pub const OCTAVE_COUNT: usize = 9;

/// The letters that name a note: lower case for naturals, upper case for
/// the five sharps.
pub open spec fn is_note_letter(c: char) -> bool {
    ||| c == 'a'
    ||| c == 'A'
    ||| c == 'b'
    ||| c == 'c'
    ||| c == 'C'
    ||| c == 'd'
    ||| c == 'D'
    ||| c == 'e'
    ||| c == 'f'
    ||| c == 'F'
    ||| c == 'g'
    ||| c == 'G'
}

/// Frequency of natural A at each octave.
pub open spec fn spec_freq_a(octave: int) -> u16
    recommends
        0 <= octave < 9,
{
    if octave == 0 {
        27
    } else if octave == 1 {
        55
    } else if octave == 2 {
        110
    } else if octave == 3 {
        220
    } else if octave == 4 {
        440
    } else if octave == 5 {
        880
    } else if octave == 6 {
        1760
    } else if octave == 7 {
        3520
    } else {
        7040
    }
}

/// Frequency of A sharp at each octave.
pub open spec fn spec_freq_a_sharp(octave: int) -> u16
    recommends
        0 <= octave < 9,
{
    if octave == 0 {
        29
    } else if octave == 1 {
        58
    } else if octave == 2 {
        116
    } else if octave == 3 {
        233
    } else if octave == 4 {
        466
    } else if octave == 5 {
        932
    } else if octave == 6 {
        1864
    } else if octave == 7 {
        3729
    } else {
        7458
    }
}

/// Frequency of natural B at each octave.
pub open spec fn spec_freq_b(octave: int) -> u16
    recommends
        0 <= octave < 9,
{
    if octave == 0 {
        30
    } else if octave == 1 {
        61
    } else if octave == 2 {
        123
    } else if octave == 3 {
        246
    } else if octave == 4 {
        493
    } else if octave == 5 {
        987
    } else if octave == 6 {
        1975
    } else if octave == 7 {
        3951
    } else {
        7902
    }
}

/// Frequency of natural C at each octave.
pub open spec fn spec_freq_c(octave: int) -> u16
    recommends
        0 <= octave < 9,
{
    if octave == 0 {
        16
    } else if octave == 1 {
        32
    } else if octave == 2 {
        65
    } else if octave == 3 {
        130
    } else if octave == 4 {
        261
    } else if octave == 5 {
        523
    } else if octave == 6 {
        1046
    } else if octave == 7 {
        2093
    } else {
        4186
    }
}

/// Frequency of C sharp at each octave.
pub open spec fn spec_freq_c_sharp(octave: int) -> u16
    recommends
        0 <= octave < 9,
{
    if octave == 0 {
        17
    } else if octave == 1 {
        34
    } else if octave == 2 {
        69
    } else if octave == 3 {
        138
    } else if octave == 4 {
        277
    } else if octave == 5 {
        554
    } else if octave == 6 {
        1108
    } else if octave == 7 {
        2217
    } else {
        4434
    }
}

/// Frequency of natural D at each octave.
pub open spec fn spec_freq_d(octave: int) -> u16
    recommends
        0 <= octave < 9,
{
    if octave == 0 {
        18
    } else if octave == 1 {
        36
    } else if octave == 2 {
        73
    } else if octave == 3 {
        146
    } else if octave == 4 {
        293
    } else if octave == 5 {
        587
    } else if octave == 6 {
        1174
    } else if octave == 7 {
        2349
    } else {
        4698
    }
}

/// Frequency of D sharp at each octave.
pub open spec fn spec_freq_d_sharp(octave: int) -> u16
    recommends
        0 <= octave < 9,
{
    if octave == 0 {
        19
    } else if octave == 1 {
        38
    } else if octave == 2 {
        77
    } else if octave == 3 {
        155
    } else if octave == 4 {
        311
    } else if octave == 5 {
        622
    } else if octave == 6 {
        1244
    } else if octave == 7 {
        2489
    } else {
        4978
    }
}

/// Frequency of natural E at each octave.
pub open spec fn spec_freq_e(octave: int) -> u16
    recommends
        0 <= octave < 9,
{
    if octave == 0 {
        20
    } else if octave == 1 {
        41
    } else if octave == 2 {
        82
    } else if octave == 3 {
        164
    } else if octave == 4 {
        329
    } else if octave == 5 {
        659
    } else if octave == 6 {
        1318
    } else if octave == 7 {
        2637
    } else {
        5274
    }
}

/// Frequency of natural F at each octave.
pub open spec fn spec_freq_f(octave: int) -> u16
    recommends
        0 <= octave < 9,
{
    if octave == 0 {
        21
    } else if octave == 1 {
        43
    } else if octave == 2 {
        87
    } else if octave == 3 {
        174
    } else if octave == 4 {
        349
    } else if octave == 5 {
        698
    } else if octave == 6 {
        1396
    } else if octave == 7 {
        2793
    } else {
        5587
    }
}

/// Frequency of F sharp at each octave.
pub open spec fn spec_freq_f_sharp(octave: int) -> u16
    recommends
        0 <= octave < 9,
{
    if octave == 0 {
        23
    } else if octave == 1 {
        46
    } else if octave == 2 {
        92
    } else if octave == 3 {
        185
    } else if octave == 4 {
        369
    } else if octave == 5 {
        739
    } else if octave == 6 {
        1479
    } else if octave == 7 {
        2959
    } else {
        5919
    }
}

/// Frequency of natural G at each octave.
pub open spec fn spec_freq_g(octave: int) -> u16
    recommends
        0 <= octave < 9,
{
    if octave == 0 {
        24
    } else if octave == 1 {
        49
    } else if octave == 2 {
        98
    } else if octave == 3 {
        196
    } else if octave == 4 {
        392
    } else if octave == 5 {
        783
    } else if octave == 6 {
        1567
    } else if octave == 7 {
        3135
    } else {
        6271
    }
}

/// Frequency of G sharp at each octave.
pub open spec fn spec_freq_g_sharp(octave: int) -> u16
    recommends
        0 <= octave < 9,
{
    if octave == 0 {
        25
    } else if octave == 1 {
        51
    } else if octave == 2 {
        103
    } else if octave == 3 {
        207
    } else if octave == 4 {
        415
    } else if octave == 5 {
        830
    } else if octave == 6 {
        1661
    } else if octave == 7 {
        3322
    } else {
        6644
    }
}

/// Frequency of the note named by `c` at `octave`, per the table above.
pub open spec fn spec_note_freq(c: char, octave: int) -> u16
    recommends
        0 <= octave < 9,
        is_note_letter(c),
{
    if c == 'a' {
        spec_freq_a(octave)
    } else if c == 'A' {
        spec_freq_a_sharp(octave)
    } else if c == 'b' {
        spec_freq_b(octave)
    } else if c == 'c' {
        spec_freq_c(octave)
    } else if c == 'C' {
        spec_freq_c_sharp(octave)
    } else if c == 'd' {
        spec_freq_d(octave)
    } else if c == 'D' {
        spec_freq_d_sharp(octave)
    } else if c == 'e' {
        spec_freq_e(octave)
    } else if c == 'f' {
        spec_freq_f(octave)
    } else if c == 'F' {
        spec_freq_f_sharp(octave)
    } else if c == 'g' {
        spec_freq_g(octave)
    } else if c == 'G' {
        spec_freq_g_sharp(octave)
    } else {
        0
    }
}

/// Looks the frequency of a note up in the table.
pub fn note_freq(c: char, octave: usize) -> (r: u16)
    requires
        octave < 9,
        is_note_letter(c),
    ensures
        r == spec_note_freq(c, octave as int),
{
    if c == 'a' {
        if octave == 0 {
            27
        } else if octave == 1 {
            55
        } else if octave == 2 {
            110
        } else if octave == 3 {
            220
        } else if octave == 4 {
            440
        } else if octave == 5 {
            880
        } else if octave == 6 {
            1760
        } else if octave == 7 {
            3520
        } else {
            7040
        }
    } else if c == 'A' {
        if octave == 0 {
            29
        } else if octave == 1 {
            58
        } else if octave == 2 {
            116
        } else if octave == 3 {
            233
        } else if octave == 4 {
            466
        } else if octave == 5 {
            932
        } else if octave == 6 {
            1864
        } else if octave == 7 {
            3729
        } else {
            7458
        }
    } else if c == 'b' {
        if octave == 0 {
            30
        } else if octave == 1 {
            61
        } else if octave == 2 {
            123
        } else if octave == 3 {
            246
        } else if octave == 4 {
            493
        } else if octave == 5 {
            987
        } else if octave == 6 {
            1975
        } else if octave == 7 {
            3951
        } else {
            7902
        }
    } else if c == 'c' {
        if octave == 0 {
            16
        } else if octave == 1 {
            32
        } else if octave == 2 {
            65
        } else if octave == 3 {
            130
        } else if octave == 4 {
            261
        } else if octave == 5 {
            523
        } else if octave == 6 {
            1046
        } else if octave == 7 {
            2093
        } else {
            4186
        }
    } else if c == 'C' {
        if octave == 0 {
            17
        } else if octave == 1 {
            34
        } else if octave == 2 {
            69
        } else if octave == 3 {
            138
        } else if octave == 4 {
            277
        } else if octave == 5 {
            554
        } else if octave == 6 {
            1108
        } else if octave == 7 {
            2217
        } else {
            4434
        }
    } else if c == 'd' {
        if octave == 0 {
            18
        } else if octave == 1 {
            36
        } else if octave == 2 {
            73
        } else if octave == 3 {
            146
        } else if octave == 4 {
            293
        } else if octave == 5 {
            587
        } else if octave == 6 {
            1174
        } else if octave == 7 {
            2349
        } else {
            4698
        }
    } else if c == 'D' {
        if octave == 0 {
            19
        } else if octave == 1 {
            38
        } else if octave == 2 {
            77
        } else if octave == 3 {
            155
        } else if octave == 4 {
            311
        } else if octave == 5 {
            622
        } else if octave == 6 {
            1244
        } else if octave == 7 {
            2489
        } else {
            4978
        }
    } else if c == 'e' {
        if octave == 0 {
            20
        } else if octave == 1 {
            41
        } else if octave == 2 {
            82
        } else if octave == 3 {
            164
        } else if octave == 4 {
            329
        } else if octave == 5 {
            659
        } else if octave == 6 {
            1318
        } else if octave == 7 {
            2637
        } else {
            5274
        }
    } else if c == 'f' {
        if octave == 0 {
            21
        } else if octave == 1 {
            43
        } else if octave == 2 {
            87
        } else if octave == 3 {
            174
        } else if octave == 4 {
            349
        } else if octave == 5 {
            698
        } else if octave == 6 {
            1396
        } else if octave == 7 {
            2793
        } else {
            5587
        }
    } else if c == 'F' {
        if octave == 0 {
            23
        } else if octave == 1 {
            46
        } else if octave == 2 {
            92
        } else if octave == 3 {
            185
        } else if octave == 4 {
            369
        } else if octave == 5 {
            739
        } else if octave == 6 {
            1479
        } else if octave == 7 {
            2959
        } else {
            5919
        }
    } else if c == 'g' {
        if octave == 0 {
            24
        } else if octave == 1 {
            49
        } else if octave == 2 {
            98
        } else if octave == 3 {
            196
        } else if octave == 4 {
            392
        } else if octave == 5 {
            783
        } else if octave == 6 {
            1567
        } else if octave == 7 {
            3135
        } else {
            6271
        }
    } else if c == 'G' {
        if octave == 0 {
            25
        } else if octave == 1 {
            51
        } else if octave == 2 {
            103
        } else if octave == 3 {
            207
        } else if octave == 4 {
            415
        } else if octave == 5 {
            830
        } else if octave == 6 {
            1661
        } else if octave == 7 {
            3322
        } else {
            6644
        }
    } else {
        assert(false);
        0
    }
}

} // verus!
