//! Note arithmetic: chord-offset expansion with the documented wraparound
//! rule, and note-name conversions.

use vstd::prelude::*;
use vstd::string::StringExecFns;

verus! {

/// The note produced by applying a chord offset to a base note, always in
/// [0, 127]:
/// - a non-negative offset moves up, wrapping from 0 upward past 127;
/// - a negative offset moves down; one exceeding the base note wraps from
///   127 downward.
pub open spec fn chord_note_spec(note: int, off: int) -> int {
    if off < 0 && -off <= note {
        note + off
    } else if off < 0 {
        (127 - (-off - note)) % 128
    } else {
        (note + off) % 128
    }
}

/// Every chord expansion of an in-range note is itself in range.
pub proof fn lemma_chord_note_in_range(note: int, off: int)
    requires
        0 <= note <= 127,
        -128 <= off <= 127,
    ensures
        0 <= chord_note_spec(note, off) <= 127,
{
}

/// Apply one chord offset to a base note, wrapping as documented.
pub fn chord_note(note: u8, off: i8) -> (r: u8)
    requires
        note <= 127,
    ensures
        r == chord_note_spec(note as int, off as int),
        r <= 127,
{
    let n: i32 = note as i32;
    let o: i32 = off as i32;
    if o < 0 && -o <= n {
        (n + o) as u8
    } else if o < 0 {
        let d: i32 = 127 - (-o - n);
        if d < 0 {
            (d + 128) as u8
        } else {
            d as u8
        }
    } else {
        ((n + o) % 128) as u8
    }
}

/// An ASCII capital letter lowered; any other character unchanged.
pub open spec fn lower_char(c: char) -> char {
    if 'A' <= c && c <= 'Z' {
        ((c as int) + 32) as char
    } else {
        c
    }
}

/// Lower one character's case (ASCII letters only).
pub fn to_lower(c: char) -> (r: char)
    ensures
        r == lower_char(c),
{
    match c {
        'A' => 'a',
        'B' => 'b',
        'C' => 'c',
        'D' => 'd',
        'E' => 'e',
        'F' => 'f',
        'G' => 'g',
        'H' => 'h',
        'I' => 'i',
        'J' => 'j',
        'K' => 'k',
        'L' => 'l',
        'M' => 'm',
        'N' => 'n',
        'O' => 'o',
        'P' => 'p',
        'Q' => 'q',
        'R' => 'r',
        'S' => 's',
        'T' => 't',
        'U' => 'u',
        'V' => 'v',
        'W' => 'w',
        'X' => 'x',
        'Y' => 'y',
        'Z' => 'z',
        _ => c,
    }
}

/// The display name of a pitch class, 0 through 11.
pub open spec fn note_name_seq(i: int) -> Seq<char> {
    if i == 0 {
        seq!['C', '-']
    } else if i == 1 {
        seq!['C', '#']
    } else if i == 2 {
        seq!['D', '-']
    } else if i == 3 {
        seq!['D', '#']
    } else if i == 4 {
        seq!['E', '-']
    } else if i == 5 {
        seq!['F', '-']
    } else if i == 6 {
        seq!['F', '#']
    } else if i == 7 {
        seq!['G', '-']
    } else if i == 8 {
        seq!['G', '#']
    } else if i == 9 {
        seq!['A', '-']
    } else if i == 10 {
        seq!['A', '#']
    } else {
        seq!['B', '-']
    }
}

/// The display text of a note: its pitch-class name, then its octave, where
/// middle C (note 60) sits in octave 4.
pub open spec fn display_note_spec(n: int) -> Seq<char> {
    note_name_seq(n % 12) + seq![crate::persist::digit_char_spec(n / 12 - 1)]
}

/// The display text of a note number. Notes below 12 lie beneath octave
/// zero and have no display text.
pub fn display_midi_note(midi_note: u8) -> (r: String)
    requires
        midi_note >= 12,
    ensures
        r@ == display_note_spec(midi_note as int),
{
    let name: &'static str = match midi_note % 12 {
        0 => "C-",
        1 => "C#",
        2 => "D-",
        3 => "D#",
        4 => "E-",
        5 => "F-",
        6 => "F#",
        7 => "G-",
        8 => "G#",
        9 => "A-",
        10 => "A#",
        _ => "B-",
    };
    let octave = midi_note / 12 - 1;
    let oct: &'static str = match octave {
        0 => "0",
        1 => "1",
        2 => "2",
        3 => "3",
        4 => "4",
        5 => "5",
        6 => "6",
        7 => "7",
        8 => "8",
        _ => "9",
    };
    proof {
        reveal_strlit("C-");
        reveal_strlit("C#");
        reveal_strlit("D-");
        reveal_strlit("D#");
        reveal_strlit("E-");
        reveal_strlit("F-");
        reveal_strlit("F#");
        reveal_strlit("G-");
        reveal_strlit("G#");
        reveal_strlit("A-");
        reveal_strlit("A#");
        reveal_strlit("B-");
        reveal_strlit("0");
        reveal_strlit("1");
        reveal_strlit("2");
        reveal_strlit("3");
        reveal_strlit("4");
        reveal_strlit("5");
        reveal_strlit("6");
        reveal_strlit("7");
        reveal_strlit("8");
        reveal_strlit("9");
        assert(name@ =~= note_name_seq(midi_note as int % 12));
        assert(oct@ =~= seq![crate::persist::digit_char_spec(midi_note as int / 12 - 1)]);
    }
    let base = String::from_str(name);
    let out = base.concat(oct);
    proof {
        assert(out@ =~= display_note_spec(midi_note as int));
    }
    out
}

/// A name lowercased with its spaces struck out.
pub open spec fn cleaned(s: Seq<char>) -> Seq<char>
    decreases s.len(),
{
    if s.len() == 0 {
        Seq::empty()
    } else if lower_char(s.last()) == ' ' {
        cleaned(s.drop_last())
    } else {
        cleaned(s.drop_last()).push(lower_char(s.last()))
    }
}

/// The scale offset of a two-character note spelling, where one exists:
/// the outer option distinguishes recognized spellings from unrecognized
/// ones, and the inner marks spellings that name no real note.
pub open spec fn pair_offset(a: char, b: char) -> Option<Option<int>> {
    if (a == 'b' && b == '#') || (a == 'c' && b == 'b') {
        Some(None)
    } else if (a == 'c' && b == '#') || (a == 'd' && b == 'b') {
        Some(Some(1))
    } else if (a == 'd' && b == '#') || (a == 'e' && b == 'b') {
        Some(Some(3))
    } else if (a == 'e' && b == '#') || (a == 'f' && b == 'b') {
        Some(None)
    } else if (a == 'f' && b == '#') || (a == 'g' && b == 'b') {
        Some(Some(6))
    } else if (a == 'g' && b == '#') || (a == 'a' && b == 'b') {
        Some(Some(8))
    } else if (a == 'a' && b == '#') || (a == 'b' && b == 'b') {
        Some(Some(10))
    } else {
        None
    }
}

/// The scale offset of a plain note letter.
pub open spec fn single_offset(a: char) -> Option<int> {
    if a == 'c' {
        Some(0)
    } else if a == 'd' {
        Some(2)
    } else if a == 'e' {
        Some(4)
    } else if a == 'f' {
        Some(5)
    } else if a == 'g' {
        Some(7)
    } else if a == 'a' {
        Some(9)
    } else if a == 'b' {
        Some(11)
    } else {
        None
    }
}

/// How a cleaned name starts: how many characters the note spelling takes
/// and which scale offset it denotes.
pub open spec fn note_head(c: Seq<char>) -> Option<(int, int)> {
    if c.len() >= 2 && pair_offset(c[0], c[1]) is Some {
        match pair_offset(c[0], c[1]) {
            Some(Some(o)) => Some((2, o)),
            _ => None,
        }
    } else if c.len() >= 1 {
        match single_offset(c[0]) {
            Some(o) => Some((1, o)),
            None => None,
        }
    } else {
        None
    }
}

/// The octave the trailing characters denote: their value when they are all
/// digits and small enough to be parsed, and octave 1 otherwise.
pub open spec fn octave_of(rest: Seq<char>) -> int {
    if rest.len() > 0 && crate::persist::all_digits(rest) && crate::persist::digits_val(rest)
        <= 255 {
        crate::persist::digits_val(rest)
    } else {
        1
    }
}

/// The note number a name denotes: the spelling's scale offset plus twelve
/// per octave, one octave up; names that parse beyond the MIDI range, or not
/// at all, denote nothing.
pub open spec fn note_from_str_spec(s: Seq<char>) -> Option<u8> {
    let c = cleaned(s);
    match note_head(c) {
        Some((k, off)) => {
            let total = 12 * octave_of(c.skip(k)) + off + 12;
            if total <= 127 {
                Some(total as u8)
            } else {
                None
            }
        },
        None => None,
    }
}

/// The MIDI note number a note name such as `c#4` denotes, if any.
pub fn note_from_str(name: String) -> (r: Option<u8>)
    ensures
        r == note_from_str_spec(name@),
{
    let st = name.as_str();
    let n = st.unicode_len();
    let mut c: Vec<char> = Vec::new();
    let mut i: usize = 0;
    while i < n
        invariant
            i <= n,
            n == st@.len(),
            st@ == name@,
            c@ == cleaned(name@.take(i as int)),
        decreases n - i,
    {
        proof {
            assert(name@.take(i + 1).drop_last() =~= name@.take(i as int));
            assert(name@.take(i + 1).last() == name@[i as int]);
        }
        let ch = to_lower(st.get_char(i));
        if ch != ' ' {
            c.push(ch);
        }
        i += 1;
    }
    proof {
        assert(name@.take(name@.len() as int) =~= name@);
    }

    let (consumed, offset): (usize, u32) = if c.len() >= 2 && pair_known(c[0], c[1]) {
        match pair_value(c[0], c[1]) {
            Some(o) => (2, o),
            None => {
                return None;
            },
        }
    } else if c.len() >= 1 {
        match single_value(c[0]) {
            Some(o) => (1, o),
            None => {
                return None;
            },
        }
    } else {
        return None;
    };

    // Octave digits: all characters after the spelling, when they parse.
    let mut acc: u32 = 0;
    let mut all_dig = true;
    let ghost rest = c@.skip(consumed as int);
    let mut j: usize = consumed;
    while j < c.len() && all_dig
        invariant
            consumed <= j <= c@.len(),
            rest == c@.skip(consumed as int),
            all_dig ==> crate::persist::all_digits(rest.take(j - consumed)) && acc == (
            if crate::persist::digits_val(rest.take(j - consumed)) <= 300 {
                crate::persist::digits_val(rest.take(j - consumed))
            } else {
                300int
            }),
            !all_dig ==> !crate::persist::all_digits(rest),
            acc <= 300,
        decreases c@.len() - j + (if all_dig { 1int } else { 0int }),
    {
        proof {
            assert(rest.take(j - consumed + 1).drop_last() =~= rest.take(j - consumed));
            assert(rest.take(j - consumed + 1).last() == c@[j as int]);
        }
        match crate::persist::char_val(c[j]) {
            Some(d) => {
                let next = acc * 10 + (d as u32);
                acc = if next > 300 {
                    300
                } else {
                    next
                };
                j += 1;
            },
            None => {
                proof {
                    assert(rest[j - consumed] == c@[j as int]);
                }
                all_dig = false;
            },
        }
    }
    proof {
        if all_dig {
            assert(rest.take(rest.len() as int) =~= rest);
        }
    }
    let octave: u32 = if all_dig && c.len() > consumed && acc <= 255 {
        acc
    } else {
        1
    };
    proof {
        assert(octave == octave_of(rest));
    }
    let total: u32 = 12 * octave + offset + 12;
    if total <= 127 {
        Some(total as u8)
    } else {
        None
    }
}

/// Whether two characters spell a recognized note-with-accidental pair.
fn pair_known(a: char, b: char) -> (r: bool)
    ensures
        r == (pair_offset(a, b) is Some),
{
    (a == 'b' && b == '#') || (a == 'c' && b == 'b') || (a == 'c' && b == '#') || (a == 'd' && b
        == 'b') || (a == 'd' && b == '#') || (a == 'e' && b == 'b') || (a == 'e' && b == '#') || (a
        == 'f' && b == 'b') || (a == 'f' && b == '#') || (a == 'g' && b == 'b') || (a == 'g' && b
        == '#') || (a == 'a' && b == 'b') || (a == 'a' && b == '#') || (a == 'b' && b == 'b')
}

/// The scale offset of a recognized pair, or nothing for a spelling that
/// names no real note.
fn pair_value(a: char, b: char) -> (r: Option<u32>)
    requires
        pair_offset(a, b) is Some,
    ensures
        match pair_offset(a, b) {
            Some(Some(o)) => r == Some(o as u32),
            _ => r is None,
        },
{
    if (a == 'b' && b == '#') || (a == 'c' && b == 'b') {
        None
    } else if (a == 'c' && b == '#') || (a == 'd' && b == 'b') {
        Some(1)
    } else if (a == 'd' && b == '#') || (a == 'e' && b == 'b') {
        Some(3)
    } else if (a == 'e' && b == '#') || (a == 'f' && b == 'b') {
        None
    } else if (a == 'f' && b == '#') || (a == 'g' && b == 'b') {
        Some(6)
    } else if (a == 'g' && b == '#') || (a == 'a' && b == 'b') {
        Some(8)
    } else {
        Some(10)
    }
}

/// The scale offset of a plain note letter.
fn single_value(a: char) -> (r: Option<u32>)
    ensures
        match single_offset(a) {
            Some(o) => r == Some(o as u32),
            None => r is None,
        },
{
    if a == 'c' {
        Some(0)
    } else if a == 'd' {
        Some(2)
    } else if a == 'e' {
        Some(4)
    } else if a == 'f' {
        Some(5)
    } else if a == 'g' {
        Some(7)
    } else if a == 'a' {
        Some(9)
    } else if a == 'b' {
        Some(11)
    } else {
        None
    }
}

} // verus!
