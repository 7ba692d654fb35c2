//! The tempo clock: tick-interval derivation from tempo and pulses-per-quarter
//! (PPQ), and the step/half-step boundary predicates that the playback engine
//! polls.

use vstd::prelude::*;

verus! {

/// Number of steps in a default sequence loop (sixteenth notes over one bar).
pub const N_STEPS: usize = 16;

/// The tick interval in microseconds for a tempo (beats per minute) and a
/// pulses-per-quarter-note resolution: one minute divided evenly over
/// `tempo * ppq` pulses.
pub fn interval_us(tempo: u32, ppq: u32) -> (r: u64)
    requires
        tempo >= 1,
        ppq >= 1,
    ensures
        r == 60_000_000int / ((tempo as int) * (ppq as int)),
{
    proof {
        assert((tempo as int) * (ppq as int) <= 0xffff_ffff * 0xffff_ffff && (tempo as int) * (
        ppq as int) >= 1) by (nonlinear_arith)
            requires
                1 <= tempo <= 0xffff_ffff,
                1 <= ppq <= 0xffff_ffff,
        ;
    }
    let pulses_per_minute: u64 = (tempo as u64) * (ppq as u64);
    60_000_000 / pulses_per_minute
}

/// A pulse lands on a sixteenth-note boundary (the engine's step unit) when it
/// is a multiple of a quarter of the PPQ.
pub fn on_sixteenth_note(pulse: u64, bpq: u64) -> (r: bool)
    requires
        bpq >= 4,
    ensures
        r == (pulse % (bpq / 4) == 0),
{
    pulse % (bpq / 4) == 0
}

/// A pulse lands on a thirty-second-note boundary when it is a multiple of an
/// eighth of the PPQ.
pub fn on_thirtysecond_note(pulse: u64, bpq: u64) -> (r: bool)
    requires
        bpq >= 8,
    ensures
        r == (pulse % (bpq / 8) == 0),
{
    pulse % (bpq / 8) == 0
}

/// Step boundaries coincide with sixteenth notes.
pub fn on_step(pulse: u64, bpq: u64) -> (r: bool)
    requires
        bpq >= 4,
    ensures
        r == (pulse % (bpq / 4) == 0),
{
    on_sixteenth_note(pulse, bpq)
}

/// Half-step boundaries (used for roll scheduling) are sixteenth or
/// thirty-second boundaries.
pub fn on_half_step(pulse: u64, bpq: u64) -> (r: bool)
    requires
        bpq >= 8,
    ensures
        r == (pulse % (bpq / 4) == 0 || pulse % (bpq / 8) == 0),
{
    on_sixteenth_note(pulse, bpq) || on_thirtysecond_note(pulse, bpq)
}

/// The step a pulse falls in, within a loop of `n_steps` steps.
pub fn get_step_num(pulse: u64, bpq: u64, n_steps: usize) -> (r: usize)
    requires
        bpq >= 4,
        n_steps >= 1,
    ensures
        r == (pulse / (bpq / 4)) % (n_steps as u64),
        r < n_steps,
{
    ((pulse / (bpq / 4)) % (n_steps as u64)) as usize
}

/// The textual beat label for a sixteenth-note position within a 4/4 bar:
/// sixteen labels, `1 1e 1& 1a 2 2e 2& 2a 3 3e 3& 3a 4 4e 4& 4a`, cycling.
pub open spec fn beat_label_spec(n: int) -> Seq<char> {
    let beat = digit_char_of(n / 4 + 1);
    if n % 4 == 0 {
        seq![beat]
    } else if n % 4 == 1 {
        seq![beat, 'e']
    } else if n % 4 == 2 {
        seq![beat, '&']
    } else {
        seq![beat, 'a']
    }
}

/// The digit character of a one-based beat number 1 through 4.
pub open spec fn digit_char_of(b: int) -> char {
    if b == 1 {
        '1'
    } else if b == 2 {
        '2'
    } else if b == 3 {
        '3'
    } else {
        '4'
    }
}

/// The beat label broadcast at a given step counter: the counter's position
/// in the sixteen-label bar cycle.
pub fn beat_label(step: u64) -> (r: String)
    ensures
        r@ == beat_label_spec(step as int % 16),
{
    let text: &'static str = match step % 16 {
        0 => "1",
        1 => "1e",
        2 => "1&",
        3 => "1a",
        4 => "2",
        5 => "2e",
        6 => "2&",
        7 => "2a",
        8 => "3",
        9 => "3e",
        10 => "3&",
        11 => "3a",
        12 => "4",
        13 => "4e",
        14 => "4&",
        _ => "4a",
    };
    proof {
        reveal_strlit("1");
        reveal_strlit("1e");
        reveal_strlit("1&");
        reveal_strlit("1a");
        reveal_strlit("2");
        reveal_strlit("2e");
        reveal_strlit("2&");
        reveal_strlit("2a");
        reveal_strlit("3");
        reveal_strlit("3e");
        reveal_strlit("3&");
        reveal_strlit("3a");
        reveal_strlit("4");
        reveal_strlit("4e");
        reveal_strlit("4&");
        reveal_strlit("4a");
        assert(text@ =~= beat_label_spec(step as int % 16));
    }
    text.to_owned()
}

/// The cadence of the textual beat label: one sixteenth note — a quarter of a
/// beat — at the given tempo, in microseconds.
pub fn beat_label_interval_us(tempo: u32) -> (r: u64)
    requires
        tempo >= 1,
    ensures
        r == 15_000_000int / tempo as int,
{
    15_000_000 / (tempo as u64)
}

/// The cadence of the binary sync tick: one thirty-second note — an eighth of
/// a beat — at the given tempo, in microseconds.
pub fn sync_tick_interval_us(tempo: u32) -> (r: u64)
    requires
        tempo >= 1,
    ensures
        r == 7_500_000int / tempo as int,
{
    7_500_000 / (tempo as u64)
}

/// The tick counter after one pulse: it increments, wrapping rather than
/// overflowing, and resets to zero while nothing is playing or queued so that
/// the next play starts cleanly on step zero.
pub fn next_tick(tick: u64, playing_empty: bool, queued_empty: bool) -> (r: u64)
    ensures
        playing_empty && queued_empty ==> r == 0,
        !(playing_empty && queued_empty) ==> r == (if tick == u64::MAX {
            0u64
        } else {
            (tick + 1) as u64
        }),
{
    if playing_empty && queued_empty {
        0
    } else if tick == u64::MAX {
        0
    } else {
        tick + 1
    }
}

} // verus!
