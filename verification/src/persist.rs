//! The on-disk form of sequences and projects: a fixed-width decimal text
//! format, with a decoder proved to recover exactly what the encoder wrote.

use vstd::prelude::*;

use crate::types::{
    MidiChannel, NoteDuration, NoteSlot, Sequence, Step, TrackerCmd, step_models, sequence_models,
};

verus! {

/// Ten to the `w`-th power.
pub open spec fn pow10(w: nat) -> int
    decreases w,
{
    if w == 0 {
        1
    } else {
        10 * pow10((w - 1) as nat)
    }
}

/// The decimal digit character for a value 0 through 9.
pub open spec fn digit_char_spec(d: int) -> char {
    if d == 0 {
        '0'
    } else if d == 1 {
        '1'
    } else if d == 2 {
        '2'
    } else if d == 3 {
        '3'
    } else if d == 4 {
        '4'
    } else if d == 5 {
        '5'
    } else if d == 6 {
        '6'
    } else if d == 7 {
        '7'
    } else if d == 8 {
        '8'
    } else {
        '9'
    }
}

/// The value of a decimal digit character, or 10 for any other character.
pub open spec fn char_val_spec(c: char) -> int {
    if c == '0' {
        0
    } else if c == '1' {
        1
    } else if c == '2' {
        2
    } else if c == '3' {
        3
    } else if c == '4' {
        4
    } else if c == '5' {
        5
    } else if c == '6' {
        6
    } else if c == '7' {
        7
    } else if c == '8' {
        8
    } else if c == '9' {
        9
    } else {
        10
    }
}

/// A value written as exactly `w` decimal digits, most significant first.
pub open spec fn enc_dec(v: int, w: nat) -> Seq<char>
    decreases w,
{
    if w == 0 {
        Seq::empty()
    } else {
        enc_dec(v / 10, (w - 1) as nat).push(digit_char_spec(v % 10))
    }
}

/// The value a run of digit characters denotes, most significant first.
pub open spec fn digits_val(s: Seq<char>) -> int
    decreases s.len(),
{
    if s.len() == 0 {
        0
    } else {
        digits_val(s.drop_last()) * 10 + char_val_spec(s.last())
    }
}

/// Every character of the run is a decimal digit.
pub open spec fn all_digits(s: Seq<char>) -> bool {
    forall|k: int| 0 <= k < s.len() ==> char_val_spec(#[trigger] s[k]) < 10
}

/// A fixed-width encoding writes `w` digits and reads back as the value it
/// was written from.
pub proof fn lemma_enc_dec(v: int, w: nat)
    requires
        0 <= v < pow10(w),
    ensures
        enc_dec(v, w).len() == w,
        all_digits(enc_dec(v, w)),
        digits_val(enc_dec(v, w)) == v,
    decreases w,
{
    if w > 0 {
        assert(pow10(w) == 10 * pow10((w - 1) as nat));
        vstd::arithmetic::div_mod::lemma_multiply_divide_lt(v, 10, pow10((w - 1) as nat));
        lemma_enc_dec(v / 10, (w - 1) as nat);
        let e = enc_dec(v, w);
        assert(e.drop_last() =~= enc_dec(v / 10, (w - 1) as nat));
        assert(0 <= v % 10 < 10);
        assert(char_val_spec(digit_char_spec(v % 10)) == v % 10);
        assert forall|k: int| 0 <= k < e.len() implies char_val_spec(#[trigger] e[k]) < 10 by {
            if k < e.len() - 1 {
                assert(e[k] == enc_dec(v / 10, (w - 1) as nat)[k]);
            }
        }
    }
}

/// An encoding is always exactly `w` digit characters, whatever the value.
pub proof fn lemma_enc_dec_len(v: int, w: nat)
    ensures
        enc_dec(v, w).len() == w,
        all_digits(enc_dec(v, w)),
    decreases w,
{
    if w > 0 {
        lemma_enc_dec_len(v / 10, (w - 1) as nat);
        let e = enc_dec(v, w);
        assert forall|k: int| 0 <= k < e.len() implies char_val_spec(#[trigger] e[k]) < 10 by {
            if k < e.len() - 1 {
                assert(e[k] == enc_dec(v / 10, (w - 1) as nat)[k]);
            }
        }
    }
}

/// The text `t` stands at position `pos` of `s`.
pub open spec fn starts_at(s: Seq<char>, pos: int, t: Seq<char>) -> bool {
    0 <= pos && pos + t.len() <= s.len() && s.subrange(pos, pos + t.len()) == t
}

/// The decimal digit character for a value 0 through 9.
pub fn digit_char(d: u8) -> (r: char)
    requires
        d < 10,
    ensures
        r == digit_char_spec(d as int),
{
    match d {
        0 => '0',
        1 => '1',
        2 => '2',
        3 => '3',
        4 => '4',
        5 => '5',
        6 => '6',
        7 => '7',
        8 => '8',
        _ => '9',
    }
}

/// The value of a decimal digit character, if it is one.
pub fn char_val(c: char) -> (r: Option<u8>)
    ensures
        char_val_spec(c) < 10 ==> r == Some((char_val_spec(c)) as u8),
        char_val_spec(c) >= 10 ==> r is None,
{
    match c {
        '0' => Some(0),
        '1' => Some(1),
        '2' => Some(2),
        '3' => Some(3),
        '4' => Some(4),
        '5' => Some(5),
        '6' => Some(6),
        '7' => Some(7),
        '8' => Some(8),
        '9' => Some(9),
        _ => None,
    }
}

/// Append a value as exactly `w` decimal digits, most significant first.
pub fn push_fixed(out: &mut Vec<char>, v: u64, w: usize)
    ensures
        final(out)@ == old(out)@ + enc_dec(v as int, w as nat),
    decreases w,
{
    if w == 0 {
        proof {
            assert(out@ =~= out@ + enc_dec(v as int, 0));
        }
    } else {
        push_fixed(out, v / 10, w - 1);
        out.push(digit_char((v % 10) as u8));
        proof {
            assert(out@ =~= old(out)@ + enc_dec(v as int, w as nat));
        }
    }
}

/// Read exactly `w` decimal digits at `pos` as one value.
pub fn parse_fixed(s: &Vec<char>, pos: usize, w: usize) -> (r: Option<(u64, usize)>)
    requires
        w <= 20,
    ensures
        r matches Some(p) ==> {
            &&& pos + w <= s@.len()
            &&& all_digits(s@.subrange(pos as int, pos + w))
            &&& digits_val(s@.subrange(pos as int, pos + w)) <= u64::MAX
            &&& p.0 == digits_val(s@.subrange(pos as int, pos + w))
            &&& p.1 == pos + w
        },
        r is None ==> !(pos + w <= s@.len() && all_digits(s@.subrange(pos as int, pos + w))
            && digits_val(s@.subrange(pos as int, pos + w)) <= u64::MAX),
{
    let n = s.len();
    if n < w || pos > n - w {
        return None;
    }
    proof {
        lemma_pow10_monotone(0, 20);
    }
    let mut acc: u128 = 0;
    let mut k: usize = 0;
    while k < w
        invariant
            k <= w,
            w <= 20,
            n == s@.len(),
            pos + w <= n,
            all_digits(s@.subrange(pos as int, pos + k)),
            acc == digits_val(s@.subrange(pos as int, pos + k)),
            acc < pow10(k as nat),
            pow10(k as nat) <= pow10(20),
        decreases w - k,
    {
        proof {
            assert(pow10(20) == 100000000000000000000) by {
                reveal_with_fuel(pow10, 21);
            }
            lemma_pow10_monotone(k as nat, 20);
            lemma_pow10_monotone((k + 1) as nat, 20);
        }
        proof {
            assert(pos + k < s@.len());
        }
        let c = s[pos + k];
        let d = match char_val(c) {
            Some(d) => d,
            None => {
                proof {
                    assert(s@.subrange(pos as int, pos + w)[k as int] == c);
                }
                return None;
            },
        };
        proof {
            let prefix = s@.subrange(pos as int, pos + k);
            let prefix2 = s@.subrange(pos as int, pos + k + 1);
            assert(prefix2.drop_last() =~= prefix);
            assert(prefix2.last() == c);
        }
        acc = acc * 10 + (d as u128);
        k += 1;
    }
    proof {
        assert(s@.subrange(pos as int, pos + w) == s@.subrange(pos as int, pos + k));
    }
    if acc > u64::MAX as u128 {
        return None;
    }
    Some((acc as u64, pos + w))
}

/// A count or length written as twenty digits.
pub open spec fn enc_u(v: int) -> Seq<char> {
    enc_dec(v, 20)
}

/// A byte-sized value written as three digits.
pub open spec fn enc_b(v: int) -> Seq<char> {
    enc_dec(v, 3)
}

/// A string written as its length followed by its characters.
pub open spec fn enc_str_spec(t: Seq<char>) -> Seq<char> {
    enc_u(t.len() as int) + t
}

/// The tag character of a note duration.
pub open spec fn dur_tag(d: NoteDuration) -> char {
    match d {
        NoteDuration::Wn(_) => 'W',
        NoteDuration::Hn(_) => 'H',
        NoteDuration::Qn(_) => 'Q',
        NoteDuration::En(_) => 'E',
        NoteDuration::Sn(_) => 'S',
        NoteDuration::Tn(_) => 'T',
        NoteDuration::S4n(_) => 'F',
    }
}

/// The multiplier of a note duration.
pub open spec fn dur_mul(d: NoteDuration) -> u8 {
    match d {
        NoteDuration::Wn(m) => m,
        NoteDuration::Hn(m) => m,
        NoteDuration::Qn(m) => m,
        NoteDuration::En(m) => m,
        NoteDuration::Sn(m) => m,
        NoteDuration::Tn(m) => m,
        NoteDuration::S4n(m) => m,
    }
}

/// A note duration written as its tag and multiplier.
pub open spec fn enc_dur_spec(d: NoteDuration) -> Seq<char> {
    seq![dur_tag(d)] + enc_b(dur_mul(d) as int)
}

/// An optional velocity: `v` and a value, or a bare `n`.
pub open spec fn enc_vel_spec(v: Option<u8>) -> Seq<char> {
    match v {
        Some(x) => seq!['v'] + enc_b(x as int),
        None => seq!['n'],
    }
}

/// One note slot: note number, velocity, duration.
pub open spec fn enc_note_spec(n: NoteSlot) -> Seq<char> {
    enc_b(n.note as int) + enc_vel_spec(n.velocity) + enc_dur_spec(n.duration)
}

/// A list of note slots, in order.
pub open spec fn enc_notes_spec(s: Seq<NoteSlot>) -> Seq<char>
    decreases s.len(),
{
    if s.len() == 0 {
        Seq::empty()
    } else {
        enc_notes_spec(s.drop_last()) + enc_note_spec(s.last())
    }
}

/// A list of chord offsets, each shifted into 0..=255.
pub open spec fn enc_offs_spec(s: Seq<i8>) -> Seq<char>
    decreases s.len(),
{
    if s.len() == 0 {
        Seq::empty()
    } else {
        enc_offs_spec(s.drop_last()) + enc_b(s.last() as int + 128)
    }
}

/// A tracker command: a tag character and its payload.
pub open spec fn enc_cmd_spec(c: TrackerCmd) -> Seq<char> {
    match c {
        TrackerCmd::NoCmd => seq!['-'],
        TrackerCmd::Chord { chord } => seq!['c'] + enc_u(chord@.len() as int) + enc_offs_spec(
            chord@,
        ),
        TrackerCmd::Roll { times } => seq!['r'] + enc_b(times as int),
        TrackerCmd::Repeat { times } => seq!['p'] + enc_b(times as int),
        TrackerCmd::HoldFor { notes } => seq!['h'] + enc_b(notes as int),
        TrackerCmd::Swing { amt } => seq!['s'] + enc_b(amt as int),
        TrackerCmd::Panic => seq!['!'],
        TrackerCmd::MidiCmd { cc_param, arg } => seq!['m'] + enc_b(cc_param as int) + enc_b(
            arg as int,
        ),
    }
}

/// One step: its note count, its notes, and its two command slots.
pub open spec fn enc_step_spec(st: Step) -> Seq<char> {
    enc_u(st.notes@.len() as int) + enc_notes_spec(st.notes@) + enc_cmd_spec(st.cmd_a)
        + enc_cmd_spec(st.cmd_b)
}

/// A list of steps, in order.
pub open spec fn enc_steps_spec(s: Seq<Step>) -> Seq<char>
    decreases s.len(),
{
    if s.len() == 0 {
        Seq::empty()
    } else {
        enc_steps_spec(s.drop_last()) + enc_step_spec(s.last())
    }
}

/// A whole sequence: name, device, channel index, step count and steps.
pub open spec fn enc_seq_spec(sq: Sequence) -> Seq<char> {
    enc_str_spec(sq.name@) + enc_str_spec(sq.midi_dev@) + enc_b(
        crate::types::channel_index_spec(sq.channel),
    ) + enc_u(sq.steps@.len() as int) + enc_steps_spec(sq.steps@)
}

/// A whole project: its sequence count and each sequence in map order.
pub open spec fn enc_proj_spec(s: Seq<Sequence>) -> Seq<char>
    decreases s.len(),
{
    if s.len() == 0 {
        Seq::empty()
    } else {
        enc_proj_spec(s.drop_last()) + enc_seq_spec(s.last())
    }
}

/// Append a string field: its length, then its characters.
pub fn push_str_field(out: &mut Vec<char>, t: &String)
    ensures
        final(out)@ == old(out)@ + enc_str_spec(t@),
{
    let st = t.as_str();
    let n = st.unicode_len();
    push_fixed(out, n as u64, 20);
    let mut i: usize = 0;
    while i < n
        invariant
            i <= n,
            n == st@.len(),
            st@ == t@,
            out@ == old(out)@ + enc_u(t@.len() as int) + t@.take(i as int),
        decreases n - i,
    {
        let c = st.get_char(i);
        out.push(c);
        proof {
            assert(t@.take(i + 1) =~= t@.take(i as int).push(t@[i as int]));
            assert(out@ =~= old(out)@ + enc_u(t@.len() as int) + t@.take(i + 1));
        }
        i += 1;
    }
    proof {
        assert(t@.take(t@.len() as int) =~= t@);
        assert(out@ =~= old(out)@ + enc_str_spec(t@));
    }
}

/// Append a note duration.
pub fn push_dur(out: &mut Vec<char>, d: NoteDuration)
    ensures
        final(out)@ == old(out)@ + enc_dur_spec(d),
{
    let (tag, m) = match d {
        NoteDuration::Wn(m) => ('W', m),
        NoteDuration::Hn(m) => ('H', m),
        NoteDuration::Qn(m) => ('Q', m),
        NoteDuration::En(m) => ('E', m),
        NoteDuration::Sn(m) => ('S', m),
        NoteDuration::Tn(m) => ('T', m),
        NoteDuration::S4n(m) => ('F', m),
    };
    out.push(tag);
    push_fixed(out, m as u64, 3);
    proof {
        assert(out@ =~= old(out)@ + enc_dur_spec(d));
    }
}

/// Append one note slot.
pub fn push_note(out: &mut Vec<char>, n: &NoteSlot)
    ensures
        final(out)@ == old(out)@ + enc_note_spec(*n),
{
    push_fixed(out, n.note as u64, 3);
    match n.velocity {
        Some(v) => {
            out.push('v');
            push_fixed(out, v as u64, 3);
        },
        None => {
            out.push('n');
        },
    }
    push_dur(out, n.duration);
    proof {
        assert(out@ =~= old(out)@ + enc_note_spec(*n));
    }
}

/// Append one tracker command.
pub fn push_cmd(out: &mut Vec<char>, c: &TrackerCmd)
    ensures
        final(out)@ == old(out)@ + enc_cmd_spec(*c),
{
    match c {
        TrackerCmd::NoCmd => {
            out.push('-');
            proof {
                assert(out@ =~= old(out)@ + enc_cmd_spec(*c));
            }
        },
        TrackerCmd::Chord { chord } => {
            out.push('c');
            push_fixed(out, chord.len() as u64, 20);
            let ghost base = out@;
            let mut i: usize = 0;
            while i < chord.len()
                invariant
                    i <= chord@.len(),
                    out@ == base + enc_offs_spec(chord@.take(i as int)),
                decreases chord@.len() - i,
            {
                proof {
                    assert(chord@.take(i + 1).drop_last() =~= chord@.take(i as int));
                    assert(chord@.take(i + 1).last() == chord@[i as int]);
                }
                let o = chord[i];
                let shifted: u64 = ((o as i64) + 128) as u64;
                push_fixed(out, shifted, 3);
                i += 1;
            }
            proof {
                assert(chord@.take(chord@.len() as int) =~= chord@);
                assert(out@ =~= old(out)@ + enc_cmd_spec(*c));
            }
        },
        TrackerCmd::Roll { times } => {
            out.push('r');
            push_fixed(out, *times as u64, 3);
            proof {
                assert(out@ =~= old(out)@ + enc_cmd_spec(*c));
            }
        },
        TrackerCmd::Repeat { times } => {
            out.push('p');
            push_fixed(out, *times as u64, 3);
            proof {
                assert(out@ =~= old(out)@ + enc_cmd_spec(*c));
            }
        },
        TrackerCmd::HoldFor { notes } => {
            out.push('h');
            push_fixed(out, *notes as u64, 3);
            proof {
                assert(out@ =~= old(out)@ + enc_cmd_spec(*c));
            }
        },
        TrackerCmd::Swing { amt } => {
            out.push('s');
            push_fixed(out, *amt as u64, 3);
            proof {
                assert(out@ =~= old(out)@ + enc_cmd_spec(*c));
            }
        },
        TrackerCmd::Panic => {
            out.push('!');
            proof {
                assert(out@ =~= old(out)@ + enc_cmd_spec(*c));
            }
        },
        TrackerCmd::MidiCmd { cc_param, arg } => {
            out.push('m');
            push_fixed(out, *cc_param as u64, 3);
            push_fixed(out, *arg as u64, 3);
            proof {
                assert(out@ =~= old(out)@ + enc_cmd_spec(*c));
            }
        },
    }
}

/// Append one step.
pub fn push_step(out: &mut Vec<char>, st: &Step)
    ensures
        final(out)@ == old(out)@ + enc_step_spec(*st),
{
    push_fixed(out, st.notes.len() as u64, 20);
    let ghost base = out@;
    let mut i: usize = 0;
    while i < st.notes.len()
        invariant
            i <= st.notes@.len(),
            out@ == base + enc_notes_spec(st.notes@.take(i as int)),
        decreases st.notes@.len() - i,
    {
        proof {
            assert(st.notes@.take(i + 1).drop_last() =~= st.notes@.take(i as int));
            assert(st.notes@.take(i + 1).last() == st.notes@[i as int]);
        }
        let n = st.notes[i];
        push_note(out, &n);
        i += 1;
    }
    proof {
        assert(st.notes@.take(st.notes@.len() as int) =~= st.notes@);
    }
    push_cmd(out, &st.cmd_a);
    push_cmd(out, &st.cmd_b);
    proof {
        assert(out@ =~= old(out)@ + enc_step_spec(*st));
    }
}

/// The text a sequence is saved as.
pub fn encode_sequence_chars(sq: &Sequence) -> (out: Vec<char>)
    ensures
        out@ == enc_seq_spec(*sq),
{
    let mut out: Vec<char> = Vec::new();
    push_str_field(&mut out, &sq.name);
    push_str_field(&mut out, &sq.midi_dev);
    push_fixed(&mut out, sq.channel.index() as u64, 3);
    push_fixed(&mut out, sq.steps.len() as u64, 20);
    let ghost base = out@;
    let mut i: usize = 0;
    while i < sq.steps.len()
        invariant
            i <= sq.steps@.len(),
            out@ == base + enc_steps_spec(sq.steps@.take(i as int)),
        decreases sq.steps@.len() - i,
    {
        proof {
            assert(sq.steps@.take(i + 1).drop_last() =~= sq.steps@.take(i as int));
            assert(sq.steps@.take(i + 1).last() == sq.steps@[i as int]);
        }
        push_step(&mut out, &sq.steps[i]);
        i += 1;
    }
    proof {
        assert(sq.steps@.take(sq.steps@.len() as int) =~= sq.steps@);
        assert(out@ =~= enc_seq_spec(*sq));
    }
    out
}

/// The ghost image of a decoded tracker command.
pub enum CmdM {
    MNone,
    MChord(Seq<i8>),
    MRoll(u8),
    MRepeat(u8),
    MHold(u8),
    MSwing(u8),
    MPanic,
    MCc(u8, u8),
}

/// The ghost image of a decoded step.
pub struct StepM {
    pub notes: Seq<NoteSlot>,
    pub cmd_a: CmdM,
    pub cmd_b: CmdM,
}

/// The ghost image of a decoded sequence.
pub struct SeqM {
    pub name: Seq<char>,
    pub midi_dev: Seq<char>,
    pub channel: MidiChannel,
    pub steps: Seq<StepM>,
}

/// A command carries the same payload as its ghost image.
pub open spec fn cmd_is_m(c: TrackerCmd, m: CmdM) -> bool {
    match (c, m) {
        (TrackerCmd::NoCmd, CmdM::MNone) => true,
        (TrackerCmd::Chord { chord }, CmdM::MChord(s)) => chord@ == s,
        (TrackerCmd::Roll { times }, CmdM::MRoll(t)) => times == t,
        (TrackerCmd::Repeat { times }, CmdM::MRepeat(t)) => times == t,
        (TrackerCmd::HoldFor { notes }, CmdM::MHold(t)) => notes == t,
        (TrackerCmd::Swing { amt }, CmdM::MSwing(t)) => amt == t,
        (TrackerCmd::Panic, CmdM::MPanic) => true,
        (TrackerCmd::MidiCmd { cc_param, arg }, CmdM::MCc(p, a)) => cc_param == p && arg == a,
        _ => false,
    }
}

/// A step carries the same content as its ghost image.
pub open spec fn step_is_m(st: Step, m: StepM) -> bool {
    st.notes@ == m.notes && cmd_is_m(st.cmd_a, m.cmd_a) && cmd_is_m(st.cmd_b, m.cmd_b)
}

/// A sequence carries the same content as its ghost image.
pub open spec fn seq_is_m(sq: Sequence, m: SeqM) -> bool {
    &&& sq.name@ == m.name
    &&& sq.midi_dev@ == m.midi_dev
    &&& sq.channel == m.channel
    &&& sq.steps@.len() == m.steps.len()
    &&& forall|i: int| 0 <= i < m.steps.len() ==> step_is_m(#[trigger] sq.steps@[i], m.steps[i])
}

/// Read a fixed run of digits, as the decoder does.
pub open spec fn dec_fixed(s: Seq<char>, pos: int, w: nat) -> Option<(int, int)> {
    if 0 <= pos && pos + w <= s.len() && all_digits(s.subrange(pos, pos + w)) && digits_val(
        s.subrange(pos, pos + w),
    ) <= u64::MAX {
        Some((digits_val(s.subrange(pos, pos + w)), pos + w))
    } else {
        None
    }
}

/// Read a three-digit byte value.
pub open spec fn dec_b(s: Seq<char>, pos: int) -> Option<(u8, int)> {
    match dec_fixed(s, pos, 3) {
        Some((v, p)) => if v <= 255 {
            Some((v as u8, p))
        } else {
            None
        },
        None => None,
    }
}

/// Read a twenty-digit count that must fit the machine.
pub open spec fn dec_u(s: Seq<char>, pos: int) -> Option<(int, int)> {
    match dec_fixed(s, pos, 20) {
        Some((v, p)) => if v <= usize::MAX {
            Some((v, p))
        } else {
            None
        },
        None => None,
    }
}

/// Read a length-prefixed string field.
pub open spec fn dec_str(s: Seq<char>, pos: int) -> Option<(Seq<char>, int)> {
    match dec_u(s, pos) {
        Some((n, p)) => if p + n <= s.len() {
            Some((s.subrange(p, p + n), p + n))
        } else {
            None
        },
        None => None,
    }
}

/// Read a tagged note duration.
pub open spec fn dec_dur(s: Seq<char>, pos: int) -> Option<(NoteDuration, int)> {
    if 0 <= pos < s.len() {
        let tag = s[pos];
        match dec_b(s, pos + 1) {
            Some((m, p)) => if tag == 'W' {
                Some((NoteDuration::Wn(m), p))
            } else if tag == 'H' {
                Some((NoteDuration::Hn(m), p))
            } else if tag == 'Q' {
                Some((NoteDuration::Qn(m), p))
            } else if tag == 'E' {
                Some((NoteDuration::En(m), p))
            } else if tag == 'S' {
                Some((NoteDuration::Sn(m), p))
            } else if tag == 'T' {
                Some((NoteDuration::Tn(m), p))
            } else if tag == 'F' {
                Some((NoteDuration::S4n(m), p))
            } else {
                None
            },
            None => None,
        }
    } else {
        None
    }
}

/// Read an optional velocity.
pub open spec fn dec_vel(s: Seq<char>, pos: int) -> Option<(Option<u8>, int)> {
    if 0 <= pos < s.len() {
        if s[pos] == 'n' {
            Some((None, pos + 1))
        } else if s[pos] == 'v' {
            match dec_b(s, pos + 1) {
                Some((v, p)) => Some((Some(v), p)),
                None => None,
            }
        } else {
            None
        }
    } else {
        None
    }
}

/// Read one note slot; a note number beyond the MIDI range is refused.
pub open spec fn dec_note(s: Seq<char>, pos: int) -> Option<(NoteSlot, int)> {
    match dec_b(s, pos) {
        Some((note, p1)) => if note <= 127 {
            match dec_vel(s, p1) {
                Some((vel, p2)) => match dec_dur(s, p2) {
                    Some((dur, p3)) => Some(
                        (NoteSlot { note, velocity: vel, duration: dur }, p3),
                    ),
                    None => None,
                },
                None => None,
            }
        } else {
            None
        },
        None => None,
    }
}

/// Read a counted list of note slots.
pub open spec fn dec_notes(s: Seq<char>, pos: int, count: nat) -> Option<(Seq<NoteSlot>, int)>
    decreases count,
{
    if count == 0 {
        Some((Seq::empty(), pos))
    } else {
        match dec_note(s, pos) {
            Some((n, p1)) => match dec_notes(s, p1, (count - 1) as nat) {
                Some((rest, p2)) => Some((seq![n] + rest, p2)),
                None => None,
            },
            None => None,
        }
    }
}

/// Read a counted list of chord offsets.
pub open spec fn dec_offs(s: Seq<char>, pos: int, count: nat) -> Option<(Seq<i8>, int)>
    decreases count,
{
    if count == 0 {
        Some((Seq::empty(), pos))
    } else {
        match dec_b(s, pos) {
            Some((v, p1)) => match dec_offs(s, p1, (count - 1) as nat) {
                Some((rest, p2)) => Some((seq![(v as int - 128) as i8] + rest, p2)),
                None => None,
            },
            None => None,
        }
    }
}

/// Read one tagged tracker command.
pub open spec fn dec_cmd(s: Seq<char>, pos: int) -> Option<(CmdM, int)> {
    if 0 <= pos < s.len() {
        let tag = s[pos];
        if tag == '-' {
            Some((CmdM::MNone, pos + 1))
        } else if tag == '!' {
            Some((CmdM::MPanic, pos + 1))
        } else if tag == 'c' {
            match dec_u(s, pos + 1) {
                Some((n, p1)) => match dec_offs(s, p1, n as nat) {
                    Some((offs, p2)) => Some((CmdM::MChord(offs), p2)),
                    None => None,
                },
                None => None,
            }
        } else if tag == 'r' {
            match dec_b(s, pos + 1) {
                Some((t, p)) => Some((CmdM::MRoll(t), p)),
                None => None,
            }
        } else if tag == 'p' {
            match dec_b(s, pos + 1) {
                Some((t, p)) => Some((CmdM::MRepeat(t), p)),
                None => None,
            }
        } else if tag == 'h' {
            match dec_b(s, pos + 1) {
                Some((t, p)) => Some((CmdM::MHold(t), p)),
                None => None,
            }
        } else if tag == 's' {
            match dec_b(s, pos + 1) {
                Some((t, p)) => Some((CmdM::MSwing(t), p)),
                None => None,
            }
        } else if tag == 'm' {
            match dec_b(s, pos + 1) {
                Some((p1v, p1)) => match dec_b(s, p1) {
                    Some((p2v, p2)) => Some((CmdM::MCc(p1v, p2v), p2)),
                    None => None,
                },
                None => None,
            }
        } else {
            None
        }
    } else {
        None
    }
}

/// Read one step.
pub open spec fn dec_step(s: Seq<char>, pos: int) -> Option<(StepM, int)> {
    match dec_u(s, pos) {
        Some((n, p1)) => match dec_notes(s, p1, n as nat) {
            Some((notes, p2)) => match dec_cmd(s, p2) {
                Some((a, p3)) => match dec_cmd(s, p3) {
                    Some((b, p4)) => Some((StepM { notes, cmd_a: a, cmd_b: b }, p4)),
                    None => None,
                },
                None => None,
            },
            None => None,
        },
        None => None,
    }
}

/// Read a counted list of steps.
pub open spec fn dec_steps(s: Seq<char>, pos: int, count: nat) -> Option<(Seq<StepM>, int)>
    decreases count,
{
    if count == 0 {
        Some((Seq::empty(), pos))
    } else {
        match dec_step(s, pos) {
            Some((st, p1)) => match dec_steps(s, p1, (count - 1) as nat) {
                Some((rest, p2)) => Some((seq![st] + rest, p2)),
                None => None,
            },
            None => None,
        }
    }
}

/// Read one whole sequence; a channel index beyond 15 or an empty loop is
/// refused.
pub open spec fn dec_seq(s: Seq<char>, pos: int) -> Option<(SeqM, int)> {
    match dec_str(s, pos) {
        Some((name, p1)) => match dec_str(s, p1) {
            Some((dev, p2)) => match dec_b(s, p2) {
                Some((ch, p3)) => if ch <= 15 {
                    match dec_u(s, p3) {
                        Some((count, p4)) => if count >= 1 {
                            match dec_steps(s, p4, count as nat) {
                                Some((steps, p5)) => Some(
                                    (
                                        SeqM {
                                            name,
                                            midi_dev: dev,
                                            channel: crate::types::channel_from_int_spec(
                                                ch as int + 1,
                                            ),
                                            steps,
                                        },
                                        p5,
                                    ),
                                ),
                                None => None,
                            }
                        } else {
                            None
                        },
                        None => None,
                    }
                } else {
                    None
                },
                None => None,
            },
            None => None,
        },
        None => None,
    }
}

/// A text standing at a position splits into its two halves.
pub proof fn lemma_starts_at_split(s: Seq<char>, pos: int, a: Seq<char>, b: Seq<char>)
    requires
        starts_at(s, pos, a + b),
    ensures
        starts_at(s, pos, a),
        starts_at(s, pos + a.len(), b),
{
    assert forall|k: int| 0 <= k < a.len() implies s[pos + k] == a[k] by {
        assert(s.subrange(pos, pos + (a + b).len())[k] == (a + b)[k]);
    }
    assert(s.subrange(pos, pos + a.len()) =~= a);
    assert forall|k: int| 0 <= k < b.len() implies s[pos + a.len() + k] == b[k] by {
        assert(s.subrange(pos, pos + (a + b).len())[a.len() + k] == (a + b)[a.len() + k]);
    }
    assert(s.subrange(pos + a.len(), pos + a.len() + b.len()) =~= b);
}

/// A single character standing at a position is that character of the text.
pub proof fn lemma_starts_at_char(s: Seq<char>, pos: int, c: char)
    requires
        starts_at(s, pos, seq![c]),
    ensures
        0 <= pos < s.len(),
        s[pos] == c,
{
    assert(s[pos] == s.subrange(pos, pos + 1)[0]);
    assert(seq![c][0] == c);
}

/// Decoding a fixed-width encoding yields the encoded value.
pub proof fn lemma_dec_fixed_enc(s: Seq<char>, pos: int, v: int, w: nat)
    requires
        0 <= v < pow10(w),
        v <= u64::MAX,
        starts_at(s, pos, enc_dec(v, w)),
    ensures
        dec_fixed(s, pos, w) == Some((v, pos + w)),
{
    lemma_enc_dec(v, w);
    assert(s.subrange(pos, pos + w as int) == enc_dec(v, w));
}

/// Decoding an encoded byte value yields it.
pub proof fn lemma_dec_b_enc(s: Seq<char>, pos: int, v: u8)
    requires
        starts_at(s, pos, enc_b(v as int)),
    ensures
        dec_b(s, pos) == Some((v, pos + 3)),
{
    assert(pow10(3) == 1000) by {
        reveal_with_fuel(pow10, 4);
    }
    lemma_dec_fixed_enc(s, pos, v as int, 3);
}

/// Decoding an encoded count yields it.
pub proof fn lemma_dec_u_enc(s: Seq<char>, pos: int, v: int)
    requires
        0 <= v <= usize::MAX,
        starts_at(s, pos, enc_u(v)),
    ensures
        dec_u(s, pos) == Some((v, pos + 20)),
{
    assert(pow10(20) == 100000000000000000000) by {
        reveal_with_fuel(pow10, 21);
    }
    lemma_dec_fixed_enc(s, pos, v, 20);
}

/// Decoding an encoded string field yields its characters.
pub proof fn lemma_dec_str_enc(s: Seq<char>, pos: int, t: Seq<char>)
    requires
        t.len() <= usize::MAX,
        starts_at(s, pos, enc_str_spec(t)),
    ensures
        dec_str(s, pos) == Some((t, pos + 20 + t.len())),
{
    lemma_starts_at_split(s, pos, enc_u(t.len() as int), t);
    assert(enc_u(t.len() as int).len() == 20) by {
        assert(pow10(20) == 100000000000000000000) by {
            reveal_with_fuel(pow10, 21);
        }
        lemma_enc_dec(t.len() as int, 20);
    }
    lemma_dec_u_enc(s, pos, t.len() as int);
    assert(s.subrange(pos + 20, pos + 20 + t.len()) == t);
}

/// Decoding an encoded duration yields it.
pub proof fn lemma_dec_dur_enc(s: Seq<char>, pos: int, d: NoteDuration)
    requires
        starts_at(s, pos, enc_dur_spec(d)),
    ensures
        dec_dur(s, pos) == Some((d, pos + 4)),
{
    lemma_enc_dec_len(dur_mul(d) as int, 3);
    lemma_starts_at_split(s, pos, seq![dur_tag(d)], enc_b(dur_mul(d) as int));
    lemma_starts_at_char(s, pos, dur_tag(d));
    lemma_dec_b_enc(s, pos + 1, dur_mul(d));
}

/// Decoding an encoded velocity yields it.
pub proof fn lemma_dec_vel_enc(s: Seq<char>, pos: int, v: Option<u8>)
    requires
        starts_at(s, pos, enc_vel_spec(v)),
    ensures
        dec_vel(s, pos) == Some((v, pos + enc_vel_spec(v).len())),
{
    match v {
        Some(x) => {
            lemma_enc_dec_len(x as int, 3);
            lemma_starts_at_split(s, pos, seq!['v'], enc_b(x as int));
            lemma_starts_at_char(s, pos, 'v');
            lemma_dec_b_enc(s, pos + 1, x);
        },
        None => {
            lemma_starts_at_char(s, pos, 'n');
        },
    }
}

/// Decoding an encoded note slot yields it.
pub proof fn lemma_dec_note_enc(s: Seq<char>, pos: int, n: NoteSlot)
    requires
        n.note <= 127,
        starts_at(s, pos, enc_note_spec(n)),
    ensures
        dec_note(s, pos) == Some((n, pos + enc_note_spec(n).len())),
{
    lemma_enc_dec_len(n.note as int, 3);
    lemma_enc_dec_len(dur_mul(n.duration) as int, 3);
    assert(enc_dur_spec(n.duration).len() == 4);
    match n.velocity {
        Some(x) => {
            lemma_enc_dec_len(x as int, 3);
            assert(enc_vel_spec(n.velocity).len() == 4);
        },
        None => {
            assert(enc_vel_spec(n.velocity).len() == 1);
        },
    }
    assert(enc_note_spec(n) =~= enc_b(n.note as int) + (enc_vel_spec(n.velocity) + enc_dur_spec(
        n.duration,
    )));
    lemma_starts_at_split(s, pos, enc_b(n.note as int), enc_vel_spec(n.velocity) + enc_dur_spec(
        n.duration,
    ));
    lemma_dec_b_enc(s, pos, n.note);
    lemma_starts_at_split(s, pos + 3, enc_vel_spec(n.velocity), enc_dur_spec(n.duration));
    lemma_dec_vel_enc(s, pos + 3, n.velocity);
    lemma_dec_dur_enc(s, pos + 3 + enc_vel_spec(n.velocity).len(), n.duration);
}

/// A nonempty note list encodes as its first slot followed by the rest.
pub proof fn lemma_enc_notes_head(v: Seq<NoteSlot>)
    requires
        v.len() > 0,
    ensures
        enc_notes_spec(v) == enc_note_spec(v[0]) + enc_notes_spec(v.skip(1)),
    decreases v.len(),
{
    if v.len() == 1 {
        assert(enc_notes_spec(v.drop_last()) =~= Seq::<char>::empty());
        assert(enc_notes_spec(v.skip(1)) =~= Seq::<char>::empty());
        assert(v.last() == v[0]);
        assert(enc_notes_spec(v) =~= enc_note_spec(v[0]) + enc_notes_spec(v.skip(1)));
    } else {
        lemma_enc_notes_head(v.drop_last());
        assert(v.skip(1).drop_last() =~= v.drop_last().skip(1));
        assert(v.skip(1).last() == v.last());
        assert(v.drop_last()[0] == v[0]);
        assert(enc_notes_spec(v) =~= enc_note_spec(v[0]) + enc_notes_spec(v.skip(1)));
    }
}

/// Decoding an encoded note list yields it.
pub proof fn lemma_dec_notes_enc(s: Seq<char>, pos: int, v: Seq<NoteSlot>)
    requires
        forall|i: int| 0 <= i < v.len() ==> (#[trigger] v[i]).note <= 127,
        starts_at(s, pos, enc_notes_spec(v)),
    ensures
        dec_notes(s, pos, v.len()) == Some((v, pos + enc_notes_spec(v).len())),
    decreases v.len(),
{
    if v.len() == 0 {
        assert(dec_notes(s, pos, 0) == Some((Seq::<NoteSlot>::empty(), pos)));
        assert(v =~= Seq::<NoteSlot>::empty());
    } else {
        lemma_enc_notes_head(v);
        lemma_starts_at_split(s, pos, enc_note_spec(v[0]), enc_notes_spec(v.skip(1)));
        lemma_dec_note_enc(s, pos, v[0]);
        let p1 = pos + enc_note_spec(v[0]).len();
        assert(forall|i: int|
            0 <= i < v.skip(1).len() ==> (#[trigger] v.skip(1)[i]).note <= 127);
        lemma_dec_notes_enc(s, p1, v.skip(1));
        assert(seq![v[0]] + v.skip(1) =~= v);
    }
}

/// A nonempty offset list encodes as its first offset followed by the rest.
pub proof fn lemma_enc_offs_head(v: Seq<i8>)
    requires
        v.len() > 0,
    ensures
        enc_offs_spec(v) == enc_b(v[0] as int + 128) + enc_offs_spec(v.skip(1)),
    decreases v.len(),
{
    if v.len() == 1 {
        assert(enc_offs_spec(v.drop_last()) =~= Seq::<char>::empty());
        assert(enc_offs_spec(v.skip(1)) =~= Seq::<char>::empty());
        assert(v.last() == v[0]);
        assert(enc_offs_spec(v) =~= enc_b(v[0] as int + 128) + enc_offs_spec(v.skip(1)));
    } else {
        lemma_enc_offs_head(v.drop_last());
        assert(v.skip(1).drop_last() =~= v.drop_last().skip(1));
        assert(v.skip(1).last() == v.last());
        assert(v.drop_last()[0] == v[0]);
        assert(enc_offs_spec(v) =~= enc_b(v[0] as int + 128) + enc_offs_spec(v.skip(1)));
    }
}

/// Decoding an encoded offset list yields it.
pub proof fn lemma_dec_offs_enc(s: Seq<char>, pos: int, v: Seq<i8>)
    requires
        starts_at(s, pos, enc_offs_spec(v)),
    ensures
        dec_offs(s, pos, v.len()) == Some((v, pos + enc_offs_spec(v).len())),
    decreases v.len(),
{
    if v.len() == 0 {
        assert(v =~= Seq::<i8>::empty());
    } else {
        lemma_enc_offs_head(v);
        lemma_enc_dec_len(v[0] as int + 128, 3);
        lemma_starts_at_split(s, pos, enc_b(v[0] as int + 128), enc_offs_spec(v.skip(1)));
        lemma_dec_b_enc(s, pos, (v[0] as int + 128) as u8);
        let p1 = pos + 3;
        lemma_dec_offs_enc(s, p1, v.skip(1));
        assert((((v[0] as int + 128) as u8) as int - 128) as i8 == v[0]);
        assert(seq![v[0]] + v.skip(1) =~= v);
    }
}

/// Decoding an encoded command yields its image.
pub proof fn lemma_dec_cmd_enc(s: Seq<char>, pos: int, c: TrackerCmd)
    requires
        starts_at(s, pos, enc_cmd_spec(c)),
    ensures
        dec_cmd(s, pos) matches Some(p) && cmd_is_m(c, p.0) && p.1 == pos + enc_cmd_spec(c).len(),
{
    match c {
        TrackerCmd::NoCmd => {
            lemma_starts_at_char(s, pos, '-');
        },
        TrackerCmd::Panic => {
            lemma_starts_at_char(s, pos, '!');
        },
        TrackerCmd::Chord { chord } => {
            lemma_enc_dec_len(chord@.len() as int, 20);
            assert(enc_cmd_spec(c) =~= seq!['c'] + (enc_u(chord@.len() as int) + enc_offs_spec(
                chord@,
            )));
            lemma_starts_at_split(
                s,
                pos,
                seq!['c'],
                enc_u(chord@.len() as int) + enc_offs_spec(chord@),
            );
            lemma_starts_at_char(s, pos, 'c');
            lemma_starts_at_split(s, pos + 1, enc_u(chord@.len() as int), enc_offs_spec(chord@));
            assert(chord@.len() <= usize::MAX) by {
                assert(chord.len() == chord@.len());
            }
            lemma_dec_u_enc(s, pos + 1, chord@.len() as int);
            lemma_dec_offs_enc(s, pos + 21, chord@);
        },
        TrackerCmd::Roll { times } => {
            lemma_enc_dec_len(times as int, 3);
            lemma_starts_at_split(s, pos, seq!['r'], enc_b(times as int));
            lemma_starts_at_char(s, pos, 'r');
            lemma_dec_b_enc(s, pos + 1, times);
        },
        TrackerCmd::Repeat { times } => {
            lemma_enc_dec_len(times as int, 3);
            lemma_starts_at_split(s, pos, seq!['p'], enc_b(times as int));
            lemma_starts_at_char(s, pos, 'p');
            lemma_dec_b_enc(s, pos + 1, times);
        },
        TrackerCmd::HoldFor { notes } => {
            lemma_enc_dec_len(notes as int, 3);
            lemma_starts_at_split(s, pos, seq!['h'], enc_b(notes as int));
            lemma_starts_at_char(s, pos, 'h');
            lemma_dec_b_enc(s, pos + 1, notes);
        },
        TrackerCmd::Swing { amt } => {
            lemma_enc_dec_len(amt as int, 3);
            lemma_starts_at_split(s, pos, seq!['s'], enc_b(amt as int));
            lemma_starts_at_char(s, pos, 's');
            lemma_dec_b_enc(s, pos + 1, amt);
        },
        TrackerCmd::MidiCmd { cc_param, arg } => {
            lemma_enc_dec_len(cc_param as int, 3);
            lemma_enc_dec_len(arg as int, 3);
            assert(enc_cmd_spec(c) =~= seq!['m'] + (enc_b(cc_param as int) + enc_b(arg as int)));
            lemma_starts_at_split(s, pos, seq!['m'], enc_b(cc_param as int) + enc_b(arg as int));
            lemma_starts_at_char(s, pos, 'm');
            lemma_starts_at_split(s, pos + 1, enc_b(cc_param as int), enc_b(arg as int));
            lemma_dec_b_enc(s, pos + 1, cc_param);
            lemma_dec_b_enc(s, pos + 4, arg);
        },
    }
}

/// Decoding an encoded step yields its image.
pub proof fn lemma_dec_step_enc(s: Seq<char>, pos: int, st: Step)
    requires
        st.wf(),
        starts_at(s, pos, enc_step_spec(st)),
    ensures
        dec_step(s, pos) matches Some(p) && step_is_m(st, p.0) && p.1 == pos + enc_step_spec(
            st,
        ).len(),
{
    lemma_enc_dec_len(st.notes@.len() as int, 20);
    assert(enc_step_spec(st) =~= enc_u(st.notes@.len() as int) + (enc_notes_spec(st.notes@)
        + (enc_cmd_spec(st.cmd_a) + enc_cmd_spec(st.cmd_b))));
    lemma_starts_at_split(
        s,
        pos,
        enc_u(st.notes@.len() as int),
        enc_notes_spec(st.notes@) + (enc_cmd_spec(st.cmd_a) + enc_cmd_spec(st.cmd_b)),
    );
    assert(st.notes@.len() <= usize::MAX) by {
        assert(st.notes.len() == st.notes@.len());
    }
    lemma_dec_u_enc(s, pos, st.notes@.len() as int);
    let p1 = pos + 20;
    lemma_starts_at_split(
        s,
        p1,
        enc_notes_spec(st.notes@),
        enc_cmd_spec(st.cmd_a) + enc_cmd_spec(st.cmd_b),
    );
    lemma_dec_notes_enc(s, p1, st.notes@);
    let p2 = p1 + enc_notes_spec(st.notes@).len();
    lemma_starts_at_split(s, p2, enc_cmd_spec(st.cmd_a), enc_cmd_spec(st.cmd_b));
    lemma_dec_cmd_enc(s, p2, st.cmd_a);
    let p3 = p2 + enc_cmd_spec(st.cmd_a).len();
    lemma_dec_cmd_enc(s, p3, st.cmd_b);
}

/// A nonempty step list encodes as its first step followed by the rest.
pub proof fn lemma_enc_steps_head(v: Seq<Step>)
    requires
        v.len() > 0,
    ensures
        enc_steps_spec(v) == enc_step_spec(v[0]) + enc_steps_spec(v.skip(1)),
    decreases v.len(),
{
    if v.len() == 1 {
        assert(enc_steps_spec(v.drop_last()) =~= Seq::<char>::empty());
        assert(enc_steps_spec(v.skip(1)) =~= Seq::<char>::empty());
        assert(v.last() == v[0]);
        assert(enc_steps_spec(v) =~= enc_step_spec(v[0]) + enc_steps_spec(v.skip(1)));
    } else {
        lemma_enc_steps_head(v.drop_last());
        assert(v.skip(1).drop_last() =~= v.drop_last().skip(1));
        assert(v.skip(1).last() == v.last());
        assert(v.drop_last()[0] == v[0]);
        assert(enc_steps_spec(v) =~= enc_step_spec(v[0]) + enc_steps_spec(v.skip(1)));
    }
}

/// Decoding an encoded step list yields its images.
pub proof fn lemma_dec_steps_enc(s: Seq<char>, pos: int, v: Seq<Step>)
    requires
        forall|i: int| 0 <= i < v.len() ==> (#[trigger] v[i]).wf(),
        starts_at(s, pos, enc_steps_spec(v)),
    ensures
        dec_steps(s, pos, v.len()) matches Some(p) && p.0.len() == v.len() && (forall|i: int|
            0 <= i < v.len() ==> step_is_m(#[trigger] v[i], p.0[i])) && p.1 == pos
            + enc_steps_spec(v).len(),
    decreases v.len(),
{
    if v.len() == 0 {
    } else {
        lemma_enc_steps_head(v);
        lemma_starts_at_split(s, pos, enc_step_spec(v[0]), enc_steps_spec(v.skip(1)));
        lemma_dec_step_enc(s, pos, v[0]);
        let p1 = pos + enc_step_spec(v[0]).len();
        assert(forall|i: int| 0 <= i < v.skip(1).len() ==> (#[trigger] v.skip(1)[i]).wf());
        lemma_dec_steps_enc(s, p1, v.skip(1));
        let sub = dec_steps(s, p1, v.skip(1).len());
        let whole = dec_steps(s, pos, v.len());
        assert(whole matches Some(p) && p.0.len() == v.len() && (forall|i: int|
            0 <= i < v.len() ==> step_is_m(#[trigger] v[i], p.0[i]))) by {
            let m0 = dec_step(s, pos)->Some_0;
            let rest = sub->Some_0;
            assert(whole->Some_0.0 == seq![m0.0] + rest.0);
            assert forall|i: int| 0 <= i < v.len() implies step_is_m(
                #[trigger] v[i],
                whole->Some_0.0[i],
            ) by {
                if i == 0 {
                    assert(whole->Some_0.0[0] == m0.0);
                } else {
                    assert(whole->Some_0.0[i] == rest.0[i - 1]);
                    assert(v.skip(1)[i - 1] == v[i]);
                }
            }
        }
    }
}

/// Decoding an encoded sequence yields its image.
pub proof fn lemma_dec_seq_enc(s: Seq<char>, pos: int, sq: Sequence)
    requires
        sq.wf(),
        sq.name@.len() <= usize::MAX,
        sq.midi_dev@.len() <= usize::MAX,
        starts_at(s, pos, enc_seq_spec(sq)),
    ensures
        dec_seq(s, pos) matches Some(p) && seq_is_m(sq, p.0) && p.1 == pos + enc_seq_spec(
            sq,
        ).len(),
{
    lemma_enc_dec_len(sq.name@.len() as int, 20);
    lemma_enc_dec_len(sq.midi_dev@.len() as int, 20);
    lemma_enc_dec_len(crate::types::channel_index_spec(sq.channel), 3);
    lemma_enc_dec_len(sq.steps@.len() as int, 20);
    assert(enc_seq_spec(sq) =~= enc_str_spec(sq.name@) + (enc_str_spec(sq.midi_dev@) + (enc_b(
        crate::types::channel_index_spec(sq.channel),
    ) + (enc_u(sq.steps@.len() as int) + enc_steps_spec(sq.steps@)))));
    lemma_starts_at_split(
        s,
        pos,
        enc_str_spec(sq.name@),
        enc_str_spec(sq.midi_dev@) + (enc_b(crate::types::channel_index_spec(sq.channel)) + (enc_u(
            sq.steps@.len() as int,
        ) + enc_steps_spec(sq.steps@))),
    );
    lemma_dec_str_enc(s, pos, sq.name@);
    let p1 = pos + enc_str_spec(sq.name@).len();
    assert(enc_str_spec(sq.name@).len() == 20 + sq.name@.len()) by {
        assert(pow10(20) == 100000000000000000000) by {
            reveal_with_fuel(pow10, 21);
        }
        lemma_enc_dec(sq.name@.len() as int, 20);
    }
    lemma_starts_at_split(
        s,
        p1,
        enc_str_spec(sq.midi_dev@),
        enc_b(crate::types::channel_index_spec(sq.channel)) + (enc_u(sq.steps@.len() as int)
            + enc_steps_spec(sq.steps@)),
    );
    lemma_dec_str_enc(s, p1, sq.midi_dev@);
    let p2 = p1 + enc_str_spec(sq.midi_dev@).len();
    assert(enc_str_spec(sq.midi_dev@).len() == 20 + sq.midi_dev@.len()) by {
        assert(pow10(20) == 100000000000000000000) by {
            reveal_with_fuel(pow10, 21);
        }
        lemma_enc_dec(sq.midi_dev@.len() as int, 20);
    }
    lemma_starts_at_split(
        s,
        p2,
        enc_b(crate::types::channel_index_spec(sq.channel)),
        enc_u(sq.steps@.len() as int) + enc_steps_spec(sq.steps@),
    );
    let chi = crate::types::channel_index_spec(sq.channel);
    lemma_dec_b_enc(s, p2, chi as u8);
    let p3 = p2 + 3;
    lemma_starts_at_split(s, p3, enc_u(sq.steps@.len() as int), enc_steps_spec(sq.steps@));
    assert(sq.steps@.len() <= usize::MAX) by {
        assert(sq.steps.len() == sq.steps@.len());
    }
    lemma_dec_u_enc(s, p3, sq.steps@.len() as int);
    let p4 = p3 + 20;
    lemma_dec_steps_enc(s, p4, sq.steps@);
    assert(crate::types::channel_from_int_spec(chi + 1) == sq.channel);
}

/// Relies on `Iterator::collect` to build a `String` from its characters.
#[verifier::external_body]
fn string_from_chars(v: &Vec<char>) -> (r: String)
    ensures
        r@ == v@,
{
    v.iter().collect()
}

/// Relies on `str::chars` to list a string's characters in order.
#[verifier::external_body]
fn chars_of_string(s: &String) -> (r: Vec<char>)
    ensures
        r@ == s@,
{
    s.chars().collect()
}

/// Every note slot a counted list decodes to stays in the MIDI range.
pub proof fn lemma_dec_notes_range(s: Seq<char>, pos: int, count: nat)
    ensures
        dec_notes(s, pos, count) matches Some(q) ==> forall|i: int|
            0 <= i < q.0.len() ==> (#[trigger] q.0[i]).note <= 127,
    decreases count,
{
    if count > 0 {
        match dec_note(s, pos) {
            Some((n, p1)) => {
                lemma_dec_notes_range(s, p1, (count - 1) as nat);
            },
            None => {},
        }
    }
}

/// Read a three-digit byte value.
pub fn parse_b(s: &Vec<char>, pos: usize) -> (r: Option<(u8, usize)>)
    ensures
        dec_b(s@, pos as int) matches Some(q) ==> r matches Some(p) && p.0 == q.0 && p.1 == q.1,
        dec_b(s@, pos as int) is None ==> r is None,
{
    match parse_fixed(s, pos, 3) {
        Some((v, p)) => {
            if v <= 255 {
                Some((v as u8, p))
            } else {
                None
            }
        },
        None => None,
    }
}

/// Read a twenty-digit count.
pub fn parse_u(s: &Vec<char>, pos: usize) -> (r: Option<(usize, usize)>)
    ensures
        dec_u(s@, pos as int) matches Some(q) ==> r matches Some(p) && p.0 == q.0 && p.1 == q.1,
        dec_u(s@, pos as int) is None ==> r is None,
{
    match parse_fixed(s, pos, 20) {
        Some((v, p)) => {
            if v <= usize::MAX as u64 {
                Some((v as usize, p))
            } else {
                None
            }
        },
        None => None,
    }
}

/// Read a length-prefixed string field.
pub fn parse_str(s: &Vec<char>, pos: usize) -> (r: Option<(String, usize)>)
    ensures
        dec_str(s@, pos as int) matches Some(q) ==> r matches Some(p) && p.0@ == q.0 && p.1
            == q.1,
        dec_str(s@, pos as int) is None ==> r is None,
{
    let (n, p1) = match parse_u(s, pos) {
        Some(p) => p,
        None => {
            return None;
        },
    };
    let total = s.len();
    if n > total - p1 {
        return None;
    }
    let mut out: Vec<char> = Vec::new();
    let mut k: usize = 0;
    while k < n
        invariant
            k <= n,
            total == s@.len(),
            p1 + n <= total,
            out@ == s@.subrange(p1 as int, p1 + k),
        decreases n - k,
    {
        let c = s[p1 + k];
        out.push(c);
        proof {
            assert(out@ =~= s@.subrange(p1 as int, p1 + k + 1));
        }
        k += 1;
    }
    let st = string_from_chars(&out);
    Some((st, p1 + n))
}

/// Read a tagged note duration.
pub fn parse_dur(s: &Vec<char>, pos: usize) -> (r: Option<(NoteDuration, usize)>)
    ensures
        dec_dur(s@, pos as int) matches Some(q) ==> r matches Some(p) && p.0 == q.0 && p.1 == q.1,
        dec_dur(s@, pos as int) is None ==> r is None,
{
    if pos >= s.len() {
        return None;
    }
    let tag = s[pos];
    let (m, p) = match parse_b(s, pos + 1) {
        Some(p) => p,
        None => {
            return None;
        },
    };
    match tag {
        'W' => Some((NoteDuration::Wn(m), p)),
        'H' => Some((NoteDuration::Hn(m), p)),
        'Q' => Some((NoteDuration::Qn(m), p)),
        'E' => Some((NoteDuration::En(m), p)),
        'S' => Some((NoteDuration::Sn(m), p)),
        'T' => Some((NoteDuration::Tn(m), p)),
        'F' => Some((NoteDuration::S4n(m), p)),
        _ => None,
    }
}

/// Read an optional velocity.
pub fn parse_vel(s: &Vec<char>, pos: usize) -> (r: Option<(Option<u8>, usize)>)
    ensures
        dec_vel(s@, pos as int) matches Some(q) ==> r matches Some(p) && p.0 == q.0 && p.1 == q.1,
        dec_vel(s@, pos as int) is None ==> r is None,
{
    if pos >= s.len() {
        return None;
    }
    let tag = s[pos];
    if tag == 'n' {
        Some((None, pos + 1))
    } else if tag == 'v' {
        match parse_b(s, pos + 1) {
            Some((v, p)) => Some((Some(v), p)),
            None => None,
        }
    } else {
        None
    }
}

/// Read one note slot.
pub fn parse_note(s: &Vec<char>, pos: usize) -> (r: Option<(NoteSlot, usize)>)
    ensures
        dec_note(s@, pos as int) matches Some(q) ==> r matches Some(p) && p.0 == q.0 && p.1
            == q.1,
        dec_note(s@, pos as int) is None ==> r is None,
{
    let (note, p1) = match parse_b(s, pos) {
        Some(p) => p,
        None => {
            return None;
        },
    };
    if note > 127 {
        return None;
    }
    let (vel, p2) = match parse_vel(s, p1) {
        Some(p) => p,
        None => {
            return None;
        },
    };
    let (dur, p3) = match parse_dur(s, p2) {
        Some(p) => p,
        None => {
            return None;
        },
    };
    Some((NoteSlot { note, velocity: vel, duration: dur }, p3))
}

/// Read a counted list of note slots.
pub fn parse_notes(s: &Vec<char>, pos: usize, count: usize) -> (r: Option<(Vec<NoteSlot>, usize)>)
    ensures
        dec_notes(s@, pos as int, count as nat) matches Some(q) ==> r matches Some(p) && p.0@
            == q.0 && p.1 == q.1,
        dec_notes(s@, pos as int, count as nat) is None ==> r is None,
{
    let mut out: Vec<NoteSlot> = Vec::new();
    let mut cur = pos;
    let mut k: usize = 0;
    while k < count
        invariant
            k <= count,
            match dec_notes(s@, cur as int, (count - k) as nat) {
                Some(q) => dec_notes(s@, pos as int, count as nat) matches Some(w) && w.0 == out@
                    + q.0 && w.1 == q.1,
                None => dec_notes(s@, pos as int, count as nat) is None,
            },
        decreases count - k,
    {
        let (n, p1) = match parse_note(s, cur) {
            Some(p) => p,
            None => {
                return None;
            },
        };
        out.push(n);
        proof {
            let rest = dec_notes(s@, p1 as int, (count - k - 1) as nat);
            if rest is Some {
                let q2 = rest->Some_0;
                assert(out@ + q2.0 =~= out@.drop_last() + (seq![n] + q2.0));
            }
        }
        cur = p1;
        k += 1;
    }
    Some((out, cur))
}

/// Read a counted list of chord offsets.
pub fn parse_offs(s: &Vec<char>, pos: usize, count: usize) -> (r: Option<(Vec<i8>, usize)>)
    ensures
        dec_offs(s@, pos as int, count as nat) matches Some(q) ==> r matches Some(p) && p.0@
            == q.0 && p.1 == q.1,
        dec_offs(s@, pos as int, count as nat) is None ==> r is None,
{
    let mut out: Vec<i8> = Vec::new();
    let mut cur = pos;
    let mut k: usize = 0;
    while k < count
        invariant
            k <= count,
            match dec_offs(s@, cur as int, (count - k) as nat) {
                Some(q) => dec_offs(s@, pos as int, count as nat) matches Some(w) && w.0 == out@
                    + q.0 && w.1 == q.1,
                None => dec_offs(s@, pos as int, count as nat) is None,
            },
        decreases count - k,
    {
        let (v, p1) = match parse_b(s, cur) {
            Some(p) => p,
            None => {
                return None;
            },
        };
        let o: i8 = ((v as i16) - 128) as i8;
        out.push(o);
        proof {
            let rest = dec_offs(s@, p1 as int, (count - k - 1) as nat);
            if rest is Some {
                let q2 = rest->Some_0;
                assert(out@ + q2.0 =~= out@.drop_last() + (seq![o] + q2.0));
            }
        }
        cur = p1;
        k += 1;
    }
    Some((out, cur))
}

/// Read one tagged tracker command.
pub fn parse_cmd(s: &Vec<char>, pos: usize) -> (r: Option<(TrackerCmd, usize)>)
    ensures
        dec_cmd(s@, pos as int) matches Some(q) ==> r matches Some(p) && cmd_is_m(p.0, q.0) && p.1
            == q.1,
        dec_cmd(s@, pos as int) is None ==> r is None,
{
    if pos >= s.len() {
        return None;
    }
    let tag = s[pos];
    match tag {
        '-' => Some((TrackerCmd::NoCmd, pos + 1)),
        '!' => Some((TrackerCmd::Panic, pos + 1)),
        'c' => {
            let (n, p1) = match parse_u(s, pos + 1) {
                Some(p) => p,
                None => {
                    return None;
                },
            };
            match parse_offs(s, p1, n) {
                Some((offs, p2)) => Some((TrackerCmd::Chord { chord: offs }, p2)),
                None => None,
            }
        },
        'r' => match parse_b(s, pos + 1) {
            Some((t, p)) => Some((TrackerCmd::Roll { times: t }, p)),
            None => None,
        },
        'p' => match parse_b(s, pos + 1) {
            Some((t, p)) => Some((TrackerCmd::Repeat { times: t }, p)),
            None => None,
        },
        'h' => match parse_b(s, pos + 1) {
            Some((t, p)) => Some((TrackerCmd::HoldFor { notes: t }, p)),
            None => None,
        },
        's' => match parse_b(s, pos + 1) {
            Some((t, p)) => Some((TrackerCmd::Swing { amt: t }, p)),
            None => None,
        },
        'm' => {
            let (a, p1) = match parse_b(s, pos + 1) {
                Some(p) => p,
                None => {
                    return None;
                },
            };
            match parse_b(s, p1) {
                Some((b, p2)) => Some((TrackerCmd::MidiCmd { cc_param: a, arg: b }, p2)),
                None => None,
            }
        },
        _ => None,
    }
}

/// Read one step.
pub fn parse_step(s: &Vec<char>, pos: usize) -> (r: Option<(Step, usize)>)
    ensures
        dec_step(s@, pos as int) matches Some(q) ==> r matches Some(p) && step_is_m(p.0, q.0)
            && p.0.wf() && p.1 == q.1,
        dec_step(s@, pos as int) is None ==> r is None,
{
    let (n, p1) = match parse_u(s, pos) {
        Some(p) => p,
        None => {
            return None;
        },
    };
    let (notes, p2) = match parse_notes(s, p1, n) {
        Some(p) => p,
        None => {
            return None;
        },
    };
    let (a, p3) = match parse_cmd(s, p2) {
        Some(p) => p,
        None => {
            return None;
        },
    };
    let (b, p4) = match parse_cmd(s, p3) {
        Some(p) => p,
        None => {
            return None;
        },
    };
    proof {
        lemma_dec_notes_range(s@, p1 as int, n as nat);
    }
    Some((Step { notes, cmd_a: a, cmd_b: b }, p4))
}

/// Read one whole sequence.
pub fn parse_sequence(s: &Vec<char>, pos: usize) -> (r: Option<(Sequence, usize)>)
    ensures
        dec_seq(s@, pos as int) matches Some(q) ==> r matches Some(p) && seq_is_m(p.0, q.0)
            && p.0.wf() && p.1 == q.1,
        dec_seq(s@, pos as int) is None ==> r is None,
{
    let (name, p1) = match parse_str(s, pos) {
        Some(p) => p,
        None => {
            return None;
        },
    };
    let (dev, p2) = match parse_str(s, p1) {
        Some(p) => p,
        None => {
            return None;
        },
    };
    let (ch, p3) = match parse_b(s, p2) {
        Some(p) => p,
        None => {
            return None;
        },
    };
    if ch > 15 {
        return None;
    }
    let (count, p4) = match parse_u(s, p3) {
        Some(p) => p,
        None => {
            return None;
        },
    };
    if count < 1 {
        return None;
    }
    let mut steps: Vec<Step> = Vec::new();
    let mut cur = p4;
    let mut k: usize = 0;
    while k < count
        invariant
            k <= count,
            ch <= 15,
            count >= 1,
            forall|i: int| 0 <= i < steps@.len() ==> (#[trigger] steps@[i]).wf(),
            dec_steps(s@, p4 as int, count as nat) is None ==> dec_seq(s@, pos as int) is None,
            dec_seq(s@, pos as int) matches Some(q) ==> dec_steps(
                s@,
                p4 as int,
                count as nat,
            ) matches Some(ws) && q.0.name == name@ && q.0.midi_dev == dev@ && q.0.channel
                == crate::types::channel_from_int_spec(ch as int + 1) && q.0.steps == ws.0 && q.1
                == ws.1,
            match dec_steps(s@, cur as int, (count - k) as nat) {
                Some(q) => {
                    &&& dec_steps(s@, p4 as int, count as nat) matches Some(w)
                    &&& w.0.len() == steps@.len() + q.0.len()
                    &&& w.1 == q.1
                    &&& forall|i: int|
                        0 <= i < steps@.len() ==> step_is_m(#[trigger] steps@[i], w.0[i])
                    &&& forall|i: int|
                        0 <= i < q.0.len() ==> w.0[steps@.len() + i] == q.0[i]
                },
                None => dec_steps(s@, p4 as int, count as nat) is None,
            },
        decreases count - k,
    {
        let (st, pn) = match parse_step(s, cur) {
            Some(p) => p,
            None => {
                return None;
            },
        };
        let ghost pre_steps = steps@;
        steps.push(st);
        proof {
            let q2 = dec_steps(s@, pn as int, (count - k - 1) as nat);
            if q2 is Some {
                let qq = q2->Some_0;
                let q1 = dec_steps(s@, cur as int, (count - k) as nat);
                let m0 = dec_step(s@, cur as int)->Some_0;
                assert(q1 matches Some(q1v) && q1v.0 == seq![m0.0] + qq.0);
                let w = dec_steps(s@, p4 as int, count as nat)->Some_0;
                assert forall|i: int| 0 <= i < steps@.len() implies step_is_m(
                    #[trigger] steps@[i],
                    w.0[i],
                ) by {
                    if i < pre_steps.len() {
                        assert(steps@[i] == pre_steps[i]);
                    } else {
                        assert(w.0[pre_steps.len() as int] == (seq![m0.0] + qq.0)[0]);
                    }
                }
                assert forall|i: int| 0 <= i < qq.0.len() implies w.0[steps@.len() + i] == qq.0[
                i] by {
                    assert(w.0[pre_steps.len() + (i + 1)] == (seq![m0.0] + qq.0)[i + 1]);
                }
            }
        }
        cur = pn;
        k += 1;
    }
    let channel = MidiChannel::from_int((ch as i64) + 1);
    Some((Sequence { name, midi_dev: dev, channel, steps }, cur))
}

/// The text a sequence is saved as.
pub fn encode_sequence(sq: &Sequence) -> (r: String)
    ensures
        r@ == enc_seq_spec(*sq),
{
    let chars = encode_sequence_chars(sq);
    string_from_chars(&chars)
}

/// Recover a sequence from saved text; text that is not exactly a saved
/// sequence is refused.
pub fn decode_sequence(text: &String) -> (r: Option<Sequence>)
    ensures
        dec_seq(text@, 0) is None ==> r is None,
        dec_seq(text@, 0) matches Some(q) ==> {
            &&& (r is Some <==> q.1 == text@.len())
            &&& (r matches Some(x) ==> seq_is_m(x, q.0) && x.wf())
        },
{
    let chars = chars_of_string(text);
    match parse_sequence(&chars, 0) {
        Some((sq, p)) => {
            if p == chars.len() {
                Some(sq)
            } else {
                None
            }
        },
        None => None,
    }
}

/// Saving a well-formed sequence and loading the text back yields its exact
/// image: nothing is lost and nothing is invented.
pub proof fn lemma_save_load_round_trip(sq: Sequence)
    requires
        sq.wf(),
        sq.name@.len() <= usize::MAX,
        sq.midi_dev@.len() <= usize::MAX,
    ensures
        dec_seq(enc_seq_spec(sq), 0) matches Some(q) && seq_is_m(sq, q.0) && q.1 == enc_seq_spec(
            sq,
        ).len(),
{
    let t = enc_seq_spec(sq);
    assert(t.subrange(0, t.len() as int) =~= t);
    lemma_dec_seq_enc(t, 0, sq);
}

/// Two sequences sharing one decoded image are field-wise equal.
pub proof fn lemma_seq_is_m_models(a: Sequence, b: Sequence, m: SeqM)
    requires
        seq_is_m(a, m),
        seq_is_m(b, m),
    ensures
        sequence_models(a, b),
{
    assert forall|i: int| 0 <= i < a.steps@.len() implies step_models(
        #[trigger] a.steps@[i],
        b.steps@[i],
    ) by {
        assert(step_is_m(a.steps@[i], m.steps[i]));
        assert(step_is_m(b.steps@[i], m.steps[i]));
        let ca = a.steps@[i].cmd_a;
        let cb = b.steps@[i].cmd_a;
        let cm = m.steps[i].cmd_a;
        assert(crate::types::cmd_matches(ca, cb)) by {
            assert(cmd_is_m(ca, cm) && cmd_is_m(cb, cm));
        }
        assert(crate::types::cmd_matches(a.steps@[i].cmd_b, b.steps@[i].cmd_b)) by {
            assert(cmd_is_m(a.steps@[i].cmd_b, m.steps[i].cmd_b) && cmd_is_m(
                b.steps@[i].cmd_b,
                m.steps[i].cmd_b,
            ));
        }
    }
}

/// A field-wise copy of a sequence carries its decoded image with it.
pub proof fn lemma_models_is_m(a: Sequence, b: Sequence, m: SeqM)
    requires
        crate::types::sequence_models(a, b),
        seq_is_m(b, m),
    ensures
        seq_is_m(a, m),
{
    assert forall|i: int| 0 <= i < m.steps.len() implies step_is_m(
        #[trigger] a.steps@[i],
        m.steps[i],
    ) by {
        assert(crate::types::step_models(a.steps@[i], b.steps@[i]));
        assert(step_is_m(b.steps@[i], m.steps[i]));
    }
}

/// Read a counted list of sequences.
pub open spec fn dec_seqs(s: Seq<char>, pos: int, count: nat) -> Option<(Seq<SeqM>, int)>
    decreases count,
{
    if count == 0 {
        Some((Seq::empty(), pos))
    } else {
        match dec_seq(s, pos) {
            Some((m, p1)) => match dec_seqs(s, p1, (count - 1) as nat) {
                Some((rest, p2)) => Some((seq![m] + rest, p2)),
                None => None,
            },
            None => None,
        }
    }
}

/// Read a whole project: its sequence count, then each sequence.
pub open spec fn dec_proj(s: Seq<char>, pos: int) -> Option<(Seq<SeqM>, int)> {
    match dec_u(s, pos) {
        Some((n, p1)) => dec_seqs(s, p1, n as nat),
        None => None,
    }
}

/// A nonempty sequence list encodes as its first sequence followed by the
/// rest.
pub proof fn lemma_enc_proj_head(v: Seq<Sequence>)
    requires
        v.len() > 0,
    ensures
        enc_proj_spec(v) == enc_seq_spec(v[0]) + enc_proj_spec(v.skip(1)),
    decreases v.len(),
{
    if v.len() == 1 {
        assert(enc_proj_spec(v.drop_last()) =~= Seq::<char>::empty());
        assert(enc_proj_spec(v.skip(1)) =~= Seq::<char>::empty());
        assert(v.last() == v[0]);
        assert(enc_proj_spec(v) =~= enc_seq_spec(v[0]) + enc_proj_spec(v.skip(1)));
    } else {
        lemma_enc_proj_head(v.drop_last());
        assert(v.skip(1).drop_last() =~= v.drop_last().skip(1));
        assert(v.skip(1).last() == v.last());
        assert(v.drop_last()[0] == v[0]);
        assert(enc_proj_spec(v) =~= enc_seq_spec(v[0]) + enc_proj_spec(v.skip(1)));
    }
}

/// Decoding an encoded sequence list yields its images.
#[verifier::rlimit(50)]
pub proof fn lemma_dec_seqs_enc(s: Seq<char>, pos: int, v: Seq<Sequence>)
    requires
        forall|i: int| 0 <= i < v.len() ==> (#[trigger] v[i]).wf(),
        forall|i: int|
            0 <= i < v.len() ==> (#[trigger] v[i]).name@.len() <= usize::MAX && v[
            i].midi_dev@.len() <= usize::MAX,
        starts_at(s, pos, enc_proj_spec(v)),
    ensures
        dec_seqs(s, pos, v.len()) matches Some(p) && p.0.len() == v.len() && (forall|i: int|
            0 <= i < v.len() ==> seq_is_m(#[trigger] v[i], p.0[i])) && p.1 == pos + enc_proj_spec(
            v,
        ).len(),
    decreases v.len(),
{
    if v.len() == 0 {
    } else {
        lemma_enc_proj_head(v);
        lemma_starts_at_split(s, pos, enc_seq_spec(v[0]), enc_proj_spec(v.skip(1)));
        lemma_dec_seq_enc(s, pos, v[0]);
        let p1 = pos + enc_seq_spec(v[0]).len();
        assert(forall|i: int| 0 <= i < v.skip(1).len() ==> (#[trigger] v.skip(1)[i]).wf());
        assert(forall|i: int|
            0 <= i < v.skip(1).len() ==> (#[trigger] v.skip(1)[i]).name@.len() <= usize::MAX
                && v.skip(1)[i].midi_dev@.len() <= usize::MAX);
        lemma_dec_seqs_enc(s, p1, v.skip(1));
        let sub = dec_seqs(s, p1, v.skip(1).len());
        let whole = dec_seqs(s, pos, v.len());
        assert(whole matches Some(p) && p.0.len() == v.len() && (forall|i: int|
            0 <= i < v.len() ==> seq_is_m(#[trigger] v[i], p.0[i]))) by {
            let m0 = dec_seq(s, pos)->Some_0;
            let rest = sub->Some_0;
            assert(whole->Some_0.0 == seq![m0.0] + rest.0);
            assert forall|i: int| 0 <= i < v.len() implies seq_is_m(
                #[trigger] v[i],
                whole->Some_0.0[i],
            ) by {
                if i == 0 {
                    assert(whole->Some_0.0[0] == m0.0);
                } else {
                    assert(whole->Some_0.0[i] == rest.0[i - 1]);
                    assert(v.skip(1)[i - 1] == v[i]);
                }
            }
        }
    }
}

/// The text a whole project is saved as.
pub fn encode_project(seqs: &Vec<Sequence>) -> (r: String)
    ensures
        r@ == enc_u(seqs@.len() as int) + enc_proj_spec(seqs@),
{
    let mut out: Vec<char> = Vec::new();
    push_fixed(&mut out, seqs.len() as u64, 20);
    let ghost base = out@;
    let mut i: usize = 0;
    while i < seqs.len()
        invariant
            i <= seqs@.len(),
            out@ == base + enc_proj_spec(seqs@.take(i as int)),
        decreases seqs@.len() - i,
    {
        proof {
            assert(seqs@.take(i + 1).drop_last() =~= seqs@.take(i as int));
            assert(seqs@.take(i + 1).last() == seqs@[i as int]);
        }
        let chars = encode_sequence_chars(&seqs[i]);
        let mut piece = chars;
        out.append(&mut piece);
        i += 1;
    }
    proof {
        assert(seqs@.take(seqs@.len() as int) =~= seqs@);
    }
    string_from_chars(&out)
}

/// Recover a whole project from saved text; text that is not exactly a saved
/// project is refused.
#[verifier::rlimit(50)]
pub fn decode_project(text: &String) -> (r: Option<Vec<Sequence>>)
    ensures
        dec_proj(text@, 0) is None ==> r is None,
        dec_proj(text@, 0) matches Some(q) ==> {
            &&& (r is Some <==> q.1 == text@.len())
            &&& (r matches Some(v) ==> v@.len() == q.0.len() && (forall|i: int|
                0 <= i < v@.len() ==> seq_is_m(#[trigger] v@[i], q.0[i]) && v@[i].wf()))
        },
{
    let chars = chars_of_string(text);
    let (count, p1) = match parse_u(&chars, 0) {
        Some(p) => p,
        None => {
            return None;
        },
    };
    let mut out: Vec<Sequence> = Vec::new();
    let mut cur = p1;
    let mut k: usize = 0;
    while k < count
        invariant
            k <= count,
            chars@ == text@,
            forall|i: int| 0 <= i < out@.len() ==> (#[trigger] out@[i]).wf(),
            match dec_seqs(chars@, cur as int, (count - k) as nat) {
                Some(q) => {
                    &&& dec_seqs(chars@, p1 as int, count as nat) matches Some(w)
                    &&& w.0.len() == out@.len() + q.0.len()
                    &&& w.1 == q.1
                    &&& forall|i: int|
                        0 <= i < out@.len() ==> seq_is_m(#[trigger] out@[i], w.0[i])
                    &&& forall|i: int| 0 <= i < q.0.len() ==> w.0[out@.len() + i] == q.0[i]
                },
                None => dec_seqs(chars@, p1 as int, count as nat) is None,
            },
            dec_proj(text@, 0) matches Some(q) ==> dec_seqs(
                chars@,
                p1 as int,
                count as nat,
            ) matches Some(w) && q.0 == w.0 && q.1 == w.1,
            dec_seqs(chars@, p1 as int, count as nat) is None ==> dec_proj(text@, 0) is None,
        decreases count - k,
    {
        let (sq, pn) = match parse_sequence(&chars, cur) {
            Some(p) => p,
            None => {
                return None;
            },
        };
        let ghost pre_out = out@;
        out.push(sq);
        proof {
            let q2 = dec_seqs(chars@, pn as int, (count - k - 1) as nat);
            if q2 is Some {
                let qq = q2->Some_0;
                let m0 = dec_seq(chars@, cur as int)->Some_0;
                let q1 = dec_seqs(chars@, cur as int, (count - k) as nat);
                assert(q1 matches Some(q1v) && q1v.0 == seq![m0.0] + qq.0);
                let w = dec_seqs(chars@, p1 as int, count as nat)->Some_0;
                assert forall|i: int| 0 <= i < out@.len() implies seq_is_m(
                    #[trigger] out@[i],
                    w.0[i],
                ) by {
                    if i < pre_out.len() {
                        assert(out@[i] == pre_out[i]);
                    } else {
                        assert(w.0[pre_out.len() as int] == (seq![m0.0] + qq.0)[0]);
                    }
                }
                assert forall|i: int| 0 <= i < qq.0.len() implies w.0[out@.len() + i] == qq.0[
                i] by {
                    assert(w.0[pre_out.len() + (i + 1)] == (seq![m0.0] + qq.0)[i + 1]);
                }
            }
        }
        cur = pn;
        k += 1;
    }
    if cur == chars.len() {
        Some(out)
    } else {
        None
    }
}

/// Saving a whole project and loading the text back yields the exact images
/// of its sequences.
pub proof fn lemma_project_round_trip(v: Seq<Sequence>)
    requires
        v.len() <= usize::MAX,
        forall|i: int| 0 <= i < v.len() ==> (#[trigger] v[i]).wf(),
        forall|i: int|
            0 <= i < v.len() ==> (#[trigger] v[i]).name@.len() <= usize::MAX && v[
            i].midi_dev@.len() <= usize::MAX,
    ensures
        dec_proj(enc_u(v.len() as int) + enc_proj_spec(v), 0) matches Some(q) && q.0.len()
            == v.len() && (forall|i: int| 0 <= i < v.len() ==> seq_is_m(#[trigger] v[i], q.0[i]))
            && q.1 == (enc_u(v.len() as int) + enc_proj_spec(v)).len(),
{
    let t = enc_u(v.len() as int) + enc_proj_spec(v);
    assert(t.subrange(0, t.len() as int) =~= t);
    lemma_enc_dec_len(v.len() as int, 20);
    lemma_starts_at_split(t, 0, enc_u(v.len() as int), enc_proj_spec(v));
    lemma_dec_u_enc(t, 0, v.len() as int);
    lemma_dec_seqs_enc(t, 20, v);
}

/// Larger widths denote no smaller powers.
pub proof fn lemma_pow10_monotone(a: nat, b: nat)
    requires
        a <= b,
    ensures
        pow10(a) <= pow10(b),
        pow10(a) >= 1,
    decreases b,
{
    if b > 0 {
        if a == b {
            lemma_pow10_monotone((b - 1) as nat, (b - 1) as nat);
        } else {
            lemma_pow10_monotone(a, (b - 1) as nat);
        }
    }
}

} // verus!
