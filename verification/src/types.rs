//! The data model: MIDI channels, note durations, wire-level message bodies,
//! tracker commands, steps and sequences.

use vstd::prelude::*;

verus! {

/// A MIDI channel, 1 through 16.
#[derive(Clone, Copy, Debug, PartialEq, Eq, Structural)]
pub enum MidiChannel {
    Ch1,
    Ch2,
    Ch3,
    Ch4,
    Ch5,
    Ch6,
    Ch7,
    Ch8,
    Ch9,
    Ch10,
    Ch11,
    Ch12,
    Ch13,
    Ch14,
    Ch15,
    Ch16,
}

/// The zero-based wire index of a channel: `Ch1` is 0, `Ch16` is 15.
pub open spec fn channel_index_spec(c: MidiChannel) -> int {
    match c {
        MidiChannel::Ch1 => 0,
        MidiChannel::Ch2 => 1,
        MidiChannel::Ch3 => 2,
        MidiChannel::Ch4 => 3,
        MidiChannel::Ch5 => 4,
        MidiChannel::Ch6 => 5,
        MidiChannel::Ch7 => 6,
        MidiChannel::Ch8 => 7,
        MidiChannel::Ch9 => 8,
        MidiChannel::Ch10 => 9,
        MidiChannel::Ch11 => 10,
        MidiChannel::Ch12 => 11,
        MidiChannel::Ch13 => 12,
        MidiChannel::Ch14 => 13,
        MidiChannel::Ch15 => 14,
        MidiChannel::Ch16 => 15,
    }
}

/// The channel denoted by a one-based number; anything outside 1..=16 falls
/// back to channel 1.
pub open spec fn channel_from_int_spec(n: int) -> MidiChannel {
    if n == 2 {
        MidiChannel::Ch2
    } else if n == 3 {
        MidiChannel::Ch3
    } else if n == 4 {
        MidiChannel::Ch4
    } else if n == 5 {
        MidiChannel::Ch5
    } else if n == 6 {
        MidiChannel::Ch6
    } else if n == 7 {
        MidiChannel::Ch7
    } else if n == 8 {
        MidiChannel::Ch8
    } else if n == 9 {
        MidiChannel::Ch9
    } else if n == 10 {
        MidiChannel::Ch10
    } else if n == 11 {
        MidiChannel::Ch11
    } else if n == 12 {
        MidiChannel::Ch12
    } else if n == 13 {
        MidiChannel::Ch13
    } else if n == 14 {
        MidiChannel::Ch14
    } else if n == 15 {
        MidiChannel::Ch15
    } else if n == 16 {
        MidiChannel::Ch16
    } else {
        MidiChannel::Ch1
    }
}

impl MidiChannel {
    /// The default channel, channel 1.
    pub fn new() -> (r: Self)
        ensures
            r == MidiChannel::Ch1,
    {
        MidiChannel::Ch1
    }

    /// The zero-based wire index of this channel.
    pub fn index(&self) -> (r: u8)
        ensures
            r == channel_index_spec(*self),
            r < 16,
    {
        match *self {
            MidiChannel::Ch1 => 0,
            MidiChannel::Ch2 => 1,
            MidiChannel::Ch3 => 2,
            MidiChannel::Ch4 => 3,
            MidiChannel::Ch5 => 4,
            MidiChannel::Ch6 => 5,
            MidiChannel::Ch7 => 6,
            MidiChannel::Ch8 => 7,
            MidiChannel::Ch9 => 8,
            MidiChannel::Ch10 => 9,
            MidiChannel::Ch11 => 10,
            MidiChannel::Ch12 => 11,
            MidiChannel::Ch13 => 12,
            MidiChannel::Ch14 => 13,
            MidiChannel::Ch15 => 14,
            MidiChannel::Ch16 => 15,
        }
    }

    /// The channel for a one-based number, falling back to channel 1 when the
    /// number is out of range.
    pub fn from_int(n: i64) -> (r: Self)
        ensures
            r == channel_from_int_spec(n as int),
    {
        if n < 1 || n > 16 {
            return MidiChannel::Ch1;
        }
        Self::from_index((n - 1) as u8)
    }

    /// The channel for a zero-based wire index; an index of 16 or more falls
    /// back to channel 1.
    pub fn from_index(i: u8) -> (r: Self)
        ensures
            i < 16 ==> channel_index_spec(r) == i as int,
            i >= 16 ==> r == MidiChannel::Ch1,
    {
        match i {
            0 => MidiChannel::Ch1,
            1 => MidiChannel::Ch2,
            2 => MidiChannel::Ch3,
            3 => MidiChannel::Ch4,
            4 => MidiChannel::Ch5,
            5 => MidiChannel::Ch6,
            6 => MidiChannel::Ch7,
            7 => MidiChannel::Ch8,
            8 => MidiChannel::Ch9,
            9 => MidiChannel::Ch10,
            10 => MidiChannel::Ch11,
            11 => MidiChannel::Ch12,
            12 => MidiChannel::Ch13,
            13 => MidiChannel::Ch14,
            14 => MidiChannel::Ch15,
            15 => MidiChannel::Ch16,
            _ => MidiChannel::Ch1,
        }
    }
}

/// A lowercased text with every `0x` pair struck out, scanning left to
/// right.
pub open spec fn strip_0x(s: Seq<char>) -> Seq<char>
    decreases s.len(),
{
    if s.len() == 0 {
        Seq::empty()
    } else if s.len() >= 2 && s[0] == '0' && s[1] == 'x' {
        strip_0x(s.skip(2))
    } else {
        seq![s[0]] + strip_0x(s.skip(1))
    }
}

/// A text lowercased character by character.
pub open spec fn lower_seq(s: Seq<char>) -> Seq<char> {
    Seq::new(s.len(), |i: int| crate::notes::lower_char(s[i]))
}

/// The channel one lowercase hexadecimal digit denotes.
pub open spec fn hex_digit_channel(c: char) -> Option<MidiChannel> {
    if c == '0' {
        Some(MidiChannel::Ch1)
    } else if c == '1' {
        Some(MidiChannel::Ch2)
    } else if c == '2' {
        Some(MidiChannel::Ch3)
    } else if c == '3' {
        Some(MidiChannel::Ch4)
    } else if c == '4' {
        Some(MidiChannel::Ch5)
    } else if c == '5' {
        Some(MidiChannel::Ch6)
    } else if c == '6' {
        Some(MidiChannel::Ch7)
    } else if c == '7' {
        Some(MidiChannel::Ch8)
    } else if c == '8' {
        Some(MidiChannel::Ch9)
    } else if c == '9' {
        Some(MidiChannel::Ch10)
    } else if c == 'a' {
        Some(MidiChannel::Ch11)
    } else if c == 'b' {
        Some(MidiChannel::Ch12)
    } else if c == 'c' {
        Some(MidiChannel::Ch13)
    } else if c == 'd' {
        Some(MidiChannel::Ch14)
    } else if c == 'e' {
        Some(MidiChannel::Ch15)
    } else if c == 'f' {
        Some(MidiChannel::Ch16)
    } else {
        None
    }
}

/// The channel a hexadecimal text denotes: lowercased, an `0x` prefix (and
/// any further `0x` pairs) struck out, then one digit `0` through `f`;
/// anything else falls back to channel 1.
pub open spec fn from_hex_spec(s: Seq<char>) -> MidiChannel {
    let low = lower_seq(s);
    let t = if low.len() >= 2 && low[0] == '0' && low[1] == 'x' {
        strip_0x(low)
    } else {
        low
    };
    if t.len() == 1 {
        match hex_digit_channel(t[0]) {
            Some(ch) => ch,
            None => MidiChannel::Ch1,
        }
    } else {
        MidiChannel::Ch1
    }
}

impl MidiChannel {
    /// The channel a hexadecimal text such as `0x3` or `b` denotes;
    /// unintelligible text falls back to channel 1.
    pub fn from_hex(hex: String) -> (r: Self)
        ensures
            r == from_hex_spec(hex@),
    {
        let st = hex.as_str();
        let n = st.unicode_len();
        let mut low: Vec<char> = Vec::new();
        let mut i: usize = 0;
        while i < n
            invariant
                i <= n,
                n == st@.len(),
                st@ == hex@,
                low@.len() == i,
                forall|k: int| 0 <= k < i ==> low@[k] == lower_seq(hex@)[k],
            decreases n - i,
        {
            let ch = crate::notes::to_lower(st.get_char(i));
            low.push(ch);
            i += 1;
        }
        proof {
            assert(low@ =~= lower_seq(hex@));
        }
        let stripped_mode = low.len() >= 2 && low[0] == '0' && low[1] == 'x';
        let mut t: Vec<char> = Vec::new();
        if stripped_mode {
            proof {
                assert(low@.skip(0) =~= low@);
                assert(t@ + strip_0x(low@) =~= strip_0x(low@));
            }
            let mut j: usize = 0;
            while j < low.len()
                invariant
                    j <= low@.len(),
                    strip_0x(low@) == t@ + strip_0x(low@.skip(j as int)),
                decreases low@.len() - j,
            {
                if low[j] == '0' && j + 1 < low.len() && low[j + 1] == 'x' {
                    proof {
                        assert(low@.skip(j as int)[0] == '0' && low@.skip(j as int)[1] == 'x');
                        assert(low@.skip(j as int).skip(2) =~= low@.skip(j + 2));
                    }
                    j += 2;
                } else {
                    let keep = low[j];
                    proof {
                        assert(low@.skip(j as int)[0] == keep);
                        assert(low@.skip(j as int).skip(1) =~= low@.skip(j + 1));
                        assert(t@ + (seq![keep] + strip_0x(low@.skip(j + 1))) =~= t@.push(keep)
                            + strip_0x(low@.skip(j + 1)));
                    }
                    t.push(keep);
                    j += 1;
                }
            }
            proof {
                assert(low@.skip(low@.len() as int) =~= Seq::<char>::empty());
                assert(t@ + strip_0x(low@.skip(low@.len() as int)) =~= t@);
            }
        } else {
            let mut j: usize = 0;
            while j < low.len()
                invariant
                    j <= low@.len(),
                    t@ == low@.take(j as int),
                decreases low@.len() - j,
            {
                let keep = low[j];
                proof {
                    assert(low@.take(j + 1) =~= low@.take(j as int).push(low@[j as int]));
                }
                t.push(keep);
                j += 1;
            }
            proof {
                assert(low@.take(low@.len() as int) =~= low@);
            }
        }
        if t.len() != 1 {
            return MidiChannel::Ch1;
        }
        let c = t[0];
        match c {
            '0' => MidiChannel::Ch1,
            '1' => MidiChannel::Ch2,
            '2' => MidiChannel::Ch3,
            '3' => MidiChannel::Ch4,
            '4' => MidiChannel::Ch5,
            '5' => MidiChannel::Ch6,
            '6' => MidiChannel::Ch7,
            '7' => MidiChannel::Ch8,
            '8' => MidiChannel::Ch9,
            '9' => MidiChannel::Ch10,
            'a' => MidiChannel::Ch11,
            'b' => MidiChannel::Ch12,
            'c' => MidiChannel::Ch13,
            'd' => MidiChannel::Ch14,
            'e' => MidiChannel::Ch15,
            'f' => MidiChannel::Ch16,
            _ => MidiChannel::Ch1,
        }
    }

    /// The channel's one-based number as text.
    #[allow(non_snake_case)]
    pub fn __str__(&self) -> (r: String)
        ensures
            r@ == channel_str_spec(*self),
    {
        let text: &'static str = match *self {
            MidiChannel::Ch1 => "1",
            MidiChannel::Ch2 => "2",
            MidiChannel::Ch3 => "3",
            MidiChannel::Ch4 => "4",
            MidiChannel::Ch5 => "5",
            MidiChannel::Ch6 => "6",
            MidiChannel::Ch7 => "7",
            MidiChannel::Ch8 => "8",
            MidiChannel::Ch9 => "9",
            MidiChannel::Ch10 => "10",
            MidiChannel::Ch11 => "11",
            MidiChannel::Ch12 => "12",
            MidiChannel::Ch13 => "13",
            MidiChannel::Ch14 => "14",
            MidiChannel::Ch15 => "15",
            MidiChannel::Ch16 => "16",
        };
        proof {
            reveal_strlit("1");
            reveal_strlit("2");
            reveal_strlit("3");
            reveal_strlit("4");
            reveal_strlit("5");
            reveal_strlit("6");
            reveal_strlit("7");
            reveal_strlit("8");
            reveal_strlit("9");
            reveal_strlit("10");
            reveal_strlit("11");
            reveal_strlit("12");
            reveal_strlit("13");
            reveal_strlit("14");
            reveal_strlit("15");
            reveal_strlit("16");
            assert(text@ =~= channel_str_spec(*self));
        }
        text.to_owned()
    }
}

/// The text of a channel's one-based number.
pub open spec fn channel_str_spec(c: MidiChannel) -> Seq<char> {
    let n = channel_index_spec(c) + 1;
    if n < 10 {
        seq![crate::persist::digit_char_spec(n)]
    } else {
        seq!['1', crate::persist::digit_char_spec(n - 10)]
    }
}

impl Default for MidiChannel {
    /// Channel 1 is the default channel.
    fn default() -> (r: Self)
        ensures
            r == MidiChannel::Ch1,
    {
        MidiChannel::Ch1
    }
}

/// A musical note length: whole, half, quarter, eighth, sixteenth,
/// thirty-second or sixty-fourth notes, each with a multiplier.
#[derive(Clone, Copy, Debug, PartialEq, Eq, Structural)]
pub enum NoteDuration {
    Wn(u8),
    Hn(u8),
    Qn(u8),
    En(u8),
    Sn(u8),
    Tn(u8),
    S4n(u8),
}

impl NoteDuration {
    /// The default duration, one sixteenth note.
    pub fn new() -> (r: Self)
        ensures
            r == NoteDuration::Sn(1),
    {
        NoteDuration::Sn(1)
    }
}

impl Default for NoteDuration {
    /// One sixteenth note.
    fn default() -> (r: Self)
        ensures
            r == NoteDuration::Sn(1),
    {
        NoteDuration::Sn(1)
    }
}

/// A channel-level MIDI message as carried between the sequencer and the
/// device layer.
#[derive(Clone, Copy, Debug, PartialEq, Eq, Structural)]
pub enum MidiMsg {
    PlayNote { note: u8, velocity: u8, duration: NoteDuration },
    StopNote { note: u8 },
    PitchBend { bend: u16 },
    CC { control: u8, value: u8 },
}

/// One outbound MIDI request: a target device name, a channel and a message.
#[derive(Clone, Debug)]
pub struct MidiReqBody {
    pub midi_dev: String,
    pub channel: MidiChannel,
    pub msg: MidiMsg,
}

impl MidiReqBody {
    /// Bundle a device name, channel and message into one request.
    pub fn new(midi_dev: String, channel: MidiChannel, msg: MidiMsg) -> (r: Self)
        ensures
            r.midi_dev@ == midi_dev@,
            r.channel == channel,
            r.msg == msg,
    {
        MidiReqBody { midi_dev, channel, msg }
    }
}

/// A named MIDI output target: a device name and a channel on it.
#[derive(Clone, Debug)]
pub struct MidiTarget {
    pub name: String,
    pub ch: MidiChannel,
}

impl MidiTarget {
    /// The default target.
    pub fn new() -> (r: Self)
        ensures
            r.name@ == "MIDI THRU"@,
            r.ch == MidiChannel::Ch1,
    {
        MidiTarget { name: "MIDI THRU".to_owned(), ch: MidiChannel::Ch1 }
    }
}

impl Default for MidiTarget {
    /// Targets the pass-through device on channel 1.
    fn default() -> (r: Self)
        ensures
            r.name@ == "MIDI THRU"@,
            r.ch == MidiChannel::Ch1,
    {
        MidiTarget::new()
    }
}

/// A tracker performance command attached to a step. Two such commands ride
/// on every step; `NoCmd` marks an empty slot.
#[derive(Clone, Debug)]
pub enum TrackerCmd {
    NoCmd,
    /// Extra notes struck together with the step's notes, as signed offsets.
    Chord { chord: Vec<i8> },
    /// Retrigger the step's notes `times` extra times at half-step spacing.
    Roll { times: u8 },
    /// Retrigger the step's notes `times` extra times at full-step spacing.
    Repeat { times: u8 },
    /// Hold the step's notes for `notes` extra steps before releasing.
    HoldFor { notes: u8 },
    /// Delay the step's notes by a swing amount.
    Swing { amt: u8 },
    /// Release every held note on every device.
    Panic,
    /// A raw control-change message for the step's device.
    MidiCmd { cc_param: u8, arg: u8 },
}

/// Whether two tracker commands are the same command with the same payload.
pub open spec fn cmd_matches(a: TrackerCmd, b: TrackerCmd) -> bool {
    match (a, b) {
        (TrackerCmd::NoCmd, TrackerCmd::NoCmd) => true,
        (TrackerCmd::Chord { chord: c1 }, TrackerCmd::Chord { chord: c2 }) => c1@ == c2@,
        (TrackerCmd::Roll { times: t1 }, TrackerCmd::Roll { times: t2 }) => t1 == t2,
        (TrackerCmd::Repeat { times: t1 }, TrackerCmd::Repeat { times: t2 }) => t1 == t2,
        (TrackerCmd::HoldFor { notes: n1 }, TrackerCmd::HoldFor { notes: n2 }) => n1 == n2,
        (TrackerCmd::Swing { amt: a1 }, TrackerCmd::Swing { amt: a2 }) => a1 == a2,
        (TrackerCmd::Panic, TrackerCmd::Panic) => true,
        (TrackerCmd::MidiCmd { cc_param: p1, arg: a1 }, TrackerCmd::MidiCmd {
            cc_param: p2,
            arg: a2,
        }) => p1 == p2 && a1 == a2,
        _ => false,
    }
}

/// Decide whether two tracker commands are the same command with the same
/// payload.
pub fn tracker_cmd_eq(a: &TrackerCmd, b: &TrackerCmd) -> (r: bool)
    ensures
        r == cmd_matches(*a, *b),
{
    match (a, b) {
        (TrackerCmd::NoCmd, TrackerCmd::NoCmd) => true,
        (TrackerCmd::Chord { chord: c1 }, TrackerCmd::Chord { chord: c2 }) => {
            if c1.len() != c2.len() {
                proof {
                    assert(c1@.len() != c2@.len());
                }
                return false;
            }
            let mut i: usize = 0;
            while i < c1.len()
                invariant
                    i <= c1.len(),
                    c1@.len() == c2@.len(),
                    cmd_matches(*a, *b) == (c1@ == c2@),
                    forall|k: int| 0 <= k < i ==> c1@[k] == c2@[k],
                decreases c1@.len() - i,
            {
                if c1[i] != c2[i] {
                    proof {
                        assert(c1@[i as int] != c2@[i as int]);
                    }
                    return false;
                }
                i += 1;
            }
            proof {
                assert(c1@ =~= c2@);
            }
            true
        },
        (TrackerCmd::Roll { times: t1 }, TrackerCmd::Roll { times: t2 }) => t1 == t2,
        (TrackerCmd::Repeat { times: t1 }, TrackerCmd::Repeat { times: t2 }) => t1 == t2,
        (TrackerCmd::HoldFor { notes: n1 }, TrackerCmd::HoldFor { notes: n2 }) => n1 == n2,
        (TrackerCmd::Swing { amt: a1 }, TrackerCmd::Swing { amt: a2 }) => a1 == a2,
        (TrackerCmd::Panic, TrackerCmd::Panic) => true,
        (TrackerCmd::MidiCmd { cc_param: p1, arg: a1 }, TrackerCmd::MidiCmd {
            cc_param: p2,
            arg: a2,
        }) => p1 == p2 && a1 == a2,
        _ => false,
    }
}

/// One note within a step: a raw note number with an optional velocity
/// (85 is assumed where it is unset) and a length.
#[derive(Clone, Copy, Debug, PartialEq, Eq, Structural)]
pub struct NoteSlot {
    pub note: u8,
    pub velocity: Option<u8>,
    pub duration: NoteDuration,
}

/// One slot in a sequence's loop: zero or more notes and two independent
/// command slots.
#[derive(Clone, Debug)]
pub struct Step {
    pub notes: Vec<NoteSlot>,
    pub cmd_a: TrackerCmd,
    pub cmd_b: TrackerCmd,
}

impl Step {
    /// Every note number a step holds stays in the MIDI range.
    pub open spec fn wf(self) -> bool {
        forall|i: int| 0 <= i < self.notes@.len() ==> (#[trigger] self.notes@[i]).note <= 127
    }

    /// An empty step: no notes, both command slots empty.
    pub fn new() -> (r: Self)
        ensures
            r.notes@.len() == 0,
            r.cmd_a is NoCmd,
            r.cmd_b is NoCmd,
            r.wf(),
    {
        Step { notes: Vec::new(), cmd_a: TrackerCmd::NoCmd, cmd_b: TrackerCmd::NoCmd }
    }
}

/// A named loop of steps bound to an output device and channel.
#[derive(Clone, Debug)]
pub struct Sequence {
    pub name: String,
    pub midi_dev: String,
    pub channel: MidiChannel,
    pub steps: Vec<Step>,
}

impl Sequence {
    /// A sequence always keeps at least one step, and all its notes stay in
    /// the MIDI range.
    pub open spec fn wf(self) -> bool {
        &&& self.steps@.len() >= 1
        &&& forall|i: int| 0 <= i < self.steps@.len() ==> (#[trigger] self.steps@[i]).wf()
    }

    /// A fresh sequence bound to a device and channel, with the default loop
    /// of sixteen empty steps: no notes, both command slots empty.
    pub fn new(name: String, midi_dev: String, channel: MidiChannel) -> (r: Self)
        ensures
            r.name@ == name@,
            r.midi_dev@ == midi_dev@,
            r.channel == channel,
            r.steps@.len() == crate::clock::N_STEPS,
            forall|i: int|
                0 <= i < r.steps@.len() ==> (#[trigger] r.steps@[i]).notes@.len() == 0
                    && r.steps@[i].cmd_a is NoCmd && r.steps@[i].cmd_b is NoCmd,
            r.wf(),
    {
        let mut steps: Vec<Step> = Vec::new();
        let mut i: usize = 0;
        while i < crate::clock::N_STEPS
            invariant
                i <= crate::clock::N_STEPS,
                steps@.len() == i,
                forall|k: int|
                    0 <= k < i ==> (#[trigger] steps@[k]).notes@.len() == 0 && steps@[k].cmd_a
                        is NoCmd && steps@[k].cmd_b is NoCmd && steps@[k].wf(),
            decreases crate::clock::N_STEPS - i,
        {
            steps.push(Step::new());
            i += 1;
        }
        Sequence { name, midi_dev, channel, steps }
    }
}

impl Default for Sequence {
    /// An unnamed sequence for the pass-through device on channel 1, its
    /// sixteen steps empty of notes and commands alike.
    fn default() -> (r: Self)
        ensures
            r.name@ == Seq::<char>::empty(),
            r.midi_dev@ == "MIDI THRU"@,
            r.channel == MidiChannel::Ch1,
            r.steps@.len() == crate::clock::N_STEPS,
            forall|i: int|
                0 <= i < r.steps@.len() ==> (#[trigger] r.steps@[i]).notes@.len() == 0
                    && r.steps@[i].cmd_a is NoCmd && r.steps@[i].cmd_b is NoCmd,
            r.wf(),
    {
        Sequence::new(String::new(), "MIDI THRU".to_owned(), MidiChannel::Ch1)
    }
}

/// Whether two steps hold the same notes and the same commands.
pub open spec fn step_models(a: Step, b: Step) -> bool {
    &&& a.notes@ == b.notes@
    &&& cmd_matches(a.cmd_a, b.cmd_a)
    &&& cmd_matches(a.cmd_b, b.cmd_b)
}

/// Whether two sequences are field-wise equal: same name, device, channel,
/// and step-for-step the same notes and commands.
pub open spec fn sequence_models(a: Sequence, b: Sequence) -> bool {
    &&& a.name@ == b.name@
    &&& a.midi_dev@ == b.midi_dev@
    &&& a.channel == b.channel
    &&& a.steps@.len() == b.steps@.len()
    &&& forall|i: int| 0 <= i < a.steps@.len() ==> step_models(#[trigger] a.steps@[i], b.steps@[i])
}

/// Copy a tracker command.
pub fn clone_cmd(c: &TrackerCmd) -> (r: TrackerCmd)
    ensures
        cmd_matches(r, *c),
{
    match c {
        TrackerCmd::NoCmd => TrackerCmd::NoCmd,
        TrackerCmd::Chord { chord } => {
            let copy = chord.clone();
            proof {
                assert forall|i: int| 0 <= i < chord@.len() implies copy@[i] == chord@[i] by {
                    assert(vstd::pervasive::cloned::<i8>(chord@[i], copy@[i]));
                }
                assert(copy@ =~= chord@);
            }
            TrackerCmd::Chord { chord: copy }
        },
        TrackerCmd::Roll { times } => TrackerCmd::Roll { times: *times },
        TrackerCmd::Repeat { times } => TrackerCmd::Repeat { times: *times },
        TrackerCmd::HoldFor { notes } => TrackerCmd::HoldFor { notes: *notes },
        TrackerCmd::Swing { amt } => TrackerCmd::Swing { amt: *amt },
        TrackerCmd::Panic => TrackerCmd::Panic,
        TrackerCmd::MidiCmd { cc_param, arg } => TrackerCmd::MidiCmd {
            cc_param: *cc_param,
            arg: *arg,
        },
    }
}

/// Copy a step, notes and commands alike.
pub fn clone_step(s: &Step) -> (r: Step)
    ensures
        step_models(r, *s),
{
    let notes = s.notes.clone();
    proof {
        assert forall|i: int| 0 <= i < s.notes@.len() implies notes@[i] == s.notes@[i] by {
            assert(vstd::pervasive::cloned::<NoteSlot>(s.notes@[i], notes@[i]));
        }
        assert(notes@ =~= s.notes@);
    }
    Step { notes, cmd_a: clone_cmd(&s.cmd_a), cmd_b: clone_cmd(&s.cmd_b) }
}

/// Copy a sequence field by field.
pub fn clone_sequence(s: &Sequence) -> (r: Sequence)
    ensures
        sequence_models(r, *s),
{
    let mut steps: Vec<Step> = Vec::new();
    let mut i: usize = 0;
    while i < s.steps.len()
        invariant
            i <= s.steps@.len(),
            steps@.len() == i,
            forall|k: int| 0 <= k < i ==> step_models(#[trigger] steps@[k], s.steps@[k]),
        decreases s.steps@.len() - i,
    {
        let step = clone_step(&s.steps[i]);
        steps.push(step);
        i += 1;
    }
    Sequence {
        name: s.name.clone(),
        midi_dev: s.midi_dev.clone(),
        channel: s.channel,
        steps,
    }
}

/// Field-wise equality carries well-formedness with it.
pub proof fn lemma_models_wf(a: Sequence, b: Sequence)
    requires
        sequence_models(a, b),
        b.wf(),
    ensures
        a.wf(),
{
    assert forall|i: int| 0 <= i < a.steps@.len() implies (#[trigger] a.steps@[i]).wf() by {
        assert(step_models(a.steps@[i], b.steps@[i]));
        assert(b.steps@[i].wf());
    }
}

} // verus!
