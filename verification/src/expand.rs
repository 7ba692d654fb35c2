//! The note expansion engine: a pure function from one step, the current
//! tick and the clock resolution to concrete note events, control-change
//! events, an optional retrigger plan and a panic flag.

use vstd::prelude::*;

use crate::notes::{chord_note, chord_note_spec};
use crate::types::{NoteSlot, Step, TrackerCmd};

verus! {

/// One concrete note-on together with the tick its note-off is due on.
#[derive(Clone, Copy, Debug, PartialEq, Eq, Structural)]
pub struct NoteEvent {
    pub note: u8,
    pub velocity: u8,
    pub duration: crate::types::NoteDuration,
    pub off_tick: u64,
}

/// One concrete control-change message.
#[derive(Clone, Copy, Debug, PartialEq, Eq, Structural)]
pub struct CcEvent {
    pub control: u8,
    pub value: u8,
}

/// How a step's notes are to be struck again: `times` more strikes, on
/// half-steps for a roll and full steps for a repeat; `holding` suppresses
/// the early release a roll otherwise gets.
#[derive(Clone, Copy, Debug, PartialEq, Eq, Structural)]
pub struct RetrigPlan {
    pub roll: bool,
    pub times: u8,
    pub holding: bool,
}

/// Everything one step expands to.
#[derive(Clone, Debug)]
pub struct Expansion {
    pub events: Vec<NoteEvent>,
    pub retrig: Option<RetrigPlan>,
    pub ccs: Vec<CcEvent>,
    pub panic: bool,
}

/// Panic in either command slot flushes all held notes.
pub open spec fn has_panic(a: TrackerCmd, b: TrackerCmd) -> bool {
    a is Panic || b is Panic
}

/// The number of extra steps the slots ask the notes to be held for; with
/// both slots holding, the larger value wins.
pub open spec fn hold_steps(a: TrackerCmd, b: TrackerCmd) -> Option<u8> {
    match (a, b) {
        (TrackerCmd::HoldFor { notes: n1 }, TrackerCmd::HoldFor { notes: n2 }) => Some(
            if n1 >= n2 {
                n1
            } else {
                n2
            },
        ),
        (TrackerCmd::HoldFor { notes: n }, _) => Some(n),
        (_, TrackerCmd::HoldFor { notes: n }) => Some(n),
        _ => None,
    }
}

/// How many ticks a struck note is held: one sixteenth by default; a hold of
/// `n > 0` extra steps stretches it to `n + 1` sixteenths, and a hold of zero
/// to one and a half.
pub open spec fn hold_amt_spec(a: TrackerCmd, b: TrackerCmd, sixteenth: u64) -> int {
    match hold_steps(a, b) {
        Some(n) => if n > 0 {
            sixteenth * (n + 1)
        } else {
            sixteenth + sixteenth / 2
        },
        None => sixteenth as int,
    }
}

/// Tick arithmetic that wraps instead of overflowing.
pub open spec fn wrap_add_spec(t: u64, d: u64) -> u64 {
    if d <= u64::MAX - t {
        (t + d) as u64
    } else {
        (d - (u64::MAX - t)) as u64
    }
}

/// Add a distance to a tick, wrapping instead of overflowing.
pub fn wrap_add(t: u64, d: u64) -> (r: u64)
    ensures
        r == wrap_add_spec(t, d),
{
    if d <= u64::MAX - t {
        t + d
    } else {
        d - (u64::MAX - t)
    }
}

/// The chord offsets both slots contribute, the first slot's first.
pub open spec fn chord_offsets(a: TrackerCmd, b: TrackerCmd) -> Seq<i8> {
    (match a {
        TrackerCmd::Chord { chord } => chord@,
        _ => Seq::empty(),
    }) + (match b {
        TrackerCmd::Chord { chord } => chord@,
        _ => Seq::empty(),
    })
}

/// The retrigger plan the two slots merge to: the larger count wins between
/// two rolls or two repeats, a roll wins over a repeat, and a hold alongside
/// either marks the plan as holding.
pub open spec fn plan_spec(a: TrackerCmd, b: TrackerCmd) -> Option<RetrigPlan> {
    match (a, b) {
        (TrackerCmd::Roll { times: t1 }, TrackerCmd::Roll { times: t2 }) => Some(
            RetrigPlan {
                roll: true,
                times: if t1 >= t2 {
                    t1
                } else {
                    t2
                },
                holding: false,
            },
        ),
        (TrackerCmd::Repeat { times: t1 }, TrackerCmd::Repeat { times: t2 }) => Some(
            RetrigPlan {
                roll: false,
                times: if t1 >= t2 {
                    t1
                } else {
                    t2
                },
                holding: false,
            },
        ),
        (TrackerCmd::Roll { times }, TrackerCmd::Repeat { .. }) => Some(
            RetrigPlan { roll: true, times, holding: false },
        ),
        (TrackerCmd::Repeat { .. }, TrackerCmd::Roll { times }) => Some(
            RetrigPlan { roll: true, times, holding: false },
        ),
        (TrackerCmd::Roll { times }, TrackerCmd::HoldFor { .. }) => Some(
            RetrigPlan { roll: true, times, holding: true },
        ),
        (TrackerCmd::HoldFor { .. }, TrackerCmd::Roll { times }) => Some(
            RetrigPlan { roll: true, times, holding: true },
        ),
        (TrackerCmd::Repeat { times }, TrackerCmd::HoldFor { .. }) => Some(
            RetrigPlan { roll: false, times, holding: true },
        ),
        (TrackerCmd::HoldFor { .. }, TrackerCmd::Repeat { times }) => Some(
            RetrigPlan { roll: false, times, holding: true },
        ),
        (TrackerCmd::Roll { times }, _) => Some(RetrigPlan { roll: true, times, holding: false }),
        (_, TrackerCmd::Roll { times }) => Some(RetrigPlan { roll: true, times, holding: false }),
        (TrackerCmd::Repeat { times }, _) => Some(
            RetrigPlan { roll: false, times, holding: false },
        ),
        (_, TrackerCmd::Repeat { times }) => Some(
            RetrigPlan { roll: false, times, holding: false },
        ),
        _ => None,
    }
}

/// The control-change events the two slots emit, the first slot's first.
pub open spec fn cc_spec(a: TrackerCmd, b: TrackerCmd) -> Seq<CcEvent> {
    (match a {
        TrackerCmd::MidiCmd { cc_param, arg } => seq![CcEvent { control: cc_param, value: arg }],
        _ => Seq::empty(),
    }) + (match b {
        TrackerCmd::MidiCmd { cc_param, arg } => seq![CcEvent { control: cc_param, value: arg }],
        _ => Seq::empty(),
    })
}

/// The velocity a note slot sounds at: its own, or 85 where unset.
pub open spec fn vel_of(s: NoteSlot) -> u8 {
    match s.velocity {
        Some(v) => v,
        None => 85,
    }
}

/// The notes one slot expands to: the slot's own note, then one chord note
/// per offset, all at the slot's velocity and length.
pub open spec fn slot_notes(s: NoteSlot, offs: Seq<i8>) -> Seq<(u8, u8, crate::types::NoteDuration)> {
    seq![(s.note, vel_of(s), s.duration)] + Seq::new(
        offs.len(),
        |k: int| (chord_note_spec(s.note as int, offs[k] as int) as u8, vel_of(s), s.duration),
    )
}

/// The notes a whole step expands to, slot by slot.
pub open spec fn expanded_notes(notes: Seq<NoteSlot>, offs: Seq<i8>) -> Seq<
    (u8, u8, crate::types::NoteDuration),
>
    decreases notes.len(),
{
    if notes.len() == 0 {
        Seq::empty()
    } else {
        expanded_notes(notes.drop_last(), offs) + slot_notes(notes.last(), offs)
    }
}

/// The note events for a list of expanded notes, all sharing one note-off
/// tick.
pub open spec fn ev_seq(ps: Seq<(u8, u8, crate::types::NoteDuration)>, off: u64) -> Seq<
    NoteEvent,
> {
    Seq::new(
        ps.len(),
        |k: int| NoteEvent { note: ps[k].0, velocity: ps[k].1, duration: ps[k].2, off_tick: off },
    )
}

/// Expand one step at the given tick: every slot note plus its chord notes
/// becomes a note event sharing the hold-derived note-off tick; roll, repeat
/// and hold commands merge into a retrigger plan; control-change commands
/// pass through; panic in either slot raises the flag.
pub fn expand(step: &Step, tick: u64, ppq: u64) -> (r: Expansion)
    requires
        step.wf(),
        ppq >= 8,
        ppq <= 0xffff_ffff,
    ensures
        r.panic == has_panic(step.cmd_a, step.cmd_b),
        r.retrig == plan_spec(step.cmd_a, step.cmd_b),
        r.ccs@ == cc_spec(step.cmd_a, step.cmd_b),
        r.events@ == ev_seq(
            expanded_notes(step.notes@, chord_offsets(step.cmd_a, step.cmd_b)),
            wrap_add_spec(tick, hold_amt_spec(step.cmd_a, step.cmd_b, ppq / 4) as u64),
        ),
{
    let sixteenth: u64 = ppq / 4;
    let amt: u64 = match hold_steps_exec(&step.cmd_a, &step.cmd_b) {
        Some(n) => {
            if n > 0 {
                proof {
                    assert(sixteenth * ((n as int) + 1) <= 0x4000_0000 * 256) by (nonlinear_arith)
                        requires
                            sixteenth <= 0x4000_0000,
                            0 < n <= 255,
                    ;
                }
                sixteenth * ((n as u64) + 1)
            } else {
                sixteenth + sixteenth / 2
            }
        },
        None => sixteenth,
    };
    let off = wrap_add(tick, amt);

    let mut offs: Vec<i8> = Vec::new();
    if let TrackerCmd::Chord { chord } = &step.cmd_a {
        let mut k: usize = 0;
        while k < chord.len()
            invariant
                k <= chord@.len(),
                offs@ == chord@.take(k as int),
            decreases chord@.len() - k,
        {
            proof {
                assert(chord@.take(k + 1) =~= chord@.take(k as int).push(chord@[k as int]));
            }
            let o = chord[k];
            offs.push(o);
            k += 1;
        }
        proof {
            assert(chord@.take(chord@.len() as int) =~= chord@);
        }
    }
    let ghost offs_a = offs@;
    if let TrackerCmd::Chord { chord } = &step.cmd_b {
        let mut k: usize = 0;
        while k < chord.len()
            invariant
                k <= chord@.len(),
                offs@ == offs_a + chord@.take(k as int),
            decreases chord@.len() - k,
        {
            proof {
                assert(chord@.take(k + 1) =~= chord@.take(k as int).push(chord@[k as int]));
                assert(offs_a + chord@.take(k + 1) =~= (offs_a + chord@.take(k as int)).push(
                    chord@[k as int],
                ));
            }
            let o = chord[k];
            offs.push(o);
            k += 1;
        }
        proof {
            assert(chord@.take(chord@.len() as int) =~= chord@);
        }
    } else {
        proof {
            assert(offs@ =~= offs_a + Seq::<i8>::empty());
        }
    }
    proof {
        assert(offs@ == chord_offsets(step.cmd_a, step.cmd_b));
    }

    let ghost goal = expanded_notes(step.notes@, offs@);
    let mut events: Vec<NoteEvent> = Vec::new();
    let mut i: usize = 0;
    while i < step.notes.len()
        invariant
            i <= step.notes@.len(),
            step.wf(),
            offs@ == chord_offsets(step.cmd_a, step.cmd_b),
            events@ == ev_seq(expanded_notes(step.notes@.take(i as int), offs@), off),
        decreases step.notes@.len() - i,
    {
        let slot = step.notes[i];
        proof {
            assert(step.notes@[i as int].note <= 127);
        }
        let vel = match slot.velocity {
            Some(v) => v,
            None => 85,
        };
        let ghost pre_events = events@;
        events.push(NoteEvent { note: slot.note, velocity: vel, duration: slot.duration, off_tick: off });
        let mut j: usize = 0;
        while j < offs.len()
            invariant
                j <= offs@.len(),
                slot == step.notes@[i as int],
                i < step.notes@.len(),
                slot.note <= 127,
                vel == vel_of(slot),
                events@ == ev_seq(
                    expanded_notes(step.notes@.take(i as int), offs@) + slot_notes(
                        slot,
                        offs@.take(j as int),
                    ),
                    off,
                ),
            decreases offs@.len() - j,
        {
            let n = chord_note(slot.note, offs[j]);
            let ghost before = events@;
            events.push(NoteEvent { note: n, velocity: vel, duration: slot.duration, off_tick: off });
            proof {
                let base = expanded_notes(step.notes@.take(i as int), offs@);
                assert(slot_notes(slot, offs@.take(j + 1)) =~= slot_notes(
                    slot,
                    offs@.take(j as int),
                ).push((n, vel, slot.duration)));
                assert(events@ =~= ev_seq(base + slot_notes(slot, offs@.take(j + 1)), off));
            }
            j += 1;
        }
        proof {
            assert(offs@.take(offs@.len() as int) =~= offs@);
            assert(step.notes@.take(i + 1).drop_last() =~= step.notes@.take(i as int));
            assert(step.notes@.take(i + 1).last() == step.notes@[i as int]);
            assert(expanded_notes(step.notes@.take(i + 1), offs@) == expanded_notes(
                step.notes@.take(i as int),
                offs@,
            ) + slot_notes(slot, offs@));
        }
        i += 1;
    }
    proof {
        assert(step.notes@.take(step.notes@.len() as int) =~= step.notes@);
    }

    let mut ccs: Vec<CcEvent> = Vec::new();
    if let TrackerCmd::MidiCmd { cc_param, arg } = &step.cmd_a {
        ccs.push(CcEvent { control: *cc_param, value: *arg });
    }
    if let TrackerCmd::MidiCmd { cc_param, arg } = &step.cmd_b {
        ccs.push(CcEvent { control: *cc_param, value: *arg });
    }
    proof {
        assert(ccs@ =~= cc_spec(step.cmd_a, step.cmd_b));
    }

    let retrig = plan_exec(&step.cmd_a, &step.cmd_b);

    let panic_a = match &step.cmd_a {
        TrackerCmd::Panic => true,
        _ => false,
    };
    let panic_b = match &step.cmd_b {
        TrackerCmd::Panic => true,
        _ => false,
    };

    Expansion { events, retrig, ccs, panic: panic_a || panic_b }
}

/// How many ticks a struck note is held, as an executable computation.
pub fn hold_amt(a: &TrackerCmd, b: &TrackerCmd, sixteenth: u64) -> (r: u64)
    requires
        sixteenth <= 0x4000_0000,
    ensures
        r == hold_amt_spec(*a, *b, sixteenth),
{
    match hold_steps_exec(a, b) {
        Some(n) => {
            if n > 0 {
                proof {
                    assert(sixteenth * ((n as int) + 1) <= 0x4000_0000 * 256) by (nonlinear_arith)
                        requires
                            sixteenth <= 0x4000_0000,
                            0 < n <= 255,
                    ;
                }
                sixteenth * ((n as u64) + 1)
            } else {
                sixteenth + sixteenth / 2
            }
        },
        None => sixteenth,
    }
}

/// The hold the two slots merge to.
fn hold_steps_exec(a: &TrackerCmd, b: &TrackerCmd) -> (r: Option<u8>)
    ensures
        r == hold_steps(*a, *b),
{
    match (a, b) {
        (TrackerCmd::HoldFor { notes: n1 }, TrackerCmd::HoldFor { notes: n2 }) => Some(
            if *n1 >= *n2 {
                *n1
            } else {
                *n2
            },
        ),
        (TrackerCmd::HoldFor { notes: n }, _) => Some(*n),
        (_, TrackerCmd::HoldFor { notes: n }) => Some(*n),
        _ => None,
    }
}

/// The retrigger plan the two slots merge to.
fn plan_exec(a: &TrackerCmd, b: &TrackerCmd) -> (r: Option<RetrigPlan>)
    ensures
        r == plan_spec(*a, *b),
{
    match (a, b) {
        (TrackerCmd::Roll { times: t1 }, TrackerCmd::Roll { times: t2 }) => Some(
            RetrigPlan {
                roll: true,
                times: if *t1 >= *t2 {
                    *t1
                } else {
                    *t2
                },
                holding: false,
            },
        ),
        (TrackerCmd::Repeat { times: t1 }, TrackerCmd::Repeat { times: t2 }) => Some(
            RetrigPlan {
                roll: false,
                times: if *t1 >= *t2 {
                    *t1
                } else {
                    *t2
                },
                holding: false,
            },
        ),
        (TrackerCmd::Roll { times }, TrackerCmd::Repeat { .. }) => Some(
            RetrigPlan { roll: true, times: *times, holding: false },
        ),
        (TrackerCmd::Repeat { .. }, TrackerCmd::Roll { times }) => Some(
            RetrigPlan { roll: true, times: *times, holding: false },
        ),
        (TrackerCmd::Roll { times }, TrackerCmd::HoldFor { .. }) => Some(
            RetrigPlan { roll: true, times: *times, holding: true },
        ),
        (TrackerCmd::HoldFor { .. }, TrackerCmd::Roll { times }) => Some(
            RetrigPlan { roll: true, times: *times, holding: true },
        ),
        (TrackerCmd::Repeat { times }, TrackerCmd::HoldFor { .. }) => Some(
            RetrigPlan { roll: false, times: *times, holding: true },
        ),
        (TrackerCmd::HoldFor { .. }, TrackerCmd::Repeat { times }) => Some(
            RetrigPlan { roll: false, times: *times, holding: true },
        ),
        (TrackerCmd::Roll { times }, _) => Some(
            RetrigPlan { roll: true, times: *times, holding: false },
        ),
        (_, TrackerCmd::Roll { times }) => Some(
            RetrigPlan { roll: true, times: *times, holding: false },
        ),
        (TrackerCmd::Repeat { times }, _) => Some(
            RetrigPlan { roll: false, times: *times, holding: false },
        ),
        (_, TrackerCmd::Repeat { times }) => Some(
            RetrigPlan { roll: false, times: *times, holding: false },
        ),
        _ => None,
    }
}

/// Every note event an expansion yields stays in the MIDI range.
pub proof fn lemma_expanded_notes_in_range(notes: Seq<NoteSlot>, offs: Seq<i8>)
    requires
        forall|i: int| 0 <= i < notes.len() ==> (#[trigger] notes[i]).note <= 127,
    ensures
        forall|k: int|
            0 <= k < expanded_notes(notes, offs).len() ==> (#[trigger] expanded_notes(notes, offs)[
            k]).0 <= 127,
    decreases notes.len(),
{
    if notes.len() > 0 {
        let pre = notes.drop_last();
        lemma_expanded_notes_in_range(pre, offs);
        let s = notes.last();
        let tailseq = slot_notes(s, offs);
        assert forall|k: int| 0 <= k < tailseq.len() implies (#[trigger] tailseq[k]).0 <= 127 by {
            if k > 0 {
                crate::notes::lemma_chord_note_in_range(s.note as int, offs[k - 1] as int);
            }
        }
        let e = expanded_notes(notes, offs);
        let ep = expanded_notes(pre, offs);
        assert forall|k: int| 0 <= k < e.len() implies (#[trigger] e[k]).0 <= 127 by {
            if k < ep.len() {
                assert(ep[k].0 <= 127);
            } else {
                assert(e[k] == tailseq[k - ep.len()]);
            }
        }
    }
}

} // verus!
