//! The step playback engine: on every clock pulse it retires due note-offs,
//! fires pending rolls and repeats, and on step boundaries migrates queued
//! sequences, honours queued stops, and expands the current step of every
//! playing sequence into one outbound batch.

use vstd::prelude::*;

use crate::expand::{
    chord_offsets, expand, expanded_notes, has_panic, hold_amt_spec, plan_spec, cc_spec, vel_of,
    wrap_add, wrap_add_spec, RetrigPlan,
};
use crate::sequencer::{
    contains_name, has_seq, lemma_idx_of, lemma_mem_take_step, mem_name, push_unique, seq_at,
    uniq_names, HeldNote, Retrig, SequencerState,
};
use crate::types::{MidiMsg, MidiReqBody, NoteDuration, Sequence, Step};

verus! {

/// What one clock pulse produces: freshly struck messages (note-ons and
/// control changes), releases (note-offs), and whether a binary sync pulse
/// goes out to the broadcast bus — on thirty-second-note boundaries while
/// anything plays or waits to play.
#[derive(Debug)]
pub struct TickOutput {
    pub struck: Vec<MidiReqBody>,
    pub released: Vec<MidiReqBody>,
    pub sync: bool,
}

/// The held notes that stay: every one whose note-off is not due this tick.
pub open spec fn kept_held_spec(h: Seq<HeldNote>, tick: u64) -> Seq<HeldNote>
    decreases h.len(),
{
    if h.len() == 0 {
        Seq::empty()
    } else if h.last().off_tick == tick {
        kept_held_spec(h.drop_last(), tick)
    } else {
        kept_held_spec(h.drop_last(), tick).push(h.last())
    }
}

/// The note-off message a held note releases with.
pub open spec fn off_msg_spec(h: HeldNote) -> MidiReqBody {
    MidiReqBody { midi_dev: h.midi_dev, channel: h.channel, msg: MidiMsg::StopNote { note: h.note } }
}

/// The note-offs due this tick, in list order.
pub open spec fn due_msgs_spec(h: Seq<HeldNote>, tick: u64) -> Seq<MidiReqBody>
    decreases h.len(),
{
    if h.len() == 0 {
        Seq::empty()
    } else if h.last().off_tick == tick {
        due_msgs_spec(h.drop_last(), tick).push(off_msg_spec(h.last()))
    } else {
        due_msgs_spec(h.drop_last(), tick)
    }
}

/// Whether a pending retrigger fires on this pulse: it has strikes left, and
/// the pulse is a half-step for a roll or a full step for a repeat.
pub open spec fn retrig_fires(r: Retrig, step: bool, half: bool) -> bool {
    r.times > 0 && (if r.roll {
        half
    } else {
        step
    })
}

/// The note-on message a retrigger strikes with.
pub open spec fn retrig_msg_spec(r: Retrig) -> MidiReqBody {
    MidiReqBody {
        midi_dev: r.midi_dev,
        channel: r.channel,
        msg: MidiMsg::PlayNote { note: r.note, velocity: r.velocity, duration: NoteDuration::Sn(1) },
    }
}

/// The messages the firing retriggers strike, in list order.
pub open spec fn fired_msgs_spec(rs: Seq<Retrig>, step: bool, half: bool) -> Seq<MidiReqBody>
    decreases rs.len(),
{
    if rs.len() == 0 {
        Seq::empty()
    } else if retrig_fires(rs.last(), step, half) {
        fired_msgs_spec(rs.drop_last(), step, half).push(retrig_msg_spec(rs.last()))
    } else {
        fired_msgs_spec(rs.drop_last(), step, half)
    }
}

/// The held note a firing retrigger schedules.
pub open spec fn retrig_held_spec(r: Retrig, tick: u64) -> HeldNote {
    HeldNote {
        source: r.source,
        midi_dev: r.midi_dev,
        channel: r.channel,
        note: r.note,
        velocity: r.velocity,
        off_tick: wrap_add_spec(tick, r.hold_len),
    }
}

/// The held notes the firing retriggers schedule, in list order.
pub open spec fn fired_held_spec(rs: Seq<Retrig>, step: bool, half: bool, tick: u64) -> Seq<
    HeldNote,
>
    decreases rs.len(),
{
    if rs.len() == 0 {
        Seq::empty()
    } else if retrig_fires(rs.last(), step, half) {
        fired_held_spec(rs.drop_last(), step, half, tick).push(retrig_held_spec(rs.last(), tick))
    } else {
        fired_held_spec(rs.drop_last(), step, half, tick)
    }
}

/// The retriggers that remain after this pulse: a firing one loses a strike
/// and leaves once none are left, one with no strikes left is discarded
/// without striking, and the rest stay untouched.
pub open spec fn kept_retrigs_spec(rs: Seq<Retrig>, step: bool, half: bool) -> Seq<Retrig>
    decreases rs.len(),
{
    if rs.len() == 0 {
        Seq::empty()
    } else {
        let pre = kept_retrigs_spec(rs.drop_last(), step, half);
        let r = rs.last();
        if retrig_fires(r, step, half) {
            if r.times > 1 {
                pre.push(
                    Retrig {
                        source: r.source,
                        midi_dev: r.midi_dev,
                        channel: r.channel,
                        note: r.note,
                        velocity: r.velocity,
                        hold_len: r.hold_len,
                        times: (r.times - 1) as u8,
                        roll: r.roll,
                    },
                )
            } else {
                pre
            }
        } else if r.times > 0 {
            pre.push(r)
        } else {
            pre
        }
    }
}

/// The step a sequence plays at step counter `i`: loops of different lengths
/// deliberately drift apart.
pub open spec fn step_of(sq: Sequence, i: u64) -> Step {
    sq.steps@[i as int % sq.steps@.len() as int]
}

/// The note-on messages one sequence strikes at step counter `i`.
pub open spec fn strike_msgs_of(sq: Sequence, i: u64, tick: u64, ppq: u64) -> Seq<MidiReqBody> {
    let st = step_of(sq, i);
    let ps = expanded_notes(st.notes@, chord_offsets(st.cmd_a, st.cmd_b));
    Seq::new(
        ps.len(),
        |k: int|
            MidiReqBody {
                midi_dev: sq.midi_dev,
                channel: sq.channel,
                msg: MidiMsg::PlayNote { note: ps[k].0, velocity: ps[k].1, duration: ps[k].2 },
            },
    )
}

/// The control-change messages one sequence emits at step counter `i`.
pub open spec fn strike_cc_of(sq: Sequence, i: u64) -> Seq<MidiReqBody> {
    let st = step_of(sq, i);
    let cs = cc_spec(st.cmd_a, st.cmd_b);
    Seq::new(
        cs.len(),
        |k: int|
            MidiReqBody {
                midi_dev: sq.midi_dev,
                channel: sq.channel,
                msg: MidiMsg::CC { control: cs[k].control, value: cs[k].value },
            },
    )
}

/// The held notes one sequence schedules at step counter `i`: one per struck
/// note, all sharing the hold-derived note-off tick.
pub open spec fn strike_held_of(name: String, sq: Sequence, i: u64, tick: u64, ppq: u64) -> Seq<
    HeldNote,
> {
    let st = step_of(sq, i);
    let ps = expanded_notes(st.notes@, chord_offsets(st.cmd_a, st.cmd_b));
    let off = wrap_add_spec(tick, hold_amt_spec(st.cmd_a, st.cmd_b, ppq / 4) as u64);
    Seq::new(
        ps.len(),
        |k: int|
            HeldNote {
                source: name,
                midi_dev: sq.midi_dev,
                channel: sq.channel,
                note: ps[k].0,
                velocity: ps[k].1,
                off_tick: off,
            },
    )
}

/// How long a retriggered note is held: a roll's strikes release after half a
/// step unless a hold keeps them down; a repeat's strikes keep the full
/// hold-derived length.
pub open spec fn retrig_hold_len_spec(plan: RetrigPlan, amt: u64, sixteenth: u64) -> u64 {
    if plan.roll && !plan.holding {
        (sixteenth / 2) as u64
    } else {
        amt
    }
}

/// The retriggers one sequence schedules at step counter `i`: one per note
/// slot of the step (chord notes are not retriggered).
pub open spec fn strike_retrigs_of(name: String, sq: Sequence, i: u64, tick: u64, ppq: u64) -> Seq<
    Retrig,
> {
    let st = step_of(sq, i);
    match plan_spec(st.cmd_a, st.cmd_b) {
        Some(plan) => {
            let amt = hold_amt_spec(st.cmd_a, st.cmd_b, ppq / 4) as u64;
            Seq::new(
                st.notes@.len(),
                |k: int|
                    Retrig {
                        source: name,
                        midi_dev: sq.midi_dev,
                        channel: sq.channel,
                        note: st.notes@[k].note,
                        velocity: vel_of(st.notes@[k]),
                        hold_len: retrig_hold_len_spec(plan, amt, (ppq / 4) as u64),
                        times: plan.times,
                        roll: plan.roll,
                    },
            )
        },
        None => Seq::empty(),
    }
}

/// The whole batch the playing sequences strike at step counter `i`, in play
/// order: each sequence's note-ons, then its control changes.
pub open spec fn batch_spec(
    seqs: Seq<Sequence>,
    playing: Seq<String>,
    i: u64,
    tick: u64,
    ppq: u64,
) -> Seq<MidiReqBody>
    decreases playing.len(),
{
    if playing.len() == 0 {
        Seq::empty()
    } else {
        let rest = batch_spec(seqs, playing.drop_last(), i, tick, ppq);
        if has_seq(seqs, playing.last()@) {
            let sq = seq_at(seqs, playing.last()@);
            rest + strike_msgs_of(sq, i, tick, ppq) + strike_cc_of(sq, i)
        } else {
            rest
        }
    }
}

/// All held notes the playing sequences schedule at step counter `i`.
pub open spec fn struck_held_spec(
    seqs: Seq<Sequence>,
    playing: Seq<String>,
    i: u64,
    tick: u64,
    ppq: u64,
) -> Seq<HeldNote>
    decreases playing.len(),
{
    if playing.len() == 0 {
        Seq::empty()
    } else {
        let rest = struck_held_spec(seqs, playing.drop_last(), i, tick, ppq);
        if has_seq(seqs, playing.last()@) {
            rest + strike_held_of(playing.last(), seq_at(seqs, playing.last()@), i, tick, ppq)
        } else {
            rest
        }
    }
}

/// All retriggers the playing sequences schedule at step counter `i`.
pub open spec fn struck_retrigs_spec(
    seqs: Seq<Sequence>,
    playing: Seq<String>,
    i: u64,
    tick: u64,
    ppq: u64,
) -> Seq<Retrig>
    decreases playing.len(),
{
    if playing.len() == 0 {
        Seq::empty()
    } else {
        let rest = struck_retrigs_spec(seqs, playing.drop_last(), i, tick, ppq);
        if has_seq(seqs, playing.last()@) {
            rest + strike_retrigs_of(playing.last(), seq_at(seqs, playing.last()@), i, tick, ppq)
        } else {
            rest
        }
    }
}

/// Whether any playing sequence's current step raises the panic flag.
pub open spec fn panic_spec(seqs: Seq<Sequence>, playing: Seq<String>, i: u64) -> bool {
    exists|k: int|
        0 <= k < playing.len() && has_seq(seqs, (#[trigger] playing[k])@) && has_panic(
            step_of(seq_at(seqs, playing[k]@), i).cmd_a,
            step_of(seq_at(seqs, playing[k]@), i).cmd_b,
        )
}

/// The note-off messages a panic flush sends: one per held note, then one
/// per pending retrigger.
pub open spec fn flush_msgs_spec(h: Seq<HeldNote>, rs: Seq<Retrig>) -> Seq<MidiReqBody> {
    Seq::new(h.len(), |k: int| off_msg_spec(h[k])) + Seq::new(
        rs.len(),
        |k: int|
            MidiReqBody {
                midi_dev: rs[k].midi_dev,
                channel: rs[k].channel,
                msg: MidiMsg::StopNote { note: rs[k].note },
            },
    )
}

/// Whether the current tick lands on a step boundary.
pub open spec fn on_step_tick(s: SequencerState, ppq: u64) -> bool {
    s.tick as int % (ppq as int / 4) == 0
}

/// Whether the current tick lands on a half-step boundary (a step counts).
pub open spec fn on_half_tick(s: SequencerState, ppq: u64) -> bool {
    on_step_tick(s, ppq) || s.tick as int % (ppq as int / 8) == 0
}

/// The step counter the current tick falls in.
pub open spec fn step_i_of(s: SequencerState, ppq: u64) -> u64 {
    (s.tick as int / (ppq as int / 4)) as u64
}

/// Whether queued sequences migrate into the playing set on this pulse: on a
/// step boundary, at the top of a sixteen-step bar or whenever nothing plays.
pub open spec fn migrate_cond(s: SequencerState, ppq: u64) -> bool {
    on_step_tick(s, ppq) && (step_i_of(s, ppq) as int % 16 == 0 || s.playing@.len() == 0)
}

/// Whether a queued stop takes hold of a name on this step: the name asked to
/// stop and its own loop is at its boundary.
pub open spec fn stop_now(seqs: Seq<Sequence>, stops: Seq<String>, x: Seq<char>, i: u64) -> bool {
    mem_name(stops, x) && i as int % seq_at(seqs, x).steps@.len() as int == 0
}

/// The playing list with every name a queued stop takes hold of struck out.
pub open spec fn keep_playing_spec(
    p: Seq<String>,
    seqs: Seq<Sequence>,
    stops: Seq<String>,
    i: u64,
) -> Seq<String>
    decreases p.len(),
{
    if p.len() == 0 {
        Seq::empty()
    } else if stop_now(seqs, stops, p.last()@, i) {
        keep_playing_spec(p.drop_last(), seqs, stops, i)
    } else {
        keep_playing_spec(p.drop_last(), seqs, stops, i).push(p.last())
    }
}

/// Honouring queued stops removes exactly the stopped names and keeps
/// uniqueness.
pub proof fn lemma_keep_playing(p: Seq<String>, seqs: Seq<Sequence>, stops: Seq<String>, i: u64)
    ensures
        forall|x: Seq<char>|
            mem_name(keep_playing_spec(p, seqs, stops, i), x) <==> (mem_name(p, x) && !stop_now(
                seqs,
                stops,
                x,
                i,
            )),
        uniq_names(p) ==> uniq_names(keep_playing_spec(p, seqs, stops, i)),
    decreases p.len(),
{
    if p.len() > 0 {
        let pre = p.drop_last();
        lemma_keep_playing(pre, seqs, stops, i);
        let r = keep_playing_spec(p, seqs, stops, i);
        let rp = keep_playing_spec(pre, seqs, stops, i);
        assert forall|x: Seq<char>| mem_name(p, x) implies x == p.last()@ || mem_name(pre, x) by {
            let t = choose|t: int| 0 <= t < p.len() && (#[trigger] p[t])@ == x;
            if t < p.len() - 1 {
                assert(pre[t]@ == x);
            }
        }
        assert forall|x: Seq<char>| mem_name(pre, x) implies mem_name(p, x) by {
            let t = choose|t: int| 0 <= t < pre.len() && (#[trigger] pre[t])@ == x;
            assert(p[t]@ == x);
        }
        if !stop_now(seqs, stops, p.last()@, i) {
            assert forall|x: Seq<char>| mem_name(p, x) && !stop_now(seqs, stops, x, i) implies
                mem_name(r, x) by {
                if x == p.last()@ {
                    assert(r[r.len() - 1]@ == x);
                } else {
                    let t = choose|t: int| 0 <= t < rp.len() && (#[trigger] rp[t])@ == x;
                    assert(r[t]@ == x);
                }
            }
            assert forall|x: Seq<char>| mem_name(r, x) implies mem_name(p, x) && !stop_now(
                seqs,
                stops,
                x,
                i,
            ) by {
                let t = choose|t: int| 0 <= t < r.len() && (#[trigger] r[t])@ == x;
                if t < r.len() - 1 {
                    assert(rp[t]@ == x);
                }
            }
            if uniq_names(p) {
                assert(uniq_names(pre));
                assert forall|t: int, u: int| 0 <= t < u < r.len() implies r[t]@ != r[u]@ by {
                    if u < r.len() - 1 {
                        assert(rp[t]@ != rp[u]@);
                    } else {
                        assert(mem_name(rp, rp[t]@));
                        assert(mem_name(pre, rp[t]@));
                        let w = choose|w: int| 0 <= w < pre.len() && (#[trigger] pre[w])@ == rp[t]@;
                        assert(p[w]@ != p.last()@);
                    }
                }
            }
        }
    }
}

/// The queued-stop list narrowed to names still playing.
pub open spec fn keep_stops_spec(s: Seq<String>, playing: Seq<String>) -> Seq<String>
    decreases s.len(),
{
    if s.len() == 0 {
        Seq::empty()
    } else if mem_name(playing, s.last()@) {
        keep_stops_spec(s.drop_last(), playing).push(s.last())
    } else {
        keep_stops_spec(s.drop_last(), playing)
    }
}

/// Narrowing the queued stops keeps exactly the still-playing names and
/// their uniqueness.
pub proof fn lemma_keep_stops(s: Seq<String>, playing: Seq<String>)
    ensures
        forall|x: Seq<char>|
            mem_name(keep_stops_spec(s, playing), x) <==> (mem_name(s, x) && mem_name(playing, x)),
        uniq_names(s) ==> uniq_names(keep_stops_spec(s, playing)),
    decreases s.len(),
{
    if s.len() > 0 {
        let pre = s.drop_last();
        lemma_keep_stops(pre, playing);
        let r = keep_stops_spec(s, playing);
        let rp = keep_stops_spec(pre, playing);
        assert forall|x: Seq<char>| mem_name(s, x) implies x == s.last()@ || mem_name(pre, x) by {
            let t = choose|t: int| 0 <= t < s.len() && (#[trigger] s[t])@ == x;
            if t < s.len() - 1 {
                assert(pre[t]@ == x);
            }
        }
        assert forall|x: Seq<char>| mem_name(pre, x) implies mem_name(s, x) by {
            let t = choose|t: int| 0 <= t < pre.len() && (#[trigger] pre[t])@ == x;
            assert(s[t]@ == x);
        }
        if mem_name(playing, s.last()@) {
            assert forall|x: Seq<char>| mem_name(s, x) && mem_name(playing, x) implies mem_name(
                r,
                x,
            ) by {
                if x == s.last()@ {
                    assert(r[r.len() - 1]@ == x);
                } else {
                    let t = choose|t: int| 0 <= t < rp.len() && (#[trigger] rp[t])@ == x;
                    assert(r[t]@ == x);
                }
            }
            assert forall|x: Seq<char>| mem_name(r, x) implies mem_name(s, x) && mem_name(
                playing,
                x,
            ) by {
                let t = choose|t: int| 0 <= t < r.len() && (#[trigger] r[t])@ == x;
                if t < r.len() - 1 {
                    assert(rp[t]@ == x);
                }
            }
            if uniq_names(s) {
                assert(uniq_names(pre));
                assert forall|t: int, u: int| 0 <= t < u < r.len() implies r[t]@ != r[u]@ by {
                    if u < r.len() - 1 {
                        assert(rp[t]@ != rp[u]@);
                    } else {
                        assert(mem_name(rp, rp[t]@));
                        assert(mem_name(pre, rp[t]@));
                        let w = choose|w: int| 0 <= w < pre.len() && (#[trigger] pre[w])@ == rp[t]@;
                        assert(s[w]@ != s.last()@);
                    }
                }
            }
        }
    }
}

impl SequencerState {
    /// Move every queued sequence into the playing set.
    pub fn migrate_queued(&mut self)
        requires
            old(self).wf(),
        ensures
            final(self).wf(),
            final(self).sequences@ == old(self).sequences@,
            final(self).queued_stop@ == old(self).queued_stop@,
            final(self).held@ == old(self).held@,
            final(self).retrigs@ == old(self).retrigs@,
            final(self).tick == old(self).tick,
            final(self).queued@.len() == 0,
            forall|x: Seq<char>|
                mem_name(final(self).playing@, x) <==> (mem_name(old(self).playing@, x) || mem_name(
                    old(self).queued@,
                    x,
                )),
    {
        let ghost q0 = self.queued@;
        let mut j: usize = 0;
        while j < self.queued.len()
            invariant
                j <= q0.len(),
                self.wf(),
                self.queued@ == q0,
                self.sequences@ == old(self).sequences@,
                self.queued_stop@ == old(self).queued_stop@,
                self.held@ == old(self).held@,
                self.retrigs@ == old(self).retrigs@,
                self.tick == old(self).tick,
                forall|x: Seq<char>|
                    mem_name(self.playing@, x) <==> (mem_name(old(self).playing@, x) || mem_name(
                        q0.take(j as int),
                        x,
                    )),
            decreases q0.len() - j,
        {
            proof {
                lemma_mem_take_step(q0, j as int);
            }
            let name = self.queued[j].clone();
            proof {
                assert(mem_name(self.queued@, name@));
            }
            push_unique(&mut self.playing, name);
            j += 1;
        }
        proof {
            assert(q0.take(q0.len() as int) =~= q0);
        }
        self.queued.clear();
    }

    /// Honour queued stops: on step counter `i`, every playing name whose own
    /// loop is at its boundary and whose stop was queued leaves the playing
    /// set; a queued stop no longer naming a playing sequence is discarded.
    pub fn retire_queued_stops(&mut self, i: u64)
        requires
            old(self).wf(),
        ensures
            final(self).wf(),
            final(self).sequences@ == old(self).sequences@,
            final(self).queued@ == old(self).queued@,
            final(self).held@ == old(self).held@,
            final(self).retrigs@ == old(self).retrigs@,
            final(self).tick == old(self).tick,
            forall|x: Seq<char>|
                mem_name(final(self).playing@, x) <==> (mem_name(old(self).playing@, x)
                    && !stop_now(old(self).sequences@, old(self).queued_stop@, x, i)),
            forall|x: Seq<char>|
                mem_name(final(self).queued_stop@, x) <==> (mem_name(old(self).queued_stop@, x)
                    && mem_name(final(self).playing@, x)),
    {
        let ghost p0 = self.playing@;
        let ghost seqs = self.sequences@;
        let ghost stops = self.queued_stop@;
        let mut out: Vec<String> = Vec::new();
        let mut j: usize = 0;
        while j < self.playing.len()
            invariant
                j <= p0.len(),
                self.wf(),
                self.playing@ == p0,
                self.sequences@ == seqs,
                self.queued_stop@ == stops,
                out@ == keep_playing_spec(p0.take(j as int), seqs, stops, i),
            decreases p0.len() - j,
        {
            proof {
                assert(p0.take(j + 1).drop_last() =~= p0.take(j as int));
                assert(p0.take(j + 1).last() == p0[j as int]);
            }
            let name = &self.playing[j];
            proof {
                assert(p0[j as int]@ == name@);
                assert(mem_name(p0, name@)) by {
                    assert(p0[j as int]@ == name@);
                }
            }
            let mut drop_it = false;
            if contains_name(&self.queued_stop, name) {
                let idx = match self.find_seq(name) {
                    Some(idx) => idx,
                    None => {
                        proof {
                            assert(false);
                        }
                        0
                    },
                };
                proof {
                    lemma_idx_of(seqs, name@, idx as int);
                    assert(self.sequences@[idx as int].wf());
                }
                let len = self.sequences[idx].steps.len() as u64;
                if i % len == 0 {
                    drop_it = true;
                }
            }
            proof {
                assert(drop_it == stop_now(seqs, stops, name@, i));
            }
            if !drop_it {
                let kept = name.clone();
                out.push(kept);
            }
            j += 1;
        }
        proof {
            assert(p0.take(p0.len() as int) =~= p0);
            lemma_keep_playing(p0, seqs, stops, i);
        }
        self.playing = out;
        // Discard queued stops that no longer name a playing sequence.
        let ghost s0 = self.queued_stop@;
        let ghost pfin = self.playing@;
        let mut out2: Vec<String> = Vec::new();
        let mut k: usize = 0;
        while k < self.queued_stop.len()
            invariant
                k <= s0.len(),
                self.queued_stop@ == s0,
                self.playing@ == pfin,
                out2@ == keep_stops_spec(s0.take(k as int), pfin),
            decreases s0.len() - k,
        {
            proof {
                assert(s0.take(k + 1).drop_last() =~= s0.take(k as int));
                assert(s0.take(k + 1).last() == s0[k as int]);
            }
            let name = &self.queued_stop[k];
            if contains_name(&self.playing, name) {
                let kept = name.clone();
                out2.push(kept);
            }
            k += 1;
        }
        proof {
            assert(s0.take(s0.len() as int) =~= s0);
            lemma_keep_stops(s0, pfin);
        }
        self.queued_stop = out2;
    }

    /// Release every held note whose note-off is due on the current tick.
    pub fn retire_due(&mut self) -> (r: Vec<MidiReqBody>)
        ensures
            final(self).held@ == kept_held_spec(old(self).held@, old(self).tick),
            r@ == due_msgs_spec(old(self).held@, old(self).tick),
            final(self).sequences@ == old(self).sequences@,
            final(self).playing@ == old(self).playing@,
            final(self).queued@ == old(self).queued@,
            final(self).queued_stop@ == old(self).queued_stop@,
            final(self).retrigs@ == old(self).retrigs@,
            final(self).tick == old(self).tick,
    {
        let tick = self.tick;
        let ghost pre = self.held@;
        let mut kept: Vec<HeldNote> = Vec::new();
        let mut msgs: Vec<MidiReqBody> = Vec::new();
        let mut i: usize = 0;
        while i < self.held.len()
            invariant
                i <= self.held@.len(),
                self.held@ == pre,
                tick == self.tick,
                kept@ == kept_held_spec(pre.take(i as int), tick),
                msgs@ == due_msgs_spec(pre.take(i as int), tick),
            decreases self.held@.len() - i,
        {
            proof {
                assert(pre.take(i + 1).drop_last() =~= pre.take(i as int));
                assert(pre.take(i + 1).last() == pre[i as int]);
            }
            if self.held[i].off_tick == tick {
                let h = self.held[i].copy();
                let dev = h.midi_dev;
                msgs.push(
                    MidiReqBody {
                        midi_dev: dev,
                        channel: h.channel,
                        msg: MidiMsg::StopNote { note: h.note },
                    },
                );
            } else {
                let h = self.held[i].copy();
                kept.push(h);
            }
            i += 1;
        }
        proof {
            assert(pre.take(pre.len() as int) =~= pre);
        }
        self.held = kept;
        msgs
    }

    /// Strike every pending roll on a half-step and every pending repeat on a
    /// step, scheduling each strike's note-off and spending one of its
    /// remaining times. A record with no strikes left is discarded, so every
    /// retrigger that survives still has work to do and every roll or repeat
    /// series terminates.
    pub fn fire_retrigs(&mut self, step: bool, half: bool) -> (r: Vec<MidiReqBody>)
        ensures
            r@ == fired_msgs_spec(old(self).retrigs@, step, half),
            final(self).held@ == old(self).held@ + fired_held_spec(
                old(self).retrigs@,
                step,
                half,
                old(self).tick,
            ),
            final(self).retrigs@ == kept_retrigs_spec(old(self).retrigs@, step, half),
            forall|i: int|
                0 <= i < final(self).retrigs@.len() ==> (#[trigger] final(self).retrigs@[
                i]).times > 0,
            final(self).sequences@ == old(self).sequences@,
            final(self).playing@ == old(self).playing@,
            final(self).queued@ == old(self).queued@,
            final(self).queued_stop@ == old(self).queued_stop@,
            final(self).tick == old(self).tick,
    {
        let tick = self.tick;
        let ghost pre = self.retrigs@;
        let ghost preheld = self.held@;
        let mut kept: Vec<Retrig> = Vec::new();
        let mut msgs: Vec<MidiReqBody> = Vec::new();
        let mut i: usize = 0;
        while i < self.retrigs.len()
            invariant
                i <= self.retrigs@.len(),
                self.retrigs@ == pre,
                tick == self.tick,
                self.sequences@ == old(self).sequences@,
                self.playing@ == old(self).playing@,
                self.queued@ == old(self).queued@,
                self.queued_stop@ == old(self).queued_stop@,
                self.tick == old(self).tick,
                kept@ == kept_retrigs_spec(pre.take(i as int), step, half),
                forall|k: int| 0 <= k < kept@.len() ==> (#[trigger] kept@[k]).times > 0,
                msgs@ == fired_msgs_spec(pre.take(i as int), step, half),
                self.held@ == preheld + fired_held_spec(pre.take(i as int), step, half, tick),
            decreases self.retrigs@.len() - i,
        {
            proof {
                assert(pre.take(i + 1).drop_last() =~= pre.take(i as int));
                assert(pre.take(i + 1).last() == pre[i as int]);
            }
            let r = self.retrigs[i].copy();
            let fires = r.times > 0 && (if r.roll {
                half
            } else {
                step
            });
            if fires {
                let dev = r.midi_dev.clone();
                msgs.push(
                    MidiReqBody {
                        midi_dev: dev,
                        channel: r.channel,
                        msg: MidiMsg::PlayNote {
                            note: r.note,
                            velocity: r.velocity,
                            duration: NoteDuration::Sn(1),
                        },
                    },
                );
                let off = wrap_add(tick, r.hold_len);
                let hdev = r.midi_dev.clone();
                let hsrc = r.source.clone();
                let ghost held_before = self.held@;
                self.held.push(
                    HeldNote {
                        source: hsrc,
                        midi_dev: hdev,
                        channel: r.channel,
                        note: r.note,
                        velocity: r.velocity,
                        off_tick: off,
                    },
                );
                proof {
                    assert(self.held@ =~= preheld + fired_held_spec(
                        pre.take(i + 1),
                        step,
                        half,
                        tick,
                    ));
                }
                if r.times > 1 {
                    let dec = Retrig {
                        source: r.source,
                        midi_dev: r.midi_dev,
                        channel: r.channel,
                        note: r.note,
                        velocity: r.velocity,
                        hold_len: r.hold_len,
                        times: r.times - 1,
                        roll: r.roll,
                    };
                    kept.push(dec);
                }
            } else if r.times > 0 {
                kept.push(r);
            }
            i += 1;
        }
        proof {
            assert(pre.take(pre.len() as int) =~= pre);
        }
        self.retrigs = kept;
        msgs
    }

    /// Expand the current step of every playing sequence, in play order:
    /// the outbound note-ons and control changes, the note-offs to schedule,
    /// the rolls and repeats to queue, and whether any step asked for panic.
    pub fn strike_playing(&self, i: u64, ppq: u64) -> (r: (
        Vec<MidiReqBody>,
        Vec<HeldNote>,
        Vec<Retrig>,
        bool,
    ))
        requires
            self.wf(),
            ppq >= 8,
            ppq <= 0xffff_ffff,
        ensures
            r.0@ == batch_spec(self.sequences@, self.playing@, i, self.tick, ppq),
            r.1@ == struck_held_spec(self.sequences@, self.playing@, i, self.tick, ppq),
            r.2@ == struck_retrigs_spec(self.sequences@, self.playing@, i, self.tick, ppq),
            r.3 == panic_spec(self.sequences@, self.playing@, i),
    {
        let ghost seqs = self.sequences@;
        let ghost names = self.playing@;
        let mut msgs: Vec<MidiReqBody> = Vec::new();
        let mut helds: Vec<HeldNote> = Vec::new();
        let mut retrigs: Vec<Retrig> = Vec::new();
        let mut panic = false;
        let mut j: usize = 0;
        while j < self.playing.len()
            invariant
                j <= names.len(),
                self.wf(),
                self.playing@ == names,
                self.sequences@ == seqs,
                ppq >= 8,
                ppq <= 0xffff_ffff,
                msgs@ == batch_spec(seqs, names.take(j as int), i, self.tick, ppq),
                helds@ == struck_held_spec(seqs, names.take(j as int), i, self.tick, ppq),
                retrigs@ == struck_retrigs_spec(seqs, names.take(j as int), i, self.tick, ppq),
                panic == panic_spec(seqs, names.take(j as int), i),
            decreases names.len() - j,
        {
            proof {
                assert(names.take(j + 1).drop_last() =~= names.take(j as int));
                assert(names.take(j + 1).last() == names[j as int]);
            }
            let name = &self.playing[j];
            let idx = match self.find_seq(name) {
                Some(idx) => idx,
                None => {
                    proof {
                        assert(mem_name(self.playing@, name@));
                        assert(false);
                    }
                    0
                },
            };
            proof {
                lemma_idx_of(seqs, name@, idx as int);
            }
            let sq = &self.sequences[idx];
            let len = sq.steps.len();
            proof {
                assert(sq.wf());
            }
            let step_idx: usize = ((i % (len as u64)) as usize);
            let st = &sq.steps[step_idx];
            proof {
                assert(st.wf());
                assert(*st == step_of(*sq, i));
            }
            let ex = expand(st, self.tick, ppq);
            let ghost ps = expanded_notes(st.notes@, chord_offsets(st.cmd_a, st.cmd_b));
            let ghost off = wrap_add_spec(
                self.tick,
                hold_amt_spec(st.cmd_a, st.cmd_b, ppq / 4) as u64,
            );

            // Note-on messages and their scheduled note-offs.
            let mut m1: Vec<MidiReqBody> = Vec::new();
            let mut h1: Vec<HeldNote> = Vec::new();
            let mut k: usize = 0;
            while k < ex.events.len()
                invariant
                    k <= ex.events@.len(),
                    ex.events@ == crate::expand::ev_seq(ps, off),
                    ps == expanded_notes(st.notes@, chord_offsets(st.cmd_a, st.cmd_b)),
                    off == wrap_add_spec(
                        self.tick,
                        hold_amt_spec(st.cmd_a, st.cmd_b, ppq / 4) as u64,
                    ),
                    m1@.len() == k,
                    h1@.len() == k,
                    forall|t: int|
                        0 <= t < k ==> m1@[t] == strike_msgs_of(*sq, i, self.tick, ppq)[t],
                    forall|t: int|
                        0 <= t < k ==> h1@[t] == strike_held_of(*name, *sq, i, self.tick, ppq)[t],
                    *st == step_of(*sq, i),
                decreases ex.events@.len() - k,
            {
                let ev = ex.events[k];
                let dev = sq.midi_dev.clone();
                m1.push(
                    MidiReqBody {
                        midi_dev: dev,
                        channel: sq.channel,
                        msg: MidiMsg::PlayNote {
                            note: ev.note,
                            velocity: ev.velocity,
                            duration: ev.duration,
                        },
                    },
                );
                let hdev = sq.midi_dev.clone();
                let src = name.clone();
                h1.push(
                    HeldNote {
                        source: src,
                        midi_dev: hdev,
                        channel: sq.channel,
                        note: ev.note,
                        velocity: ev.velocity,
                        off_tick: ev.off_tick,
                    },
                );
                proof {
                    assert(ev == crate::expand::ev_seq(ps, off)[k as int]);
                    assert(ev.note == ps[k as int].0 && ev.velocity == ps[k as int].1 && ev.duration
                        == ps[k as int].2 && ev.off_tick == off);
                    assert(m1@[k as int] == strike_msgs_of(*sq, i, self.tick, ppq)[k as int]);
                    assert(h1@[k as int] == strike_held_of(*name, *sq, i, self.tick, ppq)[
                    k as int]);
                }
                k += 1;
            }
            proof {
                assert(m1@ =~= strike_msgs_of(*sq, i, self.tick, ppq));
                assert(h1@ =~= strike_held_of(*name, *sq, i, self.tick, ppq));
            }

            // Control-change messages.
            let mut m2: Vec<MidiReqBody> = Vec::new();
            let mut c: usize = 0;
            while c < ex.ccs.len()
                invariant
                    c <= ex.ccs@.len(),
                    ex.ccs@ == cc_spec(st.cmd_a, st.cmd_b),
                    m2@.len() == c,
                    forall|t: int| 0 <= t < c ==> m2@[t] == strike_cc_of(*sq, i)[t],
                    *st == step_of(*sq, i),
                decreases ex.ccs@.len() - c,
            {
                let cv = ex.ccs[c];
                let dev = sq.midi_dev.clone();
                m2.push(
                    MidiReqBody {
                        midi_dev: dev,
                        channel: sq.channel,
                        msg: MidiMsg::CC { control: cv.control, value: cv.value },
                    },
                );
                c += 1;
            }
            proof {
                assert(m2@ =~= strike_cc_of(*sq, i));
            }

            // Rolls and repeats: one retrigger per note slot of the step.
            let mut r1: Vec<Retrig> = Vec::new();
            if let Some(plan) = ex.retrig {
                let sixteenth: u64 = ppq / 4;
                let amt: u64 = crate::expand::hold_amt(&st.cmd_a, &st.cmd_b, sixteenth);
                let hold_len: u64 = if plan.roll && !plan.holding {
                    sixteenth / 2
                } else {
                    amt
                };
                proof {
                    assert(amt == hold_amt_spec(st.cmd_a, st.cmd_b, ppq / 4) as u64);
                    assert(hold_len == retrig_hold_len_spec(
                        plan,
                        hold_amt_spec(st.cmd_a, st.cmd_b, ppq / 4) as u64,
                        (ppq / 4) as u64,
                    ));
                }
                let mut t: usize = 0;
                while t < st.notes.len()
                    invariant
                        t <= st.notes@.len(),
                        r1@.len() == t,
                        Some(plan) == plan_spec(st.cmd_a, st.cmd_b),
                        *st == step_of(*sq, i),
                        hold_len == retrig_hold_len_spec(
                            plan,
                            hold_amt_spec(st.cmd_a, st.cmd_b, ppq / 4) as u64,
                            (ppq / 4) as u64,
                        ),
                        forall|u: int|
                            0 <= u < t ==> r1@[u] == strike_retrigs_of(
                                *name,
                                *sq,
                                i,
                                self.tick,
                                ppq,
                            )[u],
                    decreases st.notes@.len() - t,
                {
                    let slot = st.notes[t];
                    let vel = match slot.velocity {
                        Some(v) => v,
                        None => 85,
                    };
                    let dev = sq.midi_dev.clone();
                    let src = name.clone();
                    r1.push(
                        Retrig {
                            source: src,
                            midi_dev: dev,
                            channel: sq.channel,
                            note: slot.note,
                            velocity: vel,
                            hold_len,
                            times: plan.times,
                            roll: plan.roll,
                        },
                    );
                    t += 1;
                }
                proof {
                    assert(r1@ =~= strike_retrigs_of(*name, *sq, i, self.tick, ppq));
                }
            } else {
                proof {
                    assert(r1@ =~= strike_retrigs_of(*name, *sq, i, self.tick, ppq));
                }
            }

            let ghost msgs_before = msgs@;
            let ghost helds_before = helds@;
            let ghost retrigs_before = retrigs@;
            msgs.append(&mut m1);
            msgs.append(&mut m2);
            helds.append(&mut h1);
            retrigs.append(&mut r1);
            let ghost panic_before = panic;
            if ex.panic {
                panic = true;
            }
            proof {
                assert(msgs@ =~= batch_spec(seqs, names.take(j + 1), i, self.tick, ppq));
                assert(helds@ =~= struck_held_spec(seqs, names.take(j + 1), i, self.tick, ppq));
                assert(retrigs@ =~= struck_retrigs_spec(
                    seqs,
                    names.take(j + 1),
                    i,
                    self.tick,
                    ppq,
                ));
                assert(panic == panic_spec(seqs, names.take(j + 1), i)) by {
                    if panic {
                        if panic_before {
                            let w = choose|w: int|
                                0 <= w < j && has_seq(seqs, (#[trigger] names.take(j as int)[w])@)
                                    && has_panic(
                                    step_of(seq_at(seqs, names.take(j as int)[w]@), i).cmd_a,
                                    step_of(seq_at(seqs, names.take(j as int)[w]@), i).cmd_b,
                                );
                            assert(names.take(j + 1)[w] == names.take(j as int)[w]);
                            assert(has_seq(seqs, (names.take(j + 1)[w])@) && has_panic(
                                step_of(seq_at(seqs, names.take(j + 1)[w]@), i).cmd_a,
                                step_of(seq_at(seqs, names.take(j + 1)[w]@), i).cmd_b,
                            ));
                        } else {
                            assert(names.take(j + 1)[j as int] == names[j as int]);
                            assert(has_seq(seqs, (names.take(j + 1)[j as int])@) && has_panic(
                                step_of(seq_at(seqs, names.take(j + 1)[j as int]@), i).cmd_a,
                                step_of(seq_at(seqs, names.take(j + 1)[j as int]@), i).cmd_b,
                            ));
                        }
                    } else {
                        if panic_spec(seqs, names.take(j + 1), i) {
                            let w = choose|w: int|
                                0 <= w < j + 1 && has_seq(
                                    seqs,
                                    (#[trigger] names.take(j + 1)[w])@,
                                ) && has_panic(
                                    step_of(seq_at(seqs, names.take(j + 1)[w]@), i).cmd_a,
                                    step_of(seq_at(seqs, names.take(j + 1)[w]@), i).cmd_b,
                                );
                            if w < j {
                                assert(names.take(j as int)[w] == names.take(j + 1)[w]);
                                assert(has_seq(seqs, (names.take(j as int)[w])@) && has_panic(
                                    step_of(seq_at(seqs, names.take(j as int)[w]@), i).cmd_a,
                                    step_of(seq_at(seqs, names.take(j as int)[w]@), i).cmd_b,
                                ));
                            }
                        }
                    }
                }
            }
            j += 1;
        }
        proof {
            assert(names.take(names.len() as int) =~= names);
        }
        (msgs, helds, retrigs, panic)
    }

    /// Release every held note and cancel every pending retrigger at once:
    /// the panic flush.
    pub fn flush_all(&mut self) -> (r: Vec<MidiReqBody>)
        ensures
            r@ == flush_msgs_spec(old(self).held@, old(self).retrigs@),
            final(self).held@.len() == 0,
            final(self).retrigs@.len() == 0,
            final(self).sequences@ == old(self).sequences@,
            final(self).playing@ == old(self).playing@,
            final(self).queued@ == old(self).queued@,
            final(self).queued_stop@ == old(self).queued_stop@,
            final(self).tick == old(self).tick,
    {
        let ghost preh = self.held@;
        let ghost prer = self.retrigs@;
        let mut msgs: Vec<MidiReqBody> = Vec::new();
        let mut i: usize = 0;
        while i < self.held.len()
            invariant
                i <= self.held@.len(),
                self.held@ == preh,
                msgs@.len() == i,
                forall|k: int| 0 <= k < i ==> msgs@[k] == off_msg_spec(preh[k]),
            decreases self.held@.len() - i,
        {
            let h = self.held[i].copy();
            msgs.push(
                MidiReqBody {
                    midi_dev: h.midi_dev,
                    channel: h.channel,
                    msg: MidiMsg::StopNote { note: h.note },
                },
            );
            i += 1;
        }
        let mut j: usize = 0;
        while j < self.retrigs.len()
            invariant
                j <= self.retrigs@.len(),
                self.held@ == preh,
                self.retrigs@ == prer,
                msgs@.len() == preh.len() + j,
                forall|k: int| 0 <= k < preh.len() ==> msgs@[k] == off_msg_spec(preh[k]),
                forall|k: int|
                    0 <= k < j ==> msgs@[preh.len() + k] == (MidiReqBody {
                        midi_dev: prer[k].midi_dev,
                        channel: prer[k].channel,
                        msg: MidiMsg::StopNote { note: prer[k].note },
                    }),
            decreases self.retrigs@.len() - j,
        {
            let r = self.retrigs[j].copy();
            msgs.push(
                MidiReqBody {
                    midi_dev: r.midi_dev,
                    channel: r.channel,
                    msg: MidiMsg::StopNote { note: r.note },
                },
            );
            j += 1;
        }
        self.held = Vec::new();
        self.retrigs = Vec::new();
        proof {
            assert(msgs@ =~= flush_msgs_spec(preh, prer));
        }
        msgs
    }
}

/// A name absent from the sequence map plays nothing on any later tick: it
/// can stand in neither the playing set nor the queued set, so no strike,
/// held note or retrigger is ever created for it again.
pub proof fn lemma_removed_sequence_never_plays(s: SequencerState, n: Seq<char>)
    requires
        s.wf(),
        !has_seq(s.sequences@, n),
    ensures
        !mem_name(s.playing@, n),
        !mem_name(s.queued@, n),
{
    if mem_name(s.playing@, n) {
        assert(has_seq(s.sequences@, n));
    }
    if mem_name(s.queued@, n) {
        assert(has_seq(s.sequences@, n));
    }
}

/// In every well-formed state, every sequence keeps at least one step: no
/// command sequence can shrink a loop below length one.
pub proof fn lemma_length_floor(s: SequencerState)
    requires
        s.wf(),
    ensures
        forall|i: int| 0 <= i < s.sequences@.len() ==> (#[trigger] s.sequences@[i]).steps@.len()
            >= 1,
{
    assert forall|i: int| 0 <= i < s.sequences@.len() implies (#[trigger] s.sequences@[
    i]).steps@.len() >= 1 by {
        assert(s.sequences@[i].wf());
    }
}

impl SequencerState {
    /// Drive one clock pulse: retire due note-offs, fire pending rolls and
    /// repeats, and on a step boundary migrate queued sequences, honour
    /// queued stops and strike the current step of every playing sequence.
    /// A panic in any struck step flushes every held note and retrigger.
    /// A binary sync pulse goes out on thirty-second-note boundaries while
    /// anything plays or waits to play. The tick counter then advances,
    /// wrapping, or resets to zero while nothing is playing or queued.
    pub fn step_tick(&mut self, ppq: u64) -> (out: TickOutput)
        requires
            old(self).wf(),
            ppq >= 8,
            ppq <= 0xffff_ffff,
        ensures
            final(self).wf(),
            final(self).sequences@ == old(self).sequences@,
            ({
                let stepb = on_step_tick(*old(self), ppq);
                let halfb = on_half_tick(*old(self), ppq);
                let i = step_i_of(*old(self), ppq);
                let mig = migrate_cond(*old(self), ppq);
                let held_mid = kept_held_spec(old(self).held@, old(self).tick) + fired_held_spec(
                    old(self).retrigs@,
                    stepb,
                    halfb,
                    old(self).tick,
                ) + (if stepb {
                    struck_held_spec(
                        old(self).sequences@,
                        final(self).playing@,
                        i,
                        old(self).tick,
                        ppq,
                    )
                } else {
                    Seq::empty()
                });
                let retrig_mid = kept_retrigs_spec(old(self).retrigs@, stepb, halfb) + (if stepb {
                    struck_retrigs_spec(
                        old(self).sequences@,
                        final(self).playing@,
                        i,
                        old(self).tick,
                        ppq,
                    )
                } else {
                    Seq::empty()
                });
                let panicked = stepb && panic_spec(old(self).sequences@, final(self).playing@, i);
                &&& forall|x: Seq<char>|
                    mem_name(final(self).playing@, x) <==> ((mem_name(old(self).playing@, x) || (
                    mig && mem_name(old(self).queued@, x))) && !(stepb && stop_now(
                        old(self).sequences@,
                        old(self).queued_stop@,
                        x,
                        i,
                    )))
                &&& mig ==> final(self).queued@.len() == 0
                &&& !mig ==> final(self).queued@ == old(self).queued@
                &&& stepb ==> forall|x: Seq<char>|
                    mem_name(final(self).queued_stop@, x) <==> (mem_name(
                        old(self).queued_stop@,
                        x,
                    ) && mem_name(final(self).playing@, x))
                &&& !stepb ==> final(self).playing@ == old(self).playing@ && final(
                self).queued_stop@ == old(self).queued_stop@
                &&& out.struck@ == fired_msgs_spec(old(self).retrigs@, stepb, halfb) + (if stepb {
                    batch_spec(
                        old(self).sequences@,
                        final(self).playing@,
                        i,
                        old(self).tick,
                        ppq,
                    )
                } else {
                    Seq::empty()
                })
                &&& out.released@ == due_msgs_spec(old(self).held@, old(self).tick) + (if panicked {
                    flush_msgs_spec(held_mid, retrig_mid)
                } else {
                    Seq::empty()
                })
                &&& final(self).held@ == (if panicked {
                    Seq::empty()
                } else {
                    held_mid
                })
                &&& final(self).retrigs@ == (if panicked {
                    Seq::empty()
                } else {
                    retrig_mid
                })
                &&& out.sync == (halfb && !(final(self).playing@.len() == 0 && final(
                self).queued@.len() == 0))
                &&& (final(self).playing@.len() == 0 && final(self).queued@.len() == 0) ==> final(
                self).tick == 0
                &&& !(final(self).playing@.len() == 0 && final(self).queued@.len() == 0) ==> final(
                self).tick == (if old(self).tick == u64::MAX {
                    0u64
                } else {
                    (old(self).tick + 1) as u64
                })
            }),
    {
        let sixteenth: u64 = ppq / 4;
        let thirty: u64 = ppq / 8;
        let stepb = self.tick % sixteenth == 0;
        let halfb = stepb || self.tick % thirty == 0;
        let i: u64 = self.tick / sixteenth;

        let mut released = self.retire_due();
        let mut struck = self.fire_retrigs(stepb, halfb);

        if stepb {
            if i % 16 == 0 || self.playing.is_empty() {
                self.migrate_queued();
            }
            self.retire_queued_stops(i);
            let (mut batch, mut new_held, mut new_retrigs, pan) = self.strike_playing(i, ppq);
            struck.append(&mut batch);
            self.held.append(&mut new_held);
            self.retrigs.append(&mut new_retrigs);
            if pan {
                let mut flushed = self.flush_all();
                released.append(&mut flushed);
            }
        }

        let idle = self.playing.is_empty() && self.queued.is_empty();
        let sync = halfb && !idle;
        if idle {
            self.tick = 0;
        } else if self.tick == u64::MAX {
            self.tick = 0;
        } else {
            self.tick = self.tick + 1;
        }
        TickOutput { struck, released, sync }
    }
}

} // verus!
