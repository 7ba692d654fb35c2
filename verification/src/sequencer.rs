//! The sequencer control plane: the authoritative map of named sequences and
//! the three play-state sets (`playing`, `queued`, `queued-stop`), mutated by
//! commands drained between ticks.

use vstd::prelude::*;

use crate::types::{MidiChannel, NoteDuration, NoteSlot, Sequence, Step, TrackerCmd};

verus! {

/// A name is a member of a name list when some entry spells it.
pub open spec fn mem_name(s: Seq<String>, n: Seq<char>) -> bool {
    exists|i: int| 0 <= i < s.len() && (#[trigger] s[i])@ == n
}

/// No name appears twice in the list.
pub open spec fn uniq_names(s: Seq<String>) -> bool {
    forall|i: int, j: int| 0 <= i < j < s.len() ==> (#[trigger] s[i])@ != (#[trigger] s[j])@
}

/// Some sequence in the list carries this name.
pub open spec fn has_seq(s: Seq<Sequence>, n: Seq<char>) -> bool {
    exists|i: int| 0 <= i < s.len() && (#[trigger] s[i]).name@ == n
}

/// No two sequences in the list share a name.
pub open spec fn uniq_seqs(s: Seq<Sequence>) -> bool {
    forall|i: int, j: int|
        0 <= i < j < s.len() ==> (#[trigger] s[i]).name@ != (#[trigger] s[j]).name@
}

/// The position of the sequence with a given name.
pub open spec fn idx_of(s: Seq<Sequence>, n: Seq<char>) -> int {
    choose|i: int| 0 <= i < s.len() && (#[trigger] s[i]).name@ == n
}

/// The sequence with a given name.
pub open spec fn seq_at(s: Seq<Sequence>, n: Seq<char>) -> Sequence {
    s[idx_of(s, n)]
}

/// With unique names, any position whose sequence carries the name is the
/// position `idx_of` denotes.
pub proof fn lemma_idx_of(s: Seq<Sequence>, n: Seq<char>, i: int)
    requires
        uniq_seqs(s),
        0 <= i < s.len(),
        s[i].name@ == n,
    ensures
        idx_of(s, n) == i,
        seq_at(s, n) == s[i],
        has_seq(s, n),
{
    assert(0 <= i < s.len() && s[i].name@ == n);
    let j = idx_of(s, n);
    if j != i {
        if j < i {
            assert(s[j].name@ != s[i].name@);
        } else {
            assert(s[i].name@ != s[j].name@);
        }
    }
}

/// A name list with the given name struck out, order otherwise kept.
pub open spec fn remove_name_spec(s: Seq<String>, n: Seq<char>) -> Seq<String>
    decreases s.len(),
{
    if s.len() == 0 {
        Seq::empty()
    } else if s.last()@ == n {
        remove_name_spec(s.drop_last(), n)
    } else {
        remove_name_spec(s.drop_last(), n).push(s.last())
    }
}

/// Striking a name out removes exactly that name and keeps the list's other
/// members and its uniqueness.
pub proof fn lemma_remove_name_spec(s: Seq<String>, n: Seq<char>)
    ensures
        forall|x: Seq<char>| mem_name(remove_name_spec(s, n), x) <==> (mem_name(s, x) && x != n),
        uniq_names(s) ==> uniq_names(remove_name_spec(s, n)),
        remove_name_spec(s, n).len() <= s.len(),
        forall|i: int|
            0 <= i < remove_name_spec(s, n).len() ==> mem_name(
                s,
                (#[trigger] remove_name_spec(s, n)[i])@,
            ),
    decreases s.len(),
{
    if s.len() == 0 {
    } else {
        let pre = s.drop_last();
        lemma_remove_name_spec(pre, n);
        assert forall|x: Seq<char>| mem_name(s, x) implies x == s.last()@ || mem_name(pre, x) by {
            let i = choose|i: int| 0 <= i < s.len() && (#[trigger] s[i])@ == x;
            if i < s.len() - 1 {
                assert(pre[i]@ == x);
            }
        }
        assert forall|x: Seq<char>| mem_name(pre, x) implies mem_name(s, x) by {
            let i = choose|i: int| 0 <= i < pre.len() && (#[trigger] pre[i])@ == x;
            assert(s[i]@ == x);
        }
        let r = remove_name_spec(s, n);
        if s.last()@ == n {
            assert(forall|x: Seq<char>| mem_name(r, x) <==> (mem_name(s, x) && x != n));
        } else {
            let rp = remove_name_spec(pre, n);
            assert forall|x: Seq<char>| mem_name(s, x) && x != n implies mem_name(r, x) by {
                if x == s.last()@ {
                    assert(r[r.len() - 1]@ == x);
                } else {
                    let i = choose|i: int| 0 <= i < rp.len() && (#[trigger] rp[i])@ == x;
                    assert(r[i]@ == x);
                }
            }
            assert forall|x: Seq<char>| mem_name(r, x) implies mem_name(s, x) && x != n by {
                let i = choose|i: int| 0 <= i < r.len() && (#[trigger] r[i])@ == x;
                if i < r.len() - 1 {
                    assert(rp[i]@ == x);
                }
            }
            if uniq_names(s) {
                assert(uniq_names(pre));
                assert forall|i: int, j: int| 0 <= i < j < r.len() implies r[i]@ != r[j]@ by {
                    if j < r.len() - 1 {
                        assert(rp[i]@ != rp[j]@);
                    } else {
                        assert(mem_name(pre, rp[i]@));
                        let k = choose|k: int|
                            0 <= k < pre.len() && (#[trigger] pre[k])@ == rp[i]@;
                        assert(s[k]@ != s.last()@);
                    }
                }
            }
            assert forall|i: int| 0 <= i < r.len() implies mem_name(s, (#[trigger] r[i])@) by {
                if i < r.len() - 1 {
                    assert(mem_name(pre, rp[i]@));
                }
            }
        }
    }
}

/// Whether a name list contains a name.
pub fn contains_name(v: &Vec<String>, name: &String) -> (r: bool)
    ensures
        r == mem_name(v@, name@),
{
    let mut i: usize = 0;
    while i < v.len()
        invariant
            i <= v@.len(),
            forall|k: int| 0 <= k < i ==> (#[trigger] v@[k])@ != name@,
        decreases v@.len() - i,
    {
        if v[i].eq(name) {
            proof {
                assert(v@[i as int]@ == name@);
            }
            return true;
        }
        i += 1;
    }
    false
}

/// Strike every entry spelling `name` out of the list.
pub fn remove_name(v: &mut Vec<String>, name: &String)
    ensures
        final(v)@ == remove_name_spec(old(v)@, name@),
{
    let mut out: Vec<String> = Vec::new();
    let mut i: usize = 0;
    while i < v.len()
        invariant
            i <= v@.len(),
            out@ == remove_name_spec(v@.take(i as int), name@),
        decreases v@.len() - i,
    {
        proof {
            assert(v@.take(i + 1).drop_last() =~= v@.take(i as int));
            assert(v@.take(i + 1).last() == v@[i as int]);
        }
        if !v[i].eq(name) {
            let entry = v[i].clone();
            out.push(entry);
        }
        i += 1;
    }
    proof {
        assert(v@.take(v@.len() as int) =~= v@);
    }
    *v = out;
}

/// Append a name unless the list already holds it.
pub fn push_unique(v: &mut Vec<String>, name: String)
    ensures
        mem_name(old(v)@, name@) ==> final(v)@ == old(v)@,
        !mem_name(old(v)@, name@) ==> final(v)@ == old(v)@.push(name),
        forall|x: Seq<char>| mem_name(final(v)@, x) <==> (mem_name(old(v)@, x) || x == name@),
        uniq_names(old(v)@) ==> uniq_names(final(v)@),
{
    if !contains_name(v, &name) {
        let ghost pre = v@;
        v.push(name);
        proof {
            assert forall|x: Seq<char>| mem_name(v@, x) implies (mem_name(pre, x) || x
                == v@.last()@) by {
                let i = choose|i: int| 0 <= i < v@.len() && (#[trigger] v@[i])@ == x;
                if i < v@.len() - 1 {
                    assert(pre[i]@ == x);
                }
            }
            assert forall|x: Seq<char>| mem_name(pre, x) implies mem_name(v@, x) by {
                let i = choose|i: int| 0 <= i < pre.len() && (#[trigger] pre[i])@ == x;
                assert(v@[i]@ == x);
            }
            assert(v@[v@.len() - 1]@ == v@.last()@);
        }
    }
}

/// An emitted note-on whose note-off is still pending: where it came from,
/// where it goes, and the tick on which it is due.
#[derive(Clone, Debug)]
pub struct HeldNote {
    /// Name of the sequence that sounded the note.
    pub source: String,
    pub midi_dev: String,
    pub channel: MidiChannel,
    pub note: u8,
    pub velocity: u8,
    /// Tick on which the note-off is due.
    pub off_tick: u64,
}

/// A pending roll or repeat: the note is struck again `times` more times, on
/// half-step boundaries for a roll and step boundaries for a repeat.
#[derive(Clone, Debug)]
pub struct Retrig {
    /// Name of the sequence that scheduled the retrigger.
    pub source: String,
    pub midi_dev: String,
    pub channel: MidiChannel,
    pub note: u8,
    pub velocity: u8,
    /// How many ticks each retriggered note is held.
    pub hold_len: u64,
    /// How many strikes remain.
    pub times: u8,
    /// A roll fires on half-steps; a repeat only on full steps.
    pub roll: bool,
}

impl HeldNote {
    /// Copy a held note field by field.
    pub fn copy(&self) -> (r: HeldNote)
        ensures
            r == *self,
    {
        HeldNote {
            source: self.source.clone(),
            midi_dev: self.midi_dev.clone(),
            channel: self.channel,
            note: self.note,
            velocity: self.velocity,
            off_tick: self.off_tick,
        }
    }
}

impl Retrig {
    /// Copy a retrigger field by field.
    pub fn copy(&self) -> (r: Retrig)
        ensures
            r == *self,
    {
        Retrig {
            source: self.source.clone(),
            midi_dev: self.midi_dev.clone(),
            channel: self.channel,
            note: self.note,
            velocity: self.velocity,
            hold_len: self.hold_len,
            times: self.times,
            roll: self.roll,
        }
    }
}

/// A held-note list with every note sourced from `n` struck out.
pub open spec fn remove_held_spec(s: Seq<HeldNote>, n: Seq<char>) -> Seq<HeldNote>
    decreases s.len(),
{
    if s.len() == 0 {
        Seq::empty()
    } else if s.last().source@ == n {
        remove_held_spec(s.drop_last(), n)
    } else {
        remove_held_spec(s.drop_last(), n).push(s.last())
    }
}

/// Purging a source leaves no note of that source and touches no other note.
pub proof fn lemma_remove_held_spec(s: Seq<HeldNote>, n: Seq<char>)
    ensures
        forall|i: int|
            0 <= i < remove_held_spec(s, n).len() ==> (#[trigger] remove_held_spec(s, n)[i]).source@
                != n,
        forall|i: int|
            #![trigger remove_held_spec(s, n)[i]]
            0 <= i < remove_held_spec(s, n).len() ==> exists|j: int|
                0 <= j < s.len() && #[trigger] s[j] == remove_held_spec(s, n)[i],
        forall|j: int|
            0 <= j < s.len() && (#[trigger] s[j]).source@ != n ==> exists|i: int|
                0 <= i < remove_held_spec(s, n).len() && #[trigger] remove_held_spec(s, n)[i] == s[
                j],
    decreases s.len(),
{
    if s.len() == 0 {
    } else {
        let pre = s.drop_last();
        lemma_remove_held_spec(pre, n);
        let r = remove_held_spec(s, n);
        let rp = remove_held_spec(pre, n);
        assert forall|i: int| #![trigger r[i]] 0 <= i < r.len() implies exists|j: int|
            0 <= j < s.len() && #[trigger] s[j] == r[i] by {
            if s.last().source@ != n && i == r.len() - 1 {
                assert(s[s.len() - 1] == r[i]);
            } else {
                let j = choose|j: int| 0 <= j < pre.len() && pre[j] == rp[i];
                assert(s[j] == r[i]);
            }
        }
        assert forall|j: int| 0 <= j < s.len() && (#[trigger] s[j]).source@ != n implies exists|
            i: int,
        | 0 <= i < r.len() && r[i] == s[j] by {
            if j == s.len() - 1 {
                assert(r[r.len() - 1] == s[j]);
            } else {
                assert(pre[j] == s[j]);
                let i = choose|i: int| 0 <= i < rp.len() && rp[i] == pre[j];
                assert(r[i] == s[j]);
            }
        }
    }
}

/// Strike every held note sourced from `name` out of the list.
pub fn remove_held(v: &mut Vec<HeldNote>, name: &String)
    ensures
        final(v)@ == remove_held_spec(old(v)@, name@),
{
    let mut out: Vec<HeldNote> = Vec::new();
    let mut i: usize = 0;
    while i < v.len()
        invariant
            i <= v@.len(),
            out@ == remove_held_spec(v@.take(i as int), name@),
        decreases v@.len() - i,
    {
        proof {
            assert(v@.take(i + 1).drop_last() =~= v@.take(i as int));
            assert(v@.take(i + 1).last() == v@[i as int]);
        }
        if !v[i].source.eq(name) {
            let entry = v[i].copy();
            out.push(entry);
        }
        i += 1;
    }
    proof {
        assert(v@.take(v@.len() as int) =~= v@);
    }
    *v = out;
}

/// A retrigger list with every entry sourced from `n` struck out.
pub open spec fn remove_retrig_spec(s: Seq<Retrig>, n: Seq<char>) -> Seq<Retrig>
    decreases s.len(),
{
    if s.len() == 0 {
        Seq::empty()
    } else if s.last().source@ == n {
        remove_retrig_spec(s.drop_last(), n)
    } else {
        remove_retrig_spec(s.drop_last(), n).push(s.last())
    }
}

/// Purging a source leaves no retrigger of that source.
pub proof fn lemma_remove_retrig_spec(s: Seq<Retrig>, n: Seq<char>)
    ensures
        forall|i: int|
            0 <= i < remove_retrig_spec(s, n).len() ==> (#[trigger] remove_retrig_spec(s, n)[
            i]).source@ != n,
    decreases s.len(),
{
    if s.len() > 0 {
        lemma_remove_retrig_spec(s.drop_last(), n);
    }
}

/// Strike every retrigger sourced from `name` out of the list.
pub fn remove_retrig(v: &mut Vec<Retrig>, name: &String)
    ensures
        final(v)@ == remove_retrig_spec(old(v)@, name@),
{
    let mut out: Vec<Retrig> = Vec::new();
    let mut i: usize = 0;
    while i < v.len()
        invariant
            i <= v@.len(),
            out@ == remove_retrig_spec(v@.take(i as int), name@),
        decreases v@.len() - i,
    {
        proof {
            assert(v@.take(i + 1).drop_last() =~= v@.take(i as int));
            assert(v@.take(i + 1).last() == v@[i as int]);
        }
        if !v[i].source.eq(name) {
            let entry = v[i].copy();
            out.push(entry);
        }
        i += 1;
    }
    proof {
        assert(v@.take(v@.len() as int) =~= v@);
    }
    *v = out;
}

/// Replacing one sequence by another of the same name keeps the map's names,
/// its uniqueness, and every other entry.
pub proof fn lemma_seqs_update(s1: Seq<Sequence>, s2: Seq<Sequence>, i: int)
    requires
        uniq_seqs(s1),
        0 <= i < s1.len(),
        s2.len() == s1.len(),
        forall|j: int| 0 <= j < s1.len() && j != i ==> s2[j] == s1[j],
        s2[i].name@ == s1[i].name@,
    ensures
        uniq_seqs(s2),
        forall|x: Seq<char>| has_seq(s2, x) <==> has_seq(s1, x),
        seq_at(s2, s1[i].name@) == s2[i],
        idx_of(s2, s1[i].name@) == i,
        forall|x: Seq<char>|
            x != s1[i].name@ && has_seq(s1, x) ==> seq_at(s2, x) == seq_at(s1, x),
{
    assert(forall|j: int| 0 <= j < s1.len() ==> (#[trigger] s2[j]).name@ == s1[j].name@);
    assert forall|x: Seq<char>| has_seq(s1, x) implies has_seq(s2, x) by {
        let j = choose|j: int| 0 <= j < s1.len() && (#[trigger] s1[j]).name@ == x;
        assert(s2[j].name@ == x);
    }
    assert forall|x: Seq<char>| has_seq(s2, x) implies has_seq(s1, x) by {
        let j = choose|j: int| 0 <= j < s2.len() && (#[trigger] s2[j]).name@ == x;
        assert(s1[j].name@ == x);
    }
    lemma_idx_of(s2, s1[i].name@, i);
    assert forall|x: Seq<char>| x != s1[i].name@ && has_seq(s1, x) implies seq_at(s2, x) == seq_at(
        s1,
        x,
    ) by {
        let j = choose|j: int| 0 <= j < s1.len() && (#[trigger] s1[j]).name@ == x;
        lemma_idx_of(s1, x, j);
        assert(j != i);
        lemma_idx_of(s2, x, j);
    }
}

/// Appending a sequence under a fresh name adds exactly that entry.
pub proof fn lemma_seqs_push(s1: Seq<Sequence>, q: Sequence)
    requires
        uniq_seqs(s1),
        !has_seq(s1, q.name@),
    ensures
        uniq_seqs(s1.push(q)),
        forall|x: Seq<char>| has_seq(s1.push(q), x) <==> (has_seq(s1, x) || x == q.name@),
        seq_at(s1.push(q), q.name@) == q,
        forall|x: Seq<char>|
            x != q.name@ && has_seq(s1, x) ==> seq_at(s1.push(q), x) == seq_at(s1, x),
{
    let s2 = s1.push(q);
    assert forall|i: int, j: int| 0 <= i < j < s2.len() implies (#[trigger] s2[i]).name@ != (
    #[trigger] s2[j]).name@ by {
        if j == s2.len() - 1 {
            assert(s2[j] == q);
            if s2[i].name@ == q.name@ {
                assert(s1[i].name@ == q.name@);
            }
        } else {
            assert(s1[i].name@ != s1[j].name@);
        }
    }
    assert forall|x: Seq<char>| has_seq(s2, x) implies (has_seq(s1, x) || x == q.name@) by {
        let j = choose|j: int| 0 <= j < s2.len() && (#[trigger] s2[j]).name@ == x;
        if j < s2.len() - 1 {
            assert(s1[j].name@ == x);
        }
    }
    assert forall|x: Seq<char>| has_seq(s1, x) implies has_seq(s2, x) by {
        let j = choose|j: int| 0 <= j < s1.len() && (#[trigger] s1[j]).name@ == x;
        assert(s2[j].name@ == x);
    }
    assert(s2[s2.len() - 1] == q);
    lemma_idx_of(s2, q.name@, s2.len() - 1);
    assert forall|x: Seq<char>| x != q.name@ && has_seq(s1, x) implies seq_at(s2, x) == seq_at(
        s1,
        x,
    ) by {
        let j = choose|j: int| 0 <= j < s1.len() && (#[trigger] s1[j]).name@ == x;
        lemma_idx_of(s1, x, j);
        lemma_idx_of(s2, x, j);
    }
}

/// Removing the entry at one position removes exactly its name.
pub proof fn lemma_seqs_remove(s1: Seq<Sequence>, i: int)
    requires
        uniq_seqs(s1),
        0 <= i < s1.len(),
    ensures
        uniq_seqs(s1.remove(i)),
        forall|x: Seq<char>|
            has_seq(s1.remove(i), x) <==> (has_seq(s1, x) && x != s1[i].name@),
        forall|x: Seq<char>|
            x != s1[i].name@ && has_seq(s1, x) ==> seq_at(s1.remove(i), x) == seq_at(s1, x),
{
    let s2 = s1.remove(i);
    assert(forall|j: int| 0 <= j < i ==> #[trigger] s2[j] == s1[j]);
    assert(forall|j: int| i <= j < s2.len() ==> #[trigger] s2[j] == s1[j + 1]);
    assert forall|j: int, k: int| 0 <= j < k < s2.len() implies (#[trigger] s2[j]).name@ != (
    #[trigger] s2[k]).name@ by {
        let j1 = if j < i { j } else { j + 1 };
        let k1 = if k < i { k } else { k + 1 };
        assert(s2[j] == s1[j1] && s2[k] == s1[k1]);
        assert(s1[j1].name@ != s1[k1].name@);
    }
    assert forall|x: Seq<char>| has_seq(s2, x) implies (has_seq(s1, x) && x != s1[i].name@) by {
        let j = choose|j: int| 0 <= j < s2.len() && (#[trigger] s2[j]).name@ == x;
        let j1 = if j < i { j } else { j + 1 };
        assert(s1[j1].name@ == x);
        if j1 < i {
            assert(s1[j1].name@ != s1[i].name@);
        } else if j1 > i {
            assert(s1[i].name@ != s1[j1].name@);
        }
    }
    assert forall|x: Seq<char>| has_seq(s1, x) && x != s1[i].name@ implies has_seq(s2, x) by {
        let j = choose|j: int| 0 <= j < s1.len() && (#[trigger] s1[j]).name@ == x;
        if j < i {
            assert(s2[j].name@ == x);
        } else {
            assert(j > i);
            assert(s2[j - 1].name@ == x);
        }
    }
    assert forall|x: Seq<char>| x != s1[i].name@ && has_seq(s1, x) implies seq_at(s2, x) == seq_at(
        s1,
        x,
    ) by {
        let j = choose|j: int| 0 <= j < s1.len() && (#[trigger] s1[j]).name@ == x;
        lemma_idx_of(s1, x, j);
        if j < i {
            assert(s2[j] == s1[j]);
            lemma_idx_of(s2, x, j);
        } else {
            assert(j > i);
            assert(s2[j - 1] == s1[j]);
            lemma_idx_of(s2, x, j - 1);
        }
    }
}

/// Taking one more element of a name list adds exactly that name to its
/// membership.
pub proof fn lemma_mem_take_step(s: Seq<String>, j: int)
    requires
        0 <= j < s.len(),
    ensures
        forall|x: Seq<char>|
            mem_name(s.take(j + 1), x) <==> (mem_name(s.take(j), x) || x == s[j]@),
{
    assert(s.take(j + 1) =~= s.take(j).push(s[j]));
    assert forall|x: Seq<char>| mem_name(s.take(j + 1), x) implies (mem_name(s.take(j), x) || x
        == s[j]@) by {
        let i = choose|i: int| 0 <= i < s.take(j + 1).len() && (#[trigger] s.take(j + 1)[i])@ == x;
        if i < j {
            assert(s.take(j)[i]@ == x);
        }
    }
    assert forall|x: Seq<char>| mem_name(s.take(j), x) implies mem_name(s.take(j + 1), x) by {
        let i = choose|i: int| 0 <= i < s.take(j).len() && (#[trigger] s.take(j)[i])@ == x;
        assert(s.take(j + 1)[i]@ == x);
    }
    assert(s.take(j + 1)[j]@ == s[j]@);
}

/// Taking one more sequence of a map adds exactly its name.
pub proof fn lemma_has_take_step(s: Seq<Sequence>, j: int)
    requires
        0 <= j < s.len(),
    ensures
        forall|x: Seq<char>|
            has_seq(s.take(j + 1), x) <==> (has_seq(s.take(j), x) || x == s[j].name@),
{
    assert(s.take(j + 1) =~= s.take(j).push(s[j]));
    assert forall|x: Seq<char>| has_seq(s.take(j + 1), x) implies (has_seq(s.take(j), x) || x
        == s[j].name@) by {
        let i = choose|i: int|
            0 <= i < s.take(j + 1).len() && (#[trigger] s.take(j + 1)[i]).name@ == x;
        if i < j {
            assert(s.take(j)[i].name@ == x);
        }
    }
    assert forall|x: Seq<char>| has_seq(s.take(j), x) implies has_seq(s.take(j + 1), x) by {
        let i = choose|i: int| 0 <= i < s.take(j).len() && (#[trigger] s.take(j)[i]).name@ == x;
        assert(s.take(j + 1)[i].name@ == x);
    }
    assert(s.take(j + 1)[j].name@ == s[j].name@);
}

/// Some slot in the step sounds this note number.
pub open spec fn has_note(notes: Seq<NoteSlot>, note: u8) -> bool {
    exists|i: int| 0 <= i < notes.len() && (#[trigger] notes[i]).note == note
}

/// `j` is the first slot sounding this note number.
pub open spec fn first_note(notes: Seq<NoteSlot>, note: u8, j: int) -> bool {
    &&& 0 <= j < notes.len()
    &&& notes[j].note == note
    &&& forall|k: int| 0 <= k < j ==> (#[trigger] notes[k]).note != note
}

/// The note slot an add-note command writes: the given velocity, and the
/// given length or one sixteenth note.
pub open spec fn made_slot(note: u8, velocity: u8, note_len: Option<NoteDuration>) -> NoteSlot {
    NoteSlot {
        note,
        velocity: Some(velocity),
        duration: match note_len {
            Some(d) => d,
            None => NoteDuration::Sn(1),
        },
    }
}

/// A note list with every slot sounding `note` struck out.
pub open spec fn remove_note_spec(s: Seq<NoteSlot>, note: u8) -> Seq<NoteSlot>
    decreases s.len(),
{
    if s.len() == 0 {
        Seq::empty()
    } else if s.last().note == note {
        remove_note_spec(s.drop_last(), note)
    } else {
        remove_note_spec(s.drop_last(), note).push(s.last())
    }
}

/// Removing a note strikes exactly its slots; removing an absent note leaves
/// the list untouched.
pub proof fn lemma_remove_note_spec(s: Seq<NoteSlot>, note: u8)
    ensures
        forall|i: int|
            0 <= i < remove_note_spec(s, note).len() ==> (#[trigger] remove_note_spec(s, note)[
            i]).note != note,
        !has_note(s, note) ==> remove_note_spec(s, note) == s,
        remove_note_spec(s, note).len() <= s.len(),
    decreases s.len(),
{
    if s.len() == 0 {
        if !has_note(s, note) {
            assert(remove_note_spec(s, note) =~= s);
        }
    } else {
        let pre = s.drop_last();
        lemma_remove_note_spec(pre, note);
        if !has_note(s, note) {
            assert(s[s.len() - 1].note != note);
            assert forall|i: int| 0 <= i < pre.len() implies (#[trigger] pre[i]).note != note by {
                assert(s[i].note != note);
            }
            assert(!has_note(pre, note));
            assert(remove_note_spec(s, note) =~= s);
        }
    }
}

/// The name a new sequence gets: the given one, or empty.
pub open spec fn opt_name_spec(n: Option<String>) -> Seq<char> {
    match n {
        Some(s) => s@,
        None => Seq::empty(),
    }
}

/// The device a new sequence targets: the given one, or the pass-through
/// device.
pub open spec fn opt_dev_spec(d: Option<String>) -> Seq<char> {
    match d {
        Some(s) => s@,
        None => "MIDI THRU"@,
    }
}

/// The channel a new sequence uses: the given one, or channel 1.
pub open spec fn opt_chan_spec(c: Option<MidiChannel>) -> MidiChannel {
    match c {
        Some(ch) => ch,
        None => MidiChannel::Ch1,
    }
}

/// Why a command was refused.
#[derive(Clone, Copy, Debug, PartialEq, Eq, Structural)]
pub enum SequencerError {
    /// The named sequence is not in the map.
    UnknownSequence,
    /// The step index lies beyond the sequence's length.
    InvalidStep,
    /// The note number lies outside 0..=127.
    InvalidNote,
    /// The saved data could not be decoded.
    BadSaveData,
}

/// The whole control-plane state: the authoritative sequence map, the three
/// play-state name sets, the pending note-offs and retriggers, and the shared
/// tick counter.
#[derive(Debug)]
pub struct SequencerState {
    pub sequences: Vec<Sequence>,
    pub playing: Vec<String>,
    pub queued: Vec<String>,
    pub queued_stop: Vec<String>,
    pub held: Vec<HeldNote>,
    pub retrigs: Vec<Retrig>,
    pub tick: u64,
}

impl SequencerState {
    /// Sequence names are unique, every sequence keeps its own invariant, the
    /// play-state sets hold no duplicates, and a playing or queued name always
    /// resolves in the map.
    pub open spec fn wf(self) -> bool {
        &&& uniq_seqs(self.sequences@)
        &&& forall|i: int| 0 <= i < self.sequences@.len() ==> (#[trigger] self.sequences@[i]).wf()
        &&& uniq_names(self.playing@)
        &&& uniq_names(self.queued@)
        &&& uniq_names(self.queued_stop@)
        &&& forall|x: Seq<char>| mem_name(self.playing@, x) ==> has_seq(self.sequences@, x)
        &&& forall|x: Seq<char>| mem_name(self.queued@, x) ==> has_seq(self.sequences@, x)
    }

    /// An empty sequencer: no sequences, nothing playing, tick at zero.
    pub fn new() -> (r: Self)
        ensures
            r.wf(),
            r.sequences@.len() == 0,
            r.playing@.len() == 0,
            r.queued@.len() == 0,
            r.queued_stop@.len() == 0,
            r.held@.len() == 0,
            r.retrigs@.len() == 0,
            r.tick == 0,
    {
        SequencerState {
            sequences: Vec::new(),
            playing: Vec::new(),
            queued: Vec::new(),
            queued_stop: Vec::new(),
            held: Vec::new(),
            retrigs: Vec::new(),
            tick: 0,
        }
    }

    /// The position of the sequence with this name, if any.
    pub fn find_seq(&self, name: &String) -> (r: Option<usize>)
        ensures
            match r {
                Some(i) => i < self.sequences@.len() && self.sequences@[i as int].name@ == name@,
                None => !has_seq(self.sequences@, name@),
            },
    {
        let mut i: usize = 0;
        while i < self.sequences.len()
            invariant
                i <= self.sequences@.len(),
                forall|k: int| 0 <= k < i ==> (#[trigger] self.sequences@[k]).name@ != name@,
            decreases self.sequences@.len() - i,
        {
            if self.sequences[i].name.eq(name) {
                return Some(i);
            }
            i += 1;
        }
        None
    }

    /// The names of all sequences, in map order.
    pub fn get_sequences(&self) -> (r: Vec<String>)
        ensures
            r@.len() == self.sequences@.len(),
            forall|i: int|
                0 <= i < r@.len() ==> (#[trigger] r@[i])@ == self.sequences@[i].name@,
            forall|x: Seq<char>| mem_name(r@, x) <==> has_seq(self.sequences@, x),
    {
        let mut out: Vec<String> = Vec::new();
        let mut i: usize = 0;
        while i < self.sequences.len()
            invariant
                i <= self.sequences@.len(),
                out@.len() == i,
                forall|k: int| 0 <= k < i ==> (#[trigger] out@[k])@ == self.sequences@[k].name@,
            decreases self.sequences@.len() - i,
        {
            let name = self.sequences[i].name.clone();
            out.push(name);
            i += 1;
        }
        proof {
            assert forall|x: Seq<char>| mem_name(out@, x) implies has_seq(self.sequences@, x) by {
                let i = choose|i: int| 0 <= i < out@.len() && (#[trigger] out@[i])@ == x;
                assert(self.sequences@[i].name@ == x);
            }
            assert forall|x: Seq<char>| has_seq(self.sequences@, x) implies mem_name(out@, x) by {
                let i = choose|i: int|
                    0 <= i < self.sequences@.len() && (#[trigger] self.sequences@[i]).name@ == x;
                assert(out@[i]@ == x);
            }
        }
        out
    }

    /// Create a sequence (or overwrite the one of the same name): absent
    /// fields take their defaults — an empty name, the pass-through device,
    /// channel 1 — and the loop starts with sixteen empty steps.
    pub fn new_sequence(
        &mut self,
        name: Option<String>,
        midi_dev: Option<String>,
        channel: Option<MidiChannel>,
    )
        requires
            old(self).wf(),
        ensures
            final(self).wf(),
            final(self).sequences@.len() >= 1,
            new_sequence_post(*old(self), *final(self), name, midi_dev, channel),
    {
        let mut seq = Sequence::default();
        if let Some(n) = name {
            seq.name = n;
        }
        if let Some(d) = midi_dev {
            seq.midi_dev = d;
        }
        if let Some(c) = channel {
            seq.channel = c;
        }
        let ghost pre = self.sequences@;
        match self.find_seq(&seq.name) {
            Some(i) => {
                proof {
                    lemma_idx_of(pre, seq.name@, i as int);
                }
                let ghost q = seq;
                self.sequences.set(i, seq);
                proof {
                    lemma_seqs_update(pre, self.sequences@, i as int);
                    lemma_idx_of(self.sequences@, q.name@, i as int);
                }
            },
            None => {
                let ghost q = seq;
                self.sequences.push(seq);
                proof {
                    lemma_seqs_push(pre, q);
                }
            },
        }
        proof {
            assert forall|x: Seq<char>| mem_name(self.playing@, x) implies has_seq(
                self.sequences@,
                x,
            ) by {}
        }
    }

    /// Point the named sequence at another output device.
    pub fn set_sequence_dev(&mut self, name: &String, midi_dev: String) -> (r: Result<
        (),
        SequencerError,
    >)
        requires
            old(self).wf(),
        ensures
            final(self).wf(),
            r is Ok <==> has_seq(old(self).sequences@, name@),
            r is Err ==> *final(self) == *old(self) && r == Err::<(), SequencerError>(
                SequencerError::UnknownSequence,
            ),
            r is Ok ==> {
                &&& frame_except(old(self).sequences@, final(self).sequences@, name@)
                &&& seq_at(final(self).sequences@, name@).midi_dev@ == midi_dev@
                &&& seq_at(final(self).sequences@, name@).name@ == name@
                &&& seq_at(final(self).sequences@, name@).channel == seq_at(
                    old(self).sequences@,
                    name@,
                ).channel
                &&& seq_at(final(self).sequences@, name@).steps == seq_at(
                    old(self).sequences@,
                    name@,
                ).steps
                &&& same_play_state(*old(self), *final(self))
            },
    {
        let i = match self.find_seq(name) {
            Some(i) => i,
            None => {
                return Err(SequencerError::UnknownSequence);
            },
        };
        let ghost pre = self.sequences@;
        proof {
            lemma_idx_of(pre, name@, i as int);
        }
        let mut sq = self.sequences.remove(i);
        sq.midi_dev = midi_dev;
        self.sequences.insert(i, sq);
        proof {
            assert(self.sequences@.len() == pre.len());
            assert(forall|j: int|
                0 <= j < pre.len() && j != i ==> self.sequences@[j] == pre[j]);
            lemma_seqs_update(pre, self.sequences@, i as int);
        }
        Ok(())
    }

    /// Move the named sequence to another MIDI channel.
    pub fn set_sequence_channel(&mut self, name: &String, channel: MidiChannel) -> (r: Result<
        (),
        SequencerError,
    >)
        requires
            old(self).wf(),
        ensures
            final(self).wf(),
            r is Ok <==> has_seq(old(self).sequences@, name@),
            r is Err ==> *final(self) == *old(self) && r == Err::<(), SequencerError>(
                SequencerError::UnknownSequence,
            ),
            r is Ok ==> {
                &&& frame_except(old(self).sequences@, final(self).sequences@, name@)
                &&& seq_at(final(self).sequences@, name@).channel == channel
                &&& seq_at(final(self).sequences@, name@).name@ == name@
                &&& seq_at(final(self).sequences@, name@).midi_dev == seq_at(
                    old(self).sequences@,
                    name@,
                ).midi_dev
                &&& seq_at(final(self).sequences@, name@).steps == seq_at(
                    old(self).sequences@,
                    name@,
                ).steps
                &&& same_play_state(*old(self), *final(self))
            },
    {
        let i = match self.find_seq(name) {
            Some(i) => i,
            None => {
                return Err(SequencerError::UnknownSequence);
            },
        };
        let ghost pre = self.sequences@;
        proof {
            lemma_idx_of(pre, name@, i as int);
        }
        let mut sq = self.sequences.remove(i);
        sq.channel = channel;
        self.sequences.insert(i, sq);
        proof {
            assert(self.sequences@.len() == pre.len());
            assert(forall|j: int|
                0 <= j < pre.len() && j != i ==> self.sequences@[j] == pre[j]);
            lemma_seqs_update(pre, self.sequences@, i as int);
        }
        Ok(())
    }

    /// Destroy the named sequence: it leaves the map, all three play-state
    /// sets, and every pending note-off and retrigger it sourced; the tick
    /// counter resets once nothing is left playing or queued.
    pub fn rm_sequence(&mut self, name: &String)
        requires
            old(self).wf(),
        ensures
            final(self).wf(),
            rm_sequence_post(*old(self), *final(self), name@),
    {
        let ghost pre = self.sequences@;
        match self.find_seq(name) {
            Some(i) => {
                proof {
                    lemma_idx_of(pre, name@, i as int);
                }
                self.sequences.remove(i);
                proof {
                    lemma_seqs_remove(pre, i as int);
                }
            },
            None => {},
        }
        remove_name(&mut self.playing, name);
        remove_name(&mut self.queued, name);
        remove_name(&mut self.queued_stop, name);
        remove_held(&mut self.held, name);
        remove_retrig(&mut self.retrigs, name);
        proof {
            lemma_remove_name_spec(old(self).playing@, name@);
            lemma_remove_name_spec(old(self).queued@, name@);
            lemma_remove_name_spec(old(self).queued_stop@, name@);
            lemma_remove_held_spec(old(self).held@, name@);
            lemma_remove_retrig_spec(old(self).retrigs@, name@);
        }
        if self.sequences.is_empty() || (self.playing.is_empty() && self.queued.is_empty()) {
            self.tick = 0;
        }
    }

    /// Atomically rename a sequence: the old name vanishes, the new one
    /// resolves to the same sequence, and membership in all three play-state
    /// sets moves to the new name. A distinct sequence already carrying the
    /// new name is overwritten.
    pub fn rename_sequence(&mut self, old_name: &String, new_name: &String) -> (r: Result<
        (),
        SequencerError,
    >)
        requires
            old(self).wf(),
        ensures
            final(self).wf(),
            r is Ok <==> has_seq(old(self).sequences@, old_name@),
            r is Err ==> *final(self) == *old(self) && r == Err::<(), SequencerError>(
                SequencerError::UnknownSequence,
            ),
            r is Ok ==> rename_post(*old(self), *final(self), old_name@, new_name@),
    {
        let ghost pre = self.sequences@;
        let i = match self.find_seq(old_name) {
            Some(i) => i,
            None => {
                return Err(SequencerError::UnknownSequence);
            },
        };
        proof {
            lemma_idx_of(pre, old_name@, i as int);
        }
        let mut sq = self.sequences.remove(i);
        proof {
            lemma_seqs_remove(pre, i as int);
        }
        let ghost mid = self.sequences@;
        // An unrelated sequence already named `new_name` is overwritten.
        match self.find_seq(new_name) {
            Some(j) => {
                proof {
                    lemma_idx_of(mid, new_name@, j as int);
                }
                self.sequences.remove(j);
                proof {
                    lemma_seqs_remove(mid, j as int);
                }
            },
            None => {},
        }
        let ghost mid2 = self.sequences@;
        sq.name = new_name.clone();
        let ghost q = sq;
        self.sequences.push(sq);
        proof {
            assert(!has_seq(mid2, new_name@));
            lemma_seqs_push(mid2, q);
        }
        // Migrate play-state membership to the new name.
        if contains_name(&self.playing, old_name) {
            remove_name(&mut self.playing, old_name);
            proof {
                lemma_remove_name_spec(old(self).playing@, old_name@);
            }
            push_unique(&mut self.playing, new_name.clone());
        }
        if contains_name(&self.queued, old_name) {
            remove_name(&mut self.queued, old_name);
            proof {
                lemma_remove_name_spec(old(self).queued@, old_name@);
            }
            push_unique(&mut self.queued, new_name.clone());
        }
        if contains_name(&self.queued_stop, old_name) {
            remove_name(&mut self.queued_stop, old_name);
            proof {
                lemma_remove_name_spec(old(self).queued_stop@, old_name@);
            }
            push_unique(&mut self.queued_stop, new_name.clone());
        }
        proof {
            assert forall|x: Seq<char>| mem_name(self.playing@, x) implies has_seq(
                self.sequences@,
                x,
            ) by {
                if x != new_name@ {
                    assert(mem_name(old(self).playing@, x));
                }
            }
            assert forall|x: Seq<char>| mem_name(self.queued@, x) implies has_seq(
                self.sequences@,
                x,
            ) by {
                if x != new_name@ {
                    assert(mem_name(old(self).queued@, x));
                }
            }
        }
        Ok(())
    }

    /// Queue the named sequences to start at the next loop boundary. Queuing
    /// cancels a pending queued-stop for the same name. Names that resolve to
    /// no sequence are returned so the caller can report them.
    pub fn play(&mut self, names: &Vec<String>) -> (unknown: Vec<String>)
        requires
            old(self).wf(),
        ensures
            final(self).wf(),
            final(self).sequences@ == old(self).sequences@,
            final(self).playing@ == old(self).playing@,
            final(self).held@ == old(self).held@,
            final(self).retrigs@ == old(self).retrigs@,
            final(self).tick == old(self).tick,
            forall|x: Seq<char>|
                #![trigger mem_name(final(self).queued@, x)]
                mem_name(final(self).queued@, x) <==> (mem_name(old(self).queued@, x) || (mem_name(
                    names@,
                    x,
                ) && has_seq(old(self).sequences@, x))),
            forall|x: Seq<char>|
                #![trigger mem_name(final(self).queued_stop@, x)]
                mem_name(final(self).queued_stop@, x) <==> (mem_name(old(self).queued_stop@, x)
                    && !mem_name(names@, x)),
            forall|i: int|
                0 <= i < unknown@.len() ==> mem_name(names@, (#[trigger] unknown@[i])@)
                    && !has_seq(old(self).sequences@, unknown@[i]@),
            forall|x: Seq<char>|
                mem_name(names@, x) && !has_seq(old(self).sequences@, x) ==> mem_name(unknown@, x),
    {
        let mut unknown: Vec<String> = Vec::new();
        let mut j: usize = 0;
        while j < names.len()
            invariant
                j <= names@.len(),
                self.wf(),
                self.sequences@ == old(self).sequences@,
                self.playing@ == old(self).playing@,
                self.held@ == old(self).held@,
                self.retrigs@ == old(self).retrigs@,
                self.tick == old(self).tick,
                forall|x: Seq<char>|
                    mem_name(self.queued@, x) <==> (mem_name(old(self).queued@, x) || (mem_name(
                        names@.take(j as int),
                        x,
                    ) && has_seq(old(self).sequences@, x))),
                forall|x: Seq<char>|
                    mem_name(self.queued_stop@, x) <==> (mem_name(old(self).queued_stop@, x)
                        && !mem_name(names@.take(j as int), x)),
                forall|i: int|
                    0 <= i < unknown@.len() ==> mem_name(names@, (#[trigger] unknown@[i])@)
                        && !has_seq(old(self).sequences@, unknown@[i]@),
                forall|x: Seq<char>|
                    mem_name(names@.take(j as int), x) && !has_seq(old(self).sequences@, x)
                        ==> mem_name(unknown@, x),
            decreases names@.len() - j,
        {
            proof {
                lemma_mem_take_step(names@, j as int);
            }
            let name = &names[j];
            let ghost pre_qs = self.queued_stop@;
            remove_name(&mut self.queued_stop, name);
            proof {
                lemma_remove_name_spec(pre_qs, name@);
            }
            if self.find_seq(name).is_some() {
                proof {
                    assert(has_seq(self.sequences@, name@));
                }
                push_unique(&mut self.queued, name.clone());
            } else {
                let ghost pre_unknown = unknown@;
                unknown.push(name.clone());
                proof {
                    assert forall|x: Seq<char>|
                        mem_name(names@.take(j + 1), x) && !has_seq(old(self).sequences@, x)
                    implies mem_name(unknown@, x) by {
                        if mem_name(names@.take(j as int), x) {
                            assert(mem_name(pre_unknown, x));
                            let i = choose|i: int|
                                0 <= i < pre_unknown.len() && (#[trigger] pre_unknown[i])@ == x;
                            assert(unknown@[i]@ == x);
                        } else {
                            assert(unknown@[unknown@.len() - 1]@ == x);
                        }
                    }
                }
            }
            j += 1;
        }
        proof {
            assert(names@.take(names@.len() as int) =~= names@);
        }
        unknown
    }

    /// Queue every sequence in the map to start at the next loop boundary.
    pub fn play_all(&mut self)
        requires
            old(self).wf(),
        ensures
            final(self).wf(),
            final(self).sequences@ == old(self).sequences@,
            final(self).playing@ == old(self).playing@,
            final(self).queued_stop@ == old(self).queued_stop@,
            final(self).held@ == old(self).held@,
            final(self).retrigs@ == old(self).retrigs@,
            final(self).tick == old(self).tick,
            forall|x: Seq<char>|
                mem_name(final(self).queued@, x) <==> (mem_name(old(self).queued@, x) || has_seq(
                    old(self).sequences@,
                    x,
                )),
    {
        let mut j: usize = 0;
        while j < self.sequences.len()
            invariant
                j <= self.sequences@.len(),
                self.wf(),
                self.sequences@ == old(self).sequences@,
                self.playing@ == old(self).playing@,
                self.queued_stop@ == old(self).queued_stop@,
                self.held@ == old(self).held@,
                self.retrigs@ == old(self).retrigs@,
                self.tick == old(self).tick,
                forall|x: Seq<char>|
                    mem_name(self.queued@, x) <==> (mem_name(old(self).queued@, x) || has_seq(
                        old(self).sequences@.take(j as int),
                        x,
                    )),
            decreases self.sequences@.len() - j,
        {
            proof {
                lemma_has_take_step(self.sequences@, j as int);
            }
            let name = self.sequences[j].name.clone();
            proof {
                assert(has_seq(self.sequences@, name@));
            }
            push_unique(&mut self.queued, name);
            j += 1;
        }
        proof {
            assert(self.sequences@.take(self.sequences@.len() as int) =~= self.sequences@);
        }
    }

    /// Stop the named sequences at once: they leave both the queued set and
    /// the playing set; in-flight held notes still release on schedule. The
    /// tick counter resets once nothing is left playing or queued.
    pub fn stop(&mut self, names: &Vec<String>)
        requires
            old(self).wf(),
        ensures
            final(self).wf(),
            final(self).sequences@ == old(self).sequences@,
            final(self).queued_stop@ == old(self).queued_stop@,
            final(self).held@ == old(self).held@,
            final(self).retrigs@ == old(self).retrigs@,
            forall|x: Seq<char>|
                #![trigger mem_name(final(self).playing@, x)]
                mem_name(final(self).playing@, x) <==> (mem_name(old(self).playing@, x)
                    && !mem_name(names@, x)),
            forall|x: Seq<char>|
                #![trigger mem_name(final(self).queued@, x)]
                mem_name(final(self).queued@, x) <==> (mem_name(old(self).queued@, x) && !mem_name(
                    names@,
                    x,
                )),
            (final(self).playing@.len() == 0 && final(self).queued@.len() == 0) ==> final(
            self).tick == 0,
            !(final(self).playing@.len() == 0 && final(self).queued@.len() == 0) ==> final(
            self).tick == old(self).tick,
    {
        let mut j: usize = 0;
        while j < names.len()
            invariant
                j <= names@.len(),
                self.wf(),
                self.sequences@ == old(self).sequences@,
                self.queued_stop@ == old(self).queued_stop@,
                self.held@ == old(self).held@,
                self.retrigs@ == old(self).retrigs@,
                self.tick == old(self).tick,
                forall|x: Seq<char>|
                    mem_name(self.playing@, x) <==> (mem_name(old(self).playing@, x) && !mem_name(
                        names@.take(j as int),
                        x,
                    )),
                forall|x: Seq<char>|
                    mem_name(self.queued@, x) <==> (mem_name(old(self).queued@, x) && !mem_name(
                        names@.take(j as int),
                        x,
                    )),
            decreases names@.len() - j,
        {
            proof {
                lemma_mem_take_step(names@, j as int);
            }
            let name = &names[j];
            let ghost pre_p = self.playing@;
            let ghost pre_q = self.queued@;
            remove_name(&mut self.playing, name);
            remove_name(&mut self.queued, name);
            proof {
                lemma_remove_name_spec(pre_p, name@);
                lemma_remove_name_spec(pre_q, name@);
            }
            j += 1;
        }
        proof {
            assert(names@.take(names@.len() as int) =~= names@);
        }
        if self.playing.is_empty() && self.queued.is_empty() {
            self.tick = 0;
        }
    }

    /// Stop everything at once and reset the tick counter.
    pub fn stop_all(&mut self)
        requires
            old(self).wf(),
        ensures
            final(self).wf(),
            final(self).sequences@ == old(self).sequences@,
            final(self).queued_stop@ == old(self).queued_stop@,
            final(self).held@ == old(self).held@,
            final(self).retrigs@ == old(self).retrigs@,
            final(self).playing@.len() == 0,
            final(self).queued@.len() == 0,
            final(self).tick == 0,
    {
        self.playing.clear();
        self.queued.clear();
        self.tick = 0;
    }

    /// Ask the named sequences to stop at their next loop boundary.
    pub fn queue_stop(&mut self, names: &Vec<String>)
        requires
            old(self).wf(),
        ensures
            final(self).wf(),
            final(self).sequences@ == old(self).sequences@,
            final(self).playing@ == old(self).playing@,
            final(self).queued@ == old(self).queued@,
            final(self).held@ == old(self).held@,
            final(self).retrigs@ == old(self).retrigs@,
            final(self).tick == old(self).tick,
            forall|x: Seq<char>|
                #![trigger mem_name(final(self).queued_stop@, x)]
                mem_name(final(self).queued_stop@, x) <==> (mem_name(old(self).queued_stop@, x)
                    || mem_name(names@, x)),
    {
        let mut j: usize = 0;
        while j < names.len()
            invariant
                j <= names@.len(),
                self.wf(),
                self.sequences@ == old(self).sequences@,
                self.playing@ == old(self).playing@,
                self.queued@ == old(self).queued@,
                self.held@ == old(self).held@,
                self.retrigs@ == old(self).retrigs@,
                self.tick == old(self).tick,
                forall|x: Seq<char>|
                    mem_name(self.queued_stop@, x) <==> (mem_name(old(self).queued_stop@, x)
                        || mem_name(names@.take(j as int), x)),
            decreases names@.len() - j,
        {
            proof {
                lemma_mem_take_step(names@, j as int);
            }
            let name = names[j].clone();
            push_unique(&mut self.queued_stop, name);
            j += 1;
        }
        proof {
            assert(names@.take(names@.len() as int) =~= names@);
        }
    }

    /// Write a note into a step of the named sequence. A slot already
    /// sounding that note number is replaced in place — never duplicated —
    /// and otherwise a slot is appended.
    pub fn add_note(
        &mut self,
        sequence: &String,
        step: usize,
        note: u8,
        velocity: u8,
        note_len: Option<NoteDuration>,
    ) -> (r: Result<(), SequencerError>)
        requires
            old(self).wf(),
        ensures
            final(self).wf(),
            r is Err ==> *final(self) == *old(self),
            !has_seq(old(self).sequences@, sequence@) <==> r == Err::<(), SequencerError>(
                SequencerError::UnknownSequence,
            ),
            has_seq(old(self).sequences@, sequence@) && step >= seq_at(
                old(self).sequences@,
                sequence@,
            ).steps@.len() <==> r == Err::<(), SequencerError>(SequencerError::InvalidStep),
            has_seq(old(self).sequences@, sequence@) && step < seq_at(
                old(self).sequences@,
                sequence@,
            ).steps@.len() && note > 127 <==> r == Err::<(), SequencerError>(
                SequencerError::InvalidNote,
            ),
            r is Ok <==> (has_seq(old(self).sequences@, sequence@) && step < seq_at(
                old(self).sequences@,
                sequence@,
            ).steps@.len() && note <= 127),
            r is Ok ==> add_note_post(
                *old(self),
                *final(self),
                sequence@,
                step as int,
                note,
                velocity,
                note_len,
            ),
    {
        let i = match self.find_seq(sequence) {
            Some(i) => i,
            None => {
                return Err(SequencerError::UnknownSequence);
            },
        };
        let ghost pre = self.sequences@;
        proof {
            lemma_idx_of(pre, sequence@, i as int);
        }
        if step >= self.sequences[i].steps.len() {
            return Err(SequencerError::InvalidStep);
        }
        if note > 127 {
            return Err(SequencerError::InvalidNote);
        }
        let mut sq = self.sequences.remove(i);
        let ghost presteps = sq.steps@;
        let mut st = sq.steps.remove(step);
        let ghost prenotes = st.notes@;
        let slot = NoteSlot {
            note,
            velocity: Some(velocity),
            duration: match note_len {
                Some(d) => d,
                None => NoteDuration::Sn(1),
            },
        };
        proof {
            assert(pre[i as int].wf());
            assert(presteps[step as int].wf());
        }
        let ghost st0 = st;
        let mut k: usize = 0;
        let mut replaced = false;
        while k < st.notes.len() && !replaced
            invariant
                k <= st.notes@.len(),
                st.cmd_a == st0.cmd_a,
                st.cmd_b == st0.cmd_b,
                forall|m: int| 0 <= m < prenotes.len() ==> (#[trigger] prenotes[m]).note <= 127,
                note <= 127,
                replaced ==> exists|j: int|
                    #[trigger] first_note(prenotes, note, j) && st.notes@ == prenotes.update(
                        j,
                        slot,
                    ),
                !replaced ==> st.notes@ == prenotes && forall|m: int|
                    0 <= m < k ==> (#[trigger] prenotes[m]).note != note,
            decreases st.notes@.len() - k + (if replaced { 0int } else { 1int }),
        {
            if st.notes[k].note == note {
                proof {
                    assert(first_note(prenotes, note, k as int));
                }
                st.notes.set(k, slot);
                replaced = true;
            } else {
                k += 1;
            }
        }
        if !replaced {
            proof {
                assert(!has_note(prenotes, note));
            }
            st.notes.push(slot);
        }
        proof {
            assert forall|m: int| 0 <= m < st.notes@.len() implies (#[trigger] st.notes@[m]).note
                <= 127 by {
                if m < prenotes.len() {
                    assert(prenotes[m].note <= 127);
                }
            }
            assert(st.wf());
        }
        sq.steps.insert(step, st);
        proof {
            assert(sq.steps@ =~= presteps.update(step as int, st));
            assert(sq.wf());
        }
        self.sequences.insert(i, sq);
        proof {
            assert(self.sequences@ =~= pre.update(i as int, sq));
            lemma_seqs_update(pre, self.sequences@, i as int);
        }
        Ok(())
    }

    /// Strike a note number out of a step of the named sequence. Asking for
    /// an absent note is a no-op.
    pub fn rm_note(&mut self, sequence: &String, step: usize, note: u8) -> (r: Result<
        (),
        SequencerError,
    >)
        requires
            old(self).wf(),
        ensures
            final(self).wf(),
            r is Err ==> *final(self) == *old(self),
            !has_seq(old(self).sequences@, sequence@) <==> r == Err::<(), SequencerError>(
                SequencerError::UnknownSequence,
            ),
            has_seq(old(self).sequences@, sequence@) && step >= seq_at(
                old(self).sequences@,
                sequence@,
            ).steps@.len() <==> r == Err::<(), SequencerError>(SequencerError::InvalidStep),
            r is Ok <==> (has_seq(old(self).sequences@, sequence@) && step < seq_at(
                old(self).sequences@,
                sequence@,
            ).steps@.len()),
            r is Ok ==> rm_note_post(*old(self), *final(self), sequence@, step as int, note),
    {
        let i = match self.find_seq(sequence) {
            Some(i) => i,
            None => {
                return Err(SequencerError::UnknownSequence);
            },
        };
        let ghost pre = self.sequences@;
        proof {
            lemma_idx_of(pre, sequence@, i as int);
        }
        if step >= self.sequences[i].steps.len() {
            return Err(SequencerError::InvalidStep);
        }
        let mut sq = self.sequences.remove(i);
        let ghost presteps = sq.steps@;
        let mut st = sq.steps.remove(step);
        let ghost prenotes = st.notes@;
        proof {
            assert(pre[i as int].wf());
            assert(presteps[step as int].wf());
        }
        let mut out: Vec<NoteSlot> = Vec::new();
        let mut k: usize = 0;
        while k < st.notes.len()
            invariant
                k <= st.notes@.len(),
                st.notes@ == prenotes,
                forall|m: int| 0 <= m < prenotes.len() ==> (#[trigger] prenotes[m]).note <= 127,
                out@ == remove_note_spec(prenotes.take(k as int), note),
                forall|m: int| 0 <= m < out@.len() ==> (#[trigger] out@[m]).note <= 127,
            decreases st.notes@.len() - k,
        {
            proof {
                assert(prenotes.take(k + 1).drop_last() =~= prenotes.take(k as int));
                assert(prenotes.take(k + 1).last() == prenotes[k as int]);
            }
            if st.notes[k].note != note {
                let slot = st.notes[k];
                out.push(slot);
            }
            k += 1;
        }
        proof {
            assert(prenotes.take(prenotes.len() as int) =~= prenotes);
            lemma_remove_note_spec(prenotes, note);
        }
        st.notes = out;
        proof {
            assert(st.wf());
        }
        sq.steps.insert(step, st);
        proof {
            assert(sq.steps@ =~= presteps.update(step as int, st));
            assert(sq.wf());
        }
        self.sequences.insert(i, sq);
        proof {
            assert(self.sequences@ =~= pre.update(i as int, sq));
            lemma_seqs_update(pre, self.sequences@, i as int);
        }
        Ok(())
    }

    /// Attach a tracker command to a step of the named sequence: it fills the
    /// first empty command slot, or replaces the second when both are taken.
    pub fn add_cmd(&mut self, sequence: &String, step: usize, cmd: TrackerCmd) -> (r: Result<
        (),
        SequencerError,
    >)
        requires
            old(self).wf(),
        ensures
            final(self).wf(),
            r is Err ==> *final(self) == *old(self),
            !has_seq(old(self).sequences@, sequence@) <==> r == Err::<(), SequencerError>(
                SequencerError::UnknownSequence,
            ),
            has_seq(old(self).sequences@, sequence@) && step >= seq_at(
                old(self).sequences@,
                sequence@,
            ).steps@.len() <==> r == Err::<(), SequencerError>(SequencerError::InvalidStep),
            r is Ok <==> (has_seq(old(self).sequences@, sequence@) && step < seq_at(
                old(self).sequences@,
                sequence@,
            ).steps@.len()),
            r is Ok ==> add_cmd_post(*old(self), *final(self), sequence@, step as int, cmd),
    {
        let i = match self.find_seq(sequence) {
            Some(i) => i,
            None => {
                return Err(SequencerError::UnknownSequence);
            },
        };
        let ghost pre = self.sequences@;
        proof {
            lemma_idx_of(pre, sequence@, i as int);
        }
        if step >= self.sequences[i].steps.len() {
            return Err(SequencerError::InvalidStep);
        }
        let mut sq = self.sequences.remove(i);
        let ghost presteps = sq.steps@;
        let mut st = sq.steps.remove(step);
        let empty_a = match &st.cmd_a {
            TrackerCmd::NoCmd => true,
            _ => false,
        };
        if empty_a {
            st.cmd_a = cmd;
        } else {
            st.cmd_b = cmd;
        }
        proof {
            assert(pre[i as int].wf());
            assert(presteps[step as int].wf());
            assert(st.wf());
        }
        sq.steps.insert(step, st);
        proof {
            assert(sq.steps@ =~= presteps.update(step as int, st));
            assert(sq.wf());
        }
        self.sequences.insert(i, sq);
        proof {
            assert(self.sequences@ =~= pre.update(i as int, sq));
            lemma_seqs_update(pre, self.sequences@, i as int);
        }
        Ok(())
    }

    /// Detach a tracker command from a step of the named sequence: every slot
    /// holding an equal command is emptied; asking for an absent command is a
    /// no-op.
    pub fn rm_cmd(&mut self, sequence: &String, step: usize, cmd: &TrackerCmd) -> (r: Result<
        (),
        SequencerError,
    >)
        requires
            old(self).wf(),
        ensures
            final(self).wf(),
            r is Err ==> *final(self) == *old(self),
            !has_seq(old(self).sequences@, sequence@) <==> r == Err::<(), SequencerError>(
                SequencerError::UnknownSequence,
            ),
            has_seq(old(self).sequences@, sequence@) && step >= seq_at(
                old(self).sequences@,
                sequence@,
            ).steps@.len() <==> r == Err::<(), SequencerError>(SequencerError::InvalidStep),
            r is Ok <==> (has_seq(old(self).sequences@, sequence@) && step < seq_at(
                old(self).sequences@,
                sequence@,
            ).steps@.len()),
            r is Ok ==> rm_cmd_post(*old(self), *final(self), sequence@, step as int, *cmd),
    {
        let i = match self.find_seq(sequence) {
            Some(i) => i,
            None => {
                return Err(SequencerError::UnknownSequence);
            },
        };
        let ghost pre = self.sequences@;
        proof {
            lemma_idx_of(pre, sequence@, i as int);
        }
        if step >= self.sequences[i].steps.len() {
            return Err(SequencerError::InvalidStep);
        }
        let mut sq = self.sequences.remove(i);
        let ghost presteps = sq.steps@;
        let mut st = sq.steps.remove(step);
        if crate::types::tracker_cmd_eq(&st.cmd_a, cmd) {
            st.cmd_a = TrackerCmd::NoCmd;
        }
        if crate::types::tracker_cmd_eq(&st.cmd_b, cmd) {
            st.cmd_b = TrackerCmd::NoCmd;
        }
        proof {
            assert(pre[i as int].wf());
            assert(presteps[step as int].wf());
            assert(st.wf());
        }
        sq.steps.insert(step, st);
        proof {
            assert(sq.steps@ =~= presteps.update(step as int, st));
            assert(sq.wf());
        }
        self.sequences.insert(i, sq);
        proof {
            assert(self.sequences@ =~= pre.update(i as int, sq));
            lemma_seqs_update(pre, self.sequences@, i as int);
        }
        Ok(())
    }

    /// Grow or shrink the named sequence's loop: a positive amount appends
    /// that many empty steps, a negative one truncates — but never below one
    /// step, where the whole request is refused as a no-op.
    pub fn change_len_by(&mut self, sequence: &String, amt: i64) -> (r: Result<
        (),
        SequencerError,
    >)
        requires
            old(self).wf(),
            has_seq(old(self).sequences@, sequence@) ==> amt <= usize::MAX - seq_at(
                old(self).sequences@,
                sequence@,
            ).steps@.len(),
        ensures
            final(self).wf(),
            r is Err ==> *final(self) == *old(self),
            r is Ok <==> has_seq(old(self).sequences@, sequence@),
            r is Err ==> r == Err::<(), SequencerError>(SequencerError::UnknownSequence),
            r is Ok ==> change_len_post(*old(self), *final(self), sequence@, amt),
    {
        let i = match self.find_seq(sequence) {
            Some(i) => i,
            None => {
                return Err(SequencerError::UnknownSequence);
            },
        };
        let ghost pre = self.sequences@;
        proof {
            lemma_idx_of(pre, sequence@, i as int);
        }
        let mut sq = self.sequences.remove(i);
        let ghost presteps = sq.steps@;
        proof {
            assert(pre[i as int].wf());
        }
        if amt > 0 {
            let mut added: usize = 0;
            let goal: usize = amt as usize;
            while added < goal
                invariant
                    added <= goal,
                    sq.steps@.len() == presteps.len() + added,
                    sq.name == pre[i as int].name,
                    sq.midi_dev == pre[i as int].midi_dev,
                    sq.channel == pre[i as int].channel,
                    presteps.len() + goal <= usize::MAX,
                    forall|k: int| 0 <= k < presteps.len() ==> sq.steps@[k] == presteps[k],
                    forall|k: int|
                        presteps.len() <= k < sq.steps@.len() ==> (#[trigger] sq.steps@[
                        k]).notes@.len() == 0 && sq.steps@[k].cmd_a is NoCmd && sq.steps@[k].cmd_b
                            is NoCmd,
                decreases goal - added,
            {
                sq.steps.push(Step::new());
                added += 1;
            }
        } else if amt < 0 {
            let cut: u64 = if amt == i64::MIN {
                9223372036854775808u64
            } else {
                (-amt) as u64
            };
            if (sq.steps.len() as u64) > cut {
                let keep = sq.steps.len() - (cut as usize);
                sq.steps.truncate(keep);
                proof {
                    assert(sq.steps@ =~= presteps.take(keep as int));
                }
            }
        }
        proof {
            assert forall|k: int| 0 <= k < sq.steps@.len() implies (#[trigger] sq.steps@[
            k]).wf() by {
                if k < presteps.len() {
                    assert(presteps[k].wf());
                }
            }
            assert(sq.wf());
        }
        self.sequences.insert(i, sq);
        proof {
            assert(self.sequences@ =~= pre.update(i as int, sq));
            lemma_seqs_update(pre, self.sequences@, i as int);
        }
        Ok(())
    }

    /// A field-wise copy of the named sequence, if it exists.
    pub fn get_sequence(&self, name: &String) -> (r: Option<Sequence>)
        requires
            self.wf(),
        ensures
            r is Some <==> has_seq(self.sequences@, name@),
            r matches Some(s) ==> crate::types::sequence_models(
                s,
                seq_at(self.sequences@, name@),
            ),
    {
        match self.find_seq(name) {
            Some(i) => {
                proof {
                    lemma_idx_of(self.sequences@, name@, i as int);
                }
                Some(crate::types::clone_sequence(&self.sequences[i]))
            },
            None => None,
        }
    }
}

/// The command surface of the control plane, drained between ticks.
/// Persistence commands decide here and leave the file work to the caller as
/// an effect.
#[derive(Debug)]
pub enum SequencerControlCmd {
    GetSequence { sequence: String },
    GetSequences,
    NewSequence { name: Option<String>, midi_dev: Option<String>, channel: Option<MidiChannel> },
    SetSequenceDev { name: String, midi_dev: String },
    SetSequenceChannel { name: String, channel: MidiChannel },
    RenameSequence { old_name: String, new_name: String },
    RmSequence { name: String },
    Play(Vec<String>),
    PlayAll,
    Stop(Vec<String>),
    StopAll,
    QueueStop(Vec<String>),
    AddNote { sequence: String, step: usize, note: u8, velocity: u8, note_len: Option<NoteDuration> },
    RmNote { sequence: String, step: usize, note: u8 },
    AddCmd { sequence: String, step: usize, cmd: TrackerCmd },
    RmCmd { sequence: String, step: usize, cmd: TrackerCmd },
    ChangeLenBy { sequence: String, amt: i64 },
    SaveSequence { sequence: String },
    ListSavedSequences,
    LoadSequence { sequence: String },
    RmSavedSequence { sequence: String },
    SaveProject { project_name: String },
    ListSavedProjects,
    LoadSavedProject { project_name: String },
    RmSavedProject { project_name: String },
}

/// What a command asks the caller to do after the state has changed: answer
/// a query, or perform the file work a persistence command decided on.
#[derive(Debug)]
pub enum SequencerEffect {
    Done,
    Snapshot(Option<Sequence>),
    Names(Vec<String>),
    UnknownNames(Vec<String>),
    WriteSequenceFile { name: String, contents: String },
    ReadSequenceFile { name: String },
    RmSequenceFile { name: String },
    ListSequenceFiles,
    WriteProjectFile { name: String, contents: String },
    ReadProjectFile { name: String },
    RmProjectFile { name: String },
    ListProjectFiles,
}

/// The play-state sets, the pending note-offs and retriggers, and the tick
/// counter are untouched.
pub open spec fn same_play_state(pre: SequencerState, post: SequencerState) -> bool {
    &&& post.playing@ == pre.playing@
    &&& post.queued@ == pre.queued@
    &&& post.queued_stop@ == pre.queued_stop@
    &&& post.held@ == pre.held@
    &&& post.retrigs@ == pre.retrigs@
    &&& post.tick == pre.tick
}

/// The sequence maps hold the same names, and every name but `n` resolves to
/// the same sequence as before.
pub open spec fn frame_except(pre: Seq<Sequence>, post: Seq<Sequence>, n: Seq<char>) -> bool {
    &&& forall|x: Seq<char>| has_seq(post, x) <==> has_seq(pre, x)
    &&& forall|x: Seq<char>| x != n && has_seq(pre, x) ==> seq_at(post, x) == seq_at(pre, x)
}

/// An accepted step edit changed at most step `step` of the sequence named
/// `n`: its identity fields, its length and its other steps are kept, and so
/// is every other sequence.
pub open spec fn step_edit_frame(
    pre: Seq<Sequence>,
    post: Seq<Sequence>,
    n: Seq<char>,
    step: int,
) -> bool {
    let olds = seq_at(pre, n);
    let news = seq_at(post, n);
    &&& frame_except(pre, post, n)
    &&& news.name@ == n
    &&& news.midi_dev == olds.midi_dev
    &&& news.channel == olds.channel
    &&& news.steps@.len() == olds.steps@.len()
    &&& forall|k: int|
        0 <= k < olds.steps@.len() && k != step ==> news.steps@[k] == olds.steps@[k]
}

/// What an accepted add-note leaves behind: in the addressed step, a slot
/// already sounding the note is replaced in place, otherwise a slot is
/// appended; everything else is untouched.
pub open spec fn add_note_post(
    pre: SequencerState,
    post: SequencerState,
    sequence: Seq<char>,
    step: int,
    note: u8,
    velocity: u8,
    note_len: Option<NoteDuration>,
) -> bool {
    let oldstep = seq_at(pre.sequences@, sequence).steps@[step];
    let newstep = seq_at(post.sequences@, sequence).steps@[step];
    &&& step_edit_frame(pre.sequences@, post.sequences@, sequence, step)
    &&& newstep.cmd_a == oldstep.cmd_a
    &&& newstep.cmd_b == oldstep.cmd_b
    &&& (has_note(oldstep.notes@, note) ==> exists|j: int|
        #[trigger] first_note(oldstep.notes@, note, j) && newstep.notes@ == oldstep.notes@.update(
            j,
            made_slot(note, velocity, note_len),
        ))
    &&& (!has_note(oldstep.notes@, note) ==> newstep.notes@ == oldstep.notes@.push(
        made_slot(note, velocity, note_len),
    ))
    &&& same_play_state(pre, post)
}

/// What an accepted remove-note leaves behind: every slot of the addressed
/// step sounding the note is struck out; everything else is untouched.
pub open spec fn rm_note_post(
    pre: SequencerState,
    post: SequencerState,
    sequence: Seq<char>,
    step: int,
    note: u8,
) -> bool {
    let oldstep = seq_at(pre.sequences@, sequence).steps@[step];
    let newstep = seq_at(post.sequences@, sequence).steps@[step];
    &&& step_edit_frame(pre.sequences@, post.sequences@, sequence, step)
    &&& newstep.cmd_a == oldstep.cmd_a
    &&& newstep.cmd_b == oldstep.cmd_b
    &&& newstep.notes@ == remove_note_spec(oldstep.notes@, note)
    &&& same_play_state(pre, post)
}

/// What an accepted add-command leaves behind: the command fills the first
/// empty slot of the addressed step, or replaces the second when both are
/// taken; everything else is untouched.
pub open spec fn add_cmd_post(
    pre: SequencerState,
    post: SequencerState,
    sequence: Seq<char>,
    step: int,
    c: TrackerCmd,
) -> bool {
    let oldstep = seq_at(pre.sequences@, sequence).steps@[step];
    let newstep = seq_at(post.sequences@, sequence).steps@[step];
    &&& step_edit_frame(pre.sequences@, post.sequences@, sequence, step)
    &&& newstep.notes@ == oldstep.notes@
    &&& (oldstep.cmd_a is NoCmd ==> newstep.cmd_a == c && newstep.cmd_b == oldstep.cmd_b)
    &&& (!(oldstep.cmd_a is NoCmd) ==> newstep.cmd_a == oldstep.cmd_a && newstep.cmd_b == c)
    &&& same_play_state(pre, post)
}

/// What an accepted remove-command leaves behind: every slot of the addressed
/// step holding an equal command is emptied; everything else is untouched.
pub open spec fn rm_cmd_post(
    pre: SequencerState,
    post: SequencerState,
    sequence: Seq<char>,
    step: int,
    c: TrackerCmd,
) -> bool {
    let oldstep = seq_at(pre.sequences@, sequence).steps@[step];
    let newstep = seq_at(post.sequences@, sequence).steps@[step];
    &&& step_edit_frame(pre.sequences@, post.sequences@, sequence, step)
    &&& newstep.notes@ == oldstep.notes@
    &&& newstep.cmd_a == (if crate::types::cmd_matches(oldstep.cmd_a, c) {
        TrackerCmd::NoCmd
    } else {
        oldstep.cmd_a
    })
    &&& newstep.cmd_b == (if crate::types::cmd_matches(oldstep.cmd_b, c) {
        TrackerCmd::NoCmd
    } else {
        oldstep.cmd_b
    })
    &&& same_play_state(pre, post)
}

/// What an accepted length change leaves behind: a positive amount appends
/// that many empty steps, a negative one truncates from the end — but never
/// below one step, where the whole request is a no-op; everything else is
/// untouched.
pub open spec fn change_len_post(
    pre: SequencerState,
    post: SequencerState,
    sequence: Seq<char>,
    amt: i64,
) -> bool {
    let olds = seq_at(pre.sequences@, sequence);
    let news = seq_at(post.sequences@, sequence);
    let oldlen = olds.steps@.len() as int;
    &&& frame_except(pre.sequences@, post.sequences@, sequence)
    &&& news.name@ == sequence
    &&& news.midi_dev == olds.midi_dev
    &&& news.channel == olds.channel
    &&& news.steps@.len() >= 1
    &&& (amt >= 0 ==> news.steps@.len() == oldlen + amt)
    &&& (amt < 0 && oldlen + amt >= 1 ==> news.steps@.len() == oldlen + amt)
    &&& (amt < 0 && oldlen + amt < 1 ==> news.steps@.len() == oldlen)
    &&& forall|k: int|
        0 <= k < news.steps@.len() && k < oldlen ==> news.steps@[k] == olds.steps@[k]
    &&& forall|k: int|
        oldlen <= k < news.steps@.len() ==> (#[trigger] news.steps@[k]).notes@.len() == 0
            && news.steps@[k].cmd_a is NoCmd && news.steps@[k].cmd_b is NoCmd
    &&& same_play_state(pre, post)
}

/// What creating a sequence leaves behind: the resolved name resolves to a
/// fresh sequence — the resolved device and channel, sixteen steps empty of
/// notes and commands — every other sequence is untouched, and the play
/// state does not move.
pub open spec fn new_sequence_post(
    pre: SequencerState,
    post: SequencerState,
    name: Option<String>,
    midi_dev: Option<String>,
    channel: Option<MidiChannel>,
) -> bool {
    let n = opt_name_spec(name);
    let made = seq_at(post.sequences@, n);
    &&& forall|x: Seq<char>|
        has_seq(post.sequences@, x) <==> (has_seq(pre.sequences@, x) || x == n)
    &&& made.name@ == n
    &&& made.midi_dev@ == opt_dev_spec(midi_dev)
    &&& made.channel == opt_chan_spec(channel)
    &&& made.steps@.len() == crate::clock::N_STEPS
    &&& forall|i: int|
        0 <= i < crate::clock::N_STEPS ==> (#[trigger] made.steps@[i]).notes@.len() == 0
            && made.steps@[i].cmd_a is NoCmd && made.steps@[i].cmd_b is NoCmd
    &&& forall|x: Seq<char>|
        x != n && has_seq(pre.sequences@, x) ==> seq_at(post.sequences@, x) == seq_at(
            pre.sequences@,
            x,
        )
    &&& same_play_state(pre, post)
}

/// What an accepted rename leaves behind: the new name resolves to the old
/// sequence — device, channel and steps kept — the old name is gone, its
/// membership in all three play-state sets moved to the new name, and
/// everything else is untouched.
pub open spec fn rename_post(
    pre: SequencerState,
    post: SequencerState,
    old_name: Seq<char>,
    new_name: Seq<char>,
) -> bool {
    &&& (old_name != new_name ==> !has_seq(post.sequences@, old_name))
    &&& has_seq(post.sequences@, new_name)
    &&& forall|x: Seq<char>|
        x != old_name && x != new_name ==> (has_seq(post.sequences@, x) <==> has_seq(
            pre.sequences@,
            x,
        ))
    &&& seq_at(post.sequences@, new_name).name@ == new_name
    &&& seq_at(post.sequences@, new_name).midi_dev == seq_at(pre.sequences@, old_name).midi_dev
    &&& seq_at(post.sequences@, new_name).channel == seq_at(pre.sequences@, old_name).channel
    &&& seq_at(post.sequences@, new_name).steps == seq_at(pre.sequences@, old_name).steps
    &&& forall|x: Seq<char>|
        x != old_name && x != new_name && has_seq(pre.sequences@, x) ==> seq_at(
            post.sequences@,
            x,
        ) == seq_at(pre.sequences@, x)
    &&& mem_name(post.playing@, new_name) == (mem_name(pre.playing@, old_name) || mem_name(
        pre.playing@,
        new_name,
    ))
    &&& mem_name(post.queued@, new_name) == (mem_name(pre.queued@, old_name) || mem_name(
        pre.queued@,
        new_name,
    ))
    &&& mem_name(post.queued_stop@, new_name) == (mem_name(pre.queued_stop@, old_name)
        || mem_name(pre.queued_stop@, new_name))
    &&& (old_name != new_name ==> !mem_name(post.playing@, old_name) && !mem_name(
        post.queued@,
        old_name,
    ) && !mem_name(post.queued_stop@, old_name))
    &&& forall|x: Seq<char>|
        x != old_name && x != new_name ==> mem_name(post.playing@, x) == mem_name(
            pre.playing@,
            x,
        ) && mem_name(post.queued@, x) == mem_name(pre.queued@, x) && mem_name(
            post.queued_stop@,
            x,
        ) == mem_name(pre.queued_stop@, x)
    &&& post.held@ == pre.held@
    &&& post.retrigs@ == pre.retrigs@
    &&& post.tick == pre.tick
}

/// What destroying a sequence leaves behind: the name resolves nowhere, is
/// out of all three play-state sets, sourced no pending note-off or
/// retrigger any more, and everything else is untouched; the tick counter
/// resets once nothing is left playing or queued.
pub open spec fn rm_sequence_post(
    pre: SequencerState,
    post: SequencerState,
    n: Seq<char>,
) -> bool {
    &&& !has_seq(post.sequences@, n)
    &&& forall|x: Seq<char>|
        has_seq(post.sequences@, x) <==> (has_seq(pre.sequences@, x) && x != n)
    &&& forall|x: Seq<char>|
        x != n && has_seq(pre.sequences@, x) ==> seq_at(post.sequences@, x) == seq_at(
            pre.sequences@,
            x,
        )
    &&& !mem_name(post.playing@, n)
    &&& !mem_name(post.queued@, n)
    &&& !mem_name(post.queued_stop@, n)
    &&& forall|x: Seq<char>|
        x != n ==> mem_name(post.playing@, x) == mem_name(pre.playing@, x)
    &&& forall|x: Seq<char>| x != n ==> mem_name(post.queued@, x) == mem_name(pre.queued@, x)
    &&& forall|x: Seq<char>|
        x != n ==> mem_name(post.queued_stop@, x) == mem_name(pre.queued_stop@, x)
    &&& forall|i: int|
        0 <= i < post.held@.len() ==> (#[trigger] post.held@[i]).source@ != n
    &&& forall|i: int|
        0 <= i < post.retrigs@.len() ==> (#[trigger] post.retrigs@[i]).source@ != n
    &&& (post.sequences@.len() == 0 || (post.playing@.len() == 0 && post.queued@.len() == 0))
        ==> post.tick == 0
}

/// One of the first `k` decoded project entries carries this name.
pub open spec fn decoded_name(ms: Seq<crate::persist::SeqM>, k: int, x: Seq<char>) -> bool {
    exists|i: int| 0 <= i < k && (#[trigger] ms[i]).name == x
}

/// Entry `i` is the last among the first `k` decoded project entries to carry
/// its name: on a duplicated name, the one whose content wins.
pub open spec fn last_writer(ms: Seq<crate::persist::SeqM>, k: int, i: int) -> bool {
    0 <= i < k && forall|j: int| i < j < k ==> (#[trigger] ms[j]).name != ms[i].name
}

impl SequencerState {
    /// Put a sequence into the map, overwriting any of the same name.
    pub fn insert_sequence(&mut self, sq: Sequence)
        requires
            old(self).wf(),
            sq.wf(),
        ensures
            final(self).wf(),
            forall|x: Seq<char>|
                has_seq(final(self).sequences@, x) <==> (has_seq(old(self).sequences@, x) || x
                    == sq.name@),
            seq_at(final(self).sequences@, sq.name@) == sq,
            forall|x: Seq<char>|
                x != sq.name@ && has_seq(old(self).sequences@, x) ==> seq_at(
                    final(self).sequences@,
                    x,
                ) == seq_at(old(self).sequences@, x),
            final(self).playing@ == old(self).playing@,
            final(self).queued@ == old(self).queued@,
            final(self).queued_stop@ == old(self).queued_stop@,
            final(self).held@ == old(self).held@,
            final(self).retrigs@ == old(self).retrigs@,
            final(self).tick == old(self).tick,
    {
        let ghost pre = self.sequences@;
        match self.find_seq(&sq.name) {
            Some(i) => {
                proof {
                    lemma_idx_of(pre, sq.name@, i as int);
                }
                let ghost q = sq;
                self.sequences.set(i, sq);
                proof {
                    lemma_seqs_update(pre, self.sequences@, i as int);
                    lemma_idx_of(self.sequences@, q.name@, i as int);
                }
            },
            None => {
                let ghost q = sq;
                self.sequences.push(sq);
                proof {
                    lemma_seqs_push(pre, q);
                }
            },
        }
        proof {
            assert forall|x: Seq<char>| mem_name(self.playing@, x) implies has_seq(
                self.sequences@,
                x,
            ) by {}
        }
    }

    /// Take loaded sequence text into the map: decoded data replaces any
    /// sequence of the same name; unintelligible data is refused.
    pub fn load_sequence_data(&mut self, text: &String) -> (r: Result<(), SequencerError>)
        requires
            old(self).wf(),
        ensures
            final(self).wf(),
            r is Err ==> *final(self) == *old(self) && r == Err::<(), SequencerError>(
                SequencerError::BadSaveData,
            ),
            r is Ok <==> (crate::persist::dec_seq(text@, 0) matches Some(q) && q.1 == text@.len()),
            crate::persist::dec_seq(text@, 0) matches Some(q) ==> q.1 == text@.len() ==> {
                &&& has_seq(final(self).sequences@, q.0.name)
                &&& crate::persist::seq_is_m(seq_at(final(self).sequences@, q.0.name), q.0)
                &&& forall|x: Seq<char>|
                    has_seq(final(self).sequences@, x) <==> (has_seq(old(self).sequences@, x) || x
                        == q.0.name)
                &&& forall|x: Seq<char>|
                    x != q.0.name && has_seq(old(self).sequences@, x) ==> seq_at(
                        final(self).sequences@,
                        x,
                    ) == seq_at(old(self).sequences@, x)
            },
            same_play_state(*old(self), *final(self)),
    {
        match crate::persist::decode_sequence(text) {
            Some(sq) => {
                self.insert_sequence(sq);
                Ok(())
            },
            None => Err(SequencerError::BadSaveData),
        }
    }

    /// One insertion step of a project load: putting the image of entry `k`
    /// into the map carries the last-writer-wins account from the first `k`
    /// decoded entries to the first `k + 1`.
    proof fn lemma_project_insert_step(
        base: Seq<Sequence>,
        pre: Seq<Sequence>,
        post: Seq<Sequence>,
        ms: Seq<crate::persist::SeqM>,
        k: int,
        q: Sequence,
    )
        requires
            0 <= k < ms.len(),
            crate::persist::seq_is_m(q, ms[k]),
            forall|x: Seq<char>| has_seq(post, x) <==> (has_seq(pre, x) || x == q.name@),
            seq_at(post, q.name@) == q,
            forall|x: Seq<char>|
                x != q.name@ && has_seq(pre, x) ==> seq_at(post, x) == seq_at(pre, x),
            forall|x: Seq<char>|
                has_seq(pre, x) <==> (has_seq(base, x) || decoded_name(ms, k, x)),
            forall|i: int|
                #[trigger] last_writer(ms, k, i) ==> has_seq(pre, ms[i].name)
                    && crate::persist::seq_is_m(seq_at(pre, ms[i].name), ms[i]),
            forall|x: Seq<char>|
                has_seq(base, x) && !decoded_name(ms, k, x) ==> seq_at(pre, x) == seq_at(base, x),
        ensures
            forall|x: Seq<char>|
                has_seq(post, x) <==> (has_seq(base, x) || decoded_name(ms, k + 1, x)),
            forall|i: int|
                #[trigger] last_writer(ms, k + 1, i) ==> has_seq(post, ms[i].name)
                    && crate::persist::seq_is_m(seq_at(post, ms[i].name), ms[i]),
            forall|x: Seq<char>|
                has_seq(base, x) && !decoded_name(ms, k + 1, x) ==> seq_at(post, x) == seq_at(
                    base,
                    x,
                ),
    {
        assert(q.name@ == ms[k].name);
        assert forall|x: Seq<char>| has_seq(post, x) implies (has_seq(base, x) || decoded_name(
            ms,
            k + 1,
            x,
        )) by {
            if x == q.name@ {
                assert(ms[k].name == x);
                assert(decoded_name(ms, k + 1, x));
            } else {
                assert(has_seq(pre, x));
                if !has_seq(base, x) {
                    assert(decoded_name(ms, k, x));
                    let i = choose|i: int| 0 <= i < k && (#[trigger] ms[i]).name == x;
                    assert(decoded_name(ms, k + 1, x));
                }
            }
        }
        assert forall|x: Seq<char>| (has_seq(base, x) || decoded_name(ms, k + 1, x)) implies
            has_seq(post, x) by {
            if has_seq(base, x) {
                assert(has_seq(pre, x));
            } else {
                let i = choose|i: int| 0 <= i < k + 1 && (#[trigger] ms[i]).name == x;
                if i < k {
                    assert(decoded_name(ms, k, x));
                    assert(has_seq(pre, x));
                } else {
                    assert(x == q.name@);
                }
            }
        }
        assert forall|i: int| #[trigger] last_writer(ms, k + 1, i) implies has_seq(
            post,
            ms[i].name,
        ) && crate::persist::seq_is_m(seq_at(post, ms[i].name), ms[i]) by {
            if i == k {
                assert(seq_at(post, q.name@) == q);
            } else {
                assert(ms[k].name != ms[i].name);
                assert(last_writer(ms, k, i));
                assert(has_seq(pre, ms[i].name));
                assert(seq_at(post, ms[i].name) == seq_at(pre, ms[i].name));
            }
        }
        assert forall|x: Seq<char>|
            has_seq(base, x) && !decoded_name(ms, k + 1, x) implies seq_at(post, x) == seq_at(
            base,
            x,
        ) by {
            assert(!decoded_name(ms, k, x)) by {
                if decoded_name(ms, k, x) {
                    let i = choose|i: int| 0 <= i < k && (#[trigger] ms[i]).name == x;
                    assert(decoded_name(ms, k + 1, x));
                }
            }
            assert(ms[k].name != x) by {
                if ms[k].name == x {
                    assert(decoded_name(ms, k + 1, x));
                }
            }
            assert(seq_at(post, x) == seq_at(pre, x));
        }
    }

    /// Take loaded project text into the map: every decoded sequence enters
    /// under its decoded name, replacing any sequence of the same name — on a
    /// duplicated name the last decoded one wins; unintelligible data is
    /// refused.
    #[verifier::rlimit(100)]
    pub fn load_project_data(&mut self, text: &String) -> (r: Result<(), SequencerError>)
        requires
            old(self).wf(),
        ensures
            final(self).wf(),
            r is Err ==> *final(self) == *old(self) && r == Err::<(), SequencerError>(
                SequencerError::BadSaveData,
            ),
            r is Ok <==> (crate::persist::dec_proj(text@, 0) matches Some(q) && q.1
                == text@.len()),
            r is Ok ==> {
                let ms = crate::persist::dec_proj(text@, 0)->Some_0.0;
                &&& forall|x: Seq<char>|
                    has_seq(final(self).sequences@, x) <==> (has_seq(old(self).sequences@, x)
                        || decoded_name(ms, ms.len() as int, x))
                &&& forall|i: int|
                    #[trigger] last_writer(ms, ms.len() as int, i) ==> has_seq(
                        final(self).sequences@,
                        ms[i].name,
                    ) && crate::persist::seq_is_m(
                        seq_at(final(self).sequences@, ms[i].name),
                        ms[i],
                    )
                &&& forall|x: Seq<char>|
                    has_seq(old(self).sequences@, x) && !decoded_name(ms, ms.len() as int, x)
                        ==> seq_at(final(self).sequences@, x) == seq_at(old(self).sequences@, x)
            },
            same_play_state(*old(self), *final(self)),
    {
        let loaded = match crate::persist::decode_project(text) {
            Some(v) => v,
            None => {
                return Err(SequencerError::BadSaveData);
            },
        };
        let ghost ms = crate::persist::dec_proj(text@, 0)->Some_0.0;
        let ghost base = self.sequences@;
        let ghost start = *self;
        let mut k: usize = 0;
        while k < loaded.len()
            invariant
                k <= loaded@.len(),
                self.wf(),
                loaded@.len() == ms.len(),
                forall|i: int|
                    0 <= i < loaded@.len() ==> (#[trigger] loaded@[i]).wf()
                        && crate::persist::seq_is_m(loaded@[i], ms[i]),
                forall|x: Seq<char>|
                    has_seq(self.sequences@, x) <==> (has_seq(base, x) || decoded_name(
                        ms,
                        k as int,
                        x,
                    )),
                forall|i: int|
                    #[trigger] last_writer(ms, k as int, i) ==> has_seq(
                        self.sequences@,
                        ms[i].name,
                    ) && crate::persist::seq_is_m(seq_at(self.sequences@, ms[i].name), ms[i]),
                forall|x: Seq<char>|
                    has_seq(base, x) && !decoded_name(ms, k as int, x) ==> seq_at(
                        self.sequences@,
                        x,
                    ) == seq_at(base, x),
                same_play_state(start, *self),
            decreases loaded@.len() - k,
        {
            let sq = crate::types::clone_sequence(&loaded[k]);
            proof {
                crate::types::lemma_models_wf(sq, loaded@[k as int]);
                crate::persist::lemma_models_is_m(sq, loaded@[k as int], ms[k as int]);
            }
            let ghost pre = self.sequences@;
            let ghost q = sq;
            self.insert_sequence(sq);
            proof {
                Self::lemma_project_insert_step(base, pre, self.sequences@, ms, k as int, q);
            }
            k += 1;
        }
        Ok(())
    }

    /// Apply one control command between ticks: queries answer with a
    /// snapshot, mutations change the state, and persistence commands hand
    /// the decided file work back as an effect.
    pub fn apply_cmd(&mut self, cmd: SequencerControlCmd) -> (r: Result<
        SequencerEffect,
        SequencerError,
    >)
        requires
            old(self).wf(),
            cmd matches SequencerControlCmd::ChangeLenBy { ref sequence, amt } ==> (has_seq(
                old(self).sequences@,
                sequence@,
            ) ==> amt <= usize::MAX - seq_at(old(self).sequences@, sequence@).steps@.len()),
        ensures
            final(self).wf(),
            cmd matches SequencerControlCmd::GetSequence { ref sequence } ==> *final(self) == *old(
                self,
            ) && (r matches Ok(e) && e matches SequencerEffect::Snapshot(snap) && (snap is Some
                <==> has_seq(old(self).sequences@, sequence@)) && (snap matches Some(s)
                ==> crate::types::sequence_models(s, seq_at(old(self).sequences@, sequence@)))),
            cmd is GetSequences ==> *final(self) == *old(self) && (r matches Ok(e) && e matches
                SequencerEffect::Names(names) && (forall|x: Seq<char>|
                mem_name(names@, x) <==> has_seq(old(self).sequences@, x))),
            cmd matches SequencerControlCmd::NewSequence { ref name, ref midi_dev, channel } ==> (r
                matches Ok(e) && e is Done) && new_sequence_post(
                *old(self),
                *final(self),
                *name,
                *midi_dev,
                channel,
            ),
            cmd matches SequencerControlCmd::SetSequenceDev { ref name, ref midi_dev } ==> {
                &&& (r is Ok <==> has_seq(old(self).sequences@, name@))
                &&& (r is Err ==> *final(self) == *old(self) && r == Err::<
                    SequencerEffect,
                    SequencerError,
                >(SequencerError::UnknownSequence))
                &&& (r matches Ok(e) ==> {
                    &&& e is Done
                    &&& frame_except(old(self).sequences@, final(self).sequences@, name@)
                    &&& seq_at(final(self).sequences@, name@).midi_dev@ == midi_dev@
                    &&& seq_at(final(self).sequences@, name@).name@ == name@
                    &&& seq_at(final(self).sequences@, name@).channel == seq_at(
                        old(self).sequences@,
                        name@,
                    ).channel
                    &&& seq_at(final(self).sequences@, name@).steps == seq_at(
                        old(self).sequences@,
                        name@,
                    ).steps
                    &&& same_play_state(*old(self), *final(self))
                })
            },
            cmd matches SequencerControlCmd::SetSequenceChannel { ref name, channel } ==> {
                &&& (r is Ok <==> has_seq(old(self).sequences@, name@))
                &&& (r is Err ==> *final(self) == *old(self) && r == Err::<
                    SequencerEffect,
                    SequencerError,
                >(SequencerError::UnknownSequence))
                &&& (r matches Ok(e) ==> {
                    &&& e is Done
                    &&& frame_except(old(self).sequences@, final(self).sequences@, name@)
                    &&& seq_at(final(self).sequences@, name@).channel == channel
                    &&& seq_at(final(self).sequences@, name@).name@ == name@
                    &&& seq_at(final(self).sequences@, name@).midi_dev == seq_at(
                        old(self).sequences@,
                        name@,
                    ).midi_dev
                    &&& seq_at(final(self).sequences@, name@).steps == seq_at(
                        old(self).sequences@,
                        name@,
                    ).steps
                    &&& same_play_state(*old(self), *final(self))
                })
            },
            cmd matches SequencerControlCmd::RenameSequence { ref old_name, ref new_name } ==> {
                &&& (r is Ok <==> has_seq(old(self).sequences@, old_name@))
                &&& (r is Err ==> *final(self) == *old(self) && r == Err::<
                    SequencerEffect,
                    SequencerError,
                >(SequencerError::UnknownSequence))
                &&& (r matches Ok(e) ==> e is Done && rename_post(
                    *old(self),
                    *final(self),
                    old_name@,
                    new_name@,
                ))
            },
            cmd matches SequencerControlCmd::RmSequence { ref name } ==> (r matches Ok(e) && e
                is Done) && rm_sequence_post(*old(self), *final(self), name@),
            cmd matches SequencerControlCmd::Play(ref names) ==> {
                &&& r matches Ok(e) && e matches SequencerEffect::UnknownNames(u) && (forall|
                    i: int,
                |
                    0 <= i < u@.len() ==> mem_name(names@, (#[trigger] u@[i])@) && !has_seq(
                        old(self).sequences@,
                        u@[i]@,
                    )) && (forall|x: Seq<char>|
                    mem_name(names@, x) && !has_seq(old(self).sequences@, x) ==> mem_name(u@, x))
                &&& final(self).sequences@ == old(self).sequences@
                &&& final(self).playing@ == old(self).playing@
                &&& final(self).held@ == old(self).held@
                &&& final(self).retrigs@ == old(self).retrigs@
                &&& final(self).tick == old(self).tick
                &&& forall|x: Seq<char>|
                    #![trigger mem_name(final(self).queued@, x)]
                    mem_name(final(self).queued@, x) <==> (mem_name(old(self).queued@, x) || (
                    mem_name(names@, x) && has_seq(old(self).sequences@, x)))
                &&& forall|x: Seq<char>|
                    #![trigger mem_name(final(self).queued_stop@, x)]
                    mem_name(final(self).queued_stop@, x) <==> (mem_name(old(self).queued_stop@, x)
                        && !mem_name(names@, x))
            },
            cmd is PlayAll ==> {
                &&& r matches Ok(e) && e is Done
                &&& final(self).sequences@ == old(self).sequences@
                &&& final(self).playing@ == old(self).playing@
                &&& final(self).queued_stop@ == old(self).queued_stop@
                &&& final(self).held@ == old(self).held@
                &&& final(self).retrigs@ == old(self).retrigs@
                &&& final(self).tick == old(self).tick
                &&& forall|x: Seq<char>|
                    mem_name(final(self).queued@, x) <==> (mem_name(old(self).queued@, x)
                        || has_seq(old(self).sequences@, x))
            },
            cmd matches SequencerControlCmd::Stop(ref names) ==> {
                &&& r matches Ok(e) && e is Done
                &&& final(self).sequences@ == old(self).sequences@
                &&& final(self).queued_stop@ == old(self).queued_stop@
                &&& final(self).held@ == old(self).held@
                &&& final(self).retrigs@ == old(self).retrigs@
                &&& forall|x: Seq<char>|
                    #![trigger mem_name(final(self).playing@, x)]
                    mem_name(final(self).playing@, x) <==> (mem_name(old(self).playing@, x)
                        && !mem_name(names@, x))
                &&& forall|x: Seq<char>|
                    #![trigger mem_name(final(self).queued@, x)]
                    mem_name(final(self).queued@, x) <==> (mem_name(old(self).queued@, x)
                        && !mem_name(names@, x))
                &&& (final(self).playing@.len() == 0 && final(self).queued@.len() == 0) ==> final(
                self).tick == 0
                &&& !(final(self).playing@.len() == 0 && final(self).queued@.len() == 0) ==> final(
                self).tick == old(self).tick
            },
            cmd is StopAll ==> {
                &&& r matches Ok(e) && e is Done
                &&& final(self).sequences@ == old(self).sequences@
                &&& final(self).queued_stop@ == old(self).queued_stop@
                &&& final(self).held@ == old(self).held@
                &&& final(self).retrigs@ == old(self).retrigs@
                &&& final(self).playing@.len() == 0
                &&& final(self).queued@.len() == 0
                &&& final(self).tick == 0
            },
            cmd matches SequencerControlCmd::QueueStop(ref names) ==> {
                &&& r matches Ok(e) && e is Done
                &&& final(self).sequences@ == old(self).sequences@
                &&& final(self).playing@ == old(self).playing@
                &&& final(self).queued@ == old(self).queued@
                &&& final(self).held@ == old(self).held@
                &&& final(self).retrigs@ == old(self).retrigs@
                &&& final(self).tick == old(self).tick
                &&& forall|x: Seq<char>|
                    #![trigger mem_name(final(self).queued_stop@, x)]
                    mem_name(final(self).queued_stop@, x) <==> (mem_name(old(self).queued_stop@, x)
                        || mem_name(names@, x))
            },
            cmd matches SequencerControlCmd::AddNote {
                ref sequence,
                step,
                note,
                velocity,
                note_len,
            } ==> {
                &&& (r is Err ==> *final(self) == *old(self))
                &&& (!has_seq(old(self).sequences@, sequence@) <==> r == Err::<
                    SequencerEffect,
                    SequencerError,
                >(SequencerError::UnknownSequence))
                &&& (has_seq(old(self).sequences@, sequence@) && step >= seq_at(
                    old(self).sequences@,
                    sequence@,
                ).steps@.len() <==> r == Err::<SequencerEffect, SequencerError>(
                    SequencerError::InvalidStep,
                ))
                &&& (has_seq(old(self).sequences@, sequence@) && step < seq_at(
                    old(self).sequences@,
                    sequence@,
                ).steps@.len() && note > 127 <==> r == Err::<SequencerEffect, SequencerError>(
                    SequencerError::InvalidNote,
                ))
                &&& (r is Ok <==> (has_seq(old(self).sequences@, sequence@) && step < seq_at(
                    old(self).sequences@,
                    sequence@,
                ).steps@.len() && note <= 127))
                &&& (r matches Ok(e) ==> e is Done && add_note_post(
                    *old(self),
                    *final(self),
                    sequence@,
                    step as int,
                    note,
                    velocity,
                    note_len,
                ))
            },
            cmd matches SequencerControlCmd::RmNote { ref sequence, step, note } ==> {
                &&& (r is Err ==> *final(self) == *old(self))
                &&& (!has_seq(old(self).sequences@, sequence@) <==> r == Err::<
                    SequencerEffect,
                    SequencerError,
                >(SequencerError::UnknownSequence))
                &&& (has_seq(old(self).sequences@, sequence@) && step >= seq_at(
                    old(self).sequences@,
                    sequence@,
                ).steps@.len() <==> r == Err::<SequencerEffect, SequencerError>(
                    SequencerError::InvalidStep,
                ))
                &&& (r is Ok <==> (has_seq(old(self).sequences@, sequence@) && step < seq_at(
                    old(self).sequences@,
                    sequence@,
                ).steps@.len()))
                &&& (r matches Ok(e) ==> e is Done && rm_note_post(
                    *old(self),
                    *final(self),
                    sequence@,
                    step as int,
                    note,
                ) && !has_note(
                    seq_at(final(self).sequences@, sequence@).steps@[step as int].notes@,
                    note,
                ))
            },
            cmd matches SequencerControlCmd::AddCmd { ref sequence, step, cmd: ref c } ==> {
                &&& (r is Err ==> *final(self) == *old(self))
                &&& (!has_seq(old(self).sequences@, sequence@) <==> r == Err::<
                    SequencerEffect,
                    SequencerError,
                >(SequencerError::UnknownSequence))
                &&& (has_seq(old(self).sequences@, sequence@) && step >= seq_at(
                    old(self).sequences@,
                    sequence@,
                ).steps@.len() <==> r == Err::<SequencerEffect, SequencerError>(
                    SequencerError::InvalidStep,
                ))
                &&& (r is Ok <==> (has_seq(old(self).sequences@, sequence@) && step < seq_at(
                    old(self).sequences@,
                    sequence@,
                ).steps@.len()))
                &&& (r matches Ok(e) ==> e is Done && add_cmd_post(
                    *old(self),
                    *final(self),
                    sequence@,
                    step as int,
                    *c,
                ))
            },
            cmd matches SequencerControlCmd::RmCmd { ref sequence, step, cmd: ref c } ==> {
                &&& (r is Err ==> *final(self) == *old(self))
                &&& (!has_seq(old(self).sequences@, sequence@) <==> r == Err::<
                    SequencerEffect,
                    SequencerError,
                >(SequencerError::UnknownSequence))
                &&& (has_seq(old(self).sequences@, sequence@) && step >= seq_at(
                    old(self).sequences@,
                    sequence@,
                ).steps@.len() <==> r == Err::<SequencerEffect, SequencerError>(
                    SequencerError::InvalidStep,
                ))
                &&& (r is Ok <==> (has_seq(old(self).sequences@, sequence@) && step < seq_at(
                    old(self).sequences@,
                    sequence@,
                ).steps@.len()))
                &&& (r matches Ok(e) ==> e is Done && rm_cmd_post(
                    *old(self),
                    *final(self),
                    sequence@,
                    step as int,
                    *c,
                ))
            },
            cmd matches SequencerControlCmd::ChangeLenBy { ref sequence, amt } ==> {
                &&& (r is Ok <==> has_seq(old(self).sequences@, sequence@))
                &&& (r is Err ==> *final(self) == *old(self) && r == Err::<
                    SequencerEffect,
                    SequencerError,
                >(SequencerError::UnknownSequence))
                &&& (r matches Ok(e) ==> e is Done && change_len_post(
                    *old(self),
                    *final(self),
                    sequence@,
                    amt,
                ))
                &&& (has_seq(final(self).sequences@, sequence@) ==> seq_at(
                    final(self).sequences@,
                    sequence@,
                ).steps@.len() >= 1)
            },
            cmd matches SequencerControlCmd::SaveSequence { ref sequence } ==> *final(self)
                == *old(self) && (r matches Ok(e) ==> e matches SequencerEffect::WriteSequenceFile {
                name,
                contents,
            } && name@ == sequence@ && contents@ == crate::persist::enc_seq_spec(
                seq_at(old(self).sequences@, sequence@),
            )) && (r is Ok <==> has_seq(old(self).sequences@, sequence@)) && (r is Err ==> r
                == Err::<SequencerEffect, SequencerError>(SequencerError::UnknownSequence)),
            cmd is ListSavedSequences ==> *final(self) == *old(self) && (r matches Ok(e) && e
                is ListSequenceFiles),
            cmd matches SequencerControlCmd::LoadSequence { ref sequence } ==> *final(self)
                == *old(self) && (r matches Ok(e) && e matches SequencerEffect::ReadSequenceFile {
                name,
            } && name@ == sequence@),
            cmd matches SequencerControlCmd::RmSavedSequence { ref sequence } ==> *final(self)
                == *old(self) && (r matches Ok(e) && e matches SequencerEffect::RmSequenceFile {
                name,
            } && name@ == sequence@),
            cmd matches SequencerControlCmd::SaveProject { ref project_name } ==> *final(self)
                == *old(self) && (r matches Ok(e) && e matches SequencerEffect::WriteProjectFile {
                name,
                contents,
            } && name@ == project_name@ && contents@ == crate::persist::enc_u(
                old(self).sequences@.len() as int,
            ) + crate::persist::enc_proj_spec(old(self).sequences@)),
            cmd is ListSavedProjects ==> *final(self) == *old(self) && (r matches Ok(e) && e
                is ListProjectFiles),
            cmd matches SequencerControlCmd::LoadSavedProject { ref project_name } ==> *final(self)
                == *old(self) && (r matches Ok(e) && e matches SequencerEffect::ReadProjectFile {
                name,
            } && name@ == project_name@),
            cmd matches SequencerControlCmd::RmSavedProject { ref project_name } ==> *final(self)
                == *old(self) && (r matches Ok(e) && e matches SequencerEffect::RmProjectFile {
                name,
            } && name@ == project_name@),
    {
        match cmd {
            SequencerControlCmd::GetSequence { sequence } => {
                let snap = self.get_sequence(&sequence);
                Ok(SequencerEffect::Snapshot(snap))
            },
            SequencerControlCmd::GetSequences => {
                let names = self.get_sequences();
                Ok(SequencerEffect::Names(names))
            },
            SequencerControlCmd::NewSequence { name, midi_dev, channel } => {
                self.new_sequence(name, midi_dev, channel);
                Ok(SequencerEffect::Done)
            },
            SequencerControlCmd::SetSequenceDev { name, midi_dev } => {
                match self.set_sequence_dev(&name, midi_dev) {
                    Ok(()) => Ok(SequencerEffect::Done),
                    Err(e) => Err(e),
                }
            },
            SequencerControlCmd::SetSequenceChannel { name, channel } => {
                match self.set_sequence_channel(&name, channel) {
                    Ok(()) => Ok(SequencerEffect::Done),
                    Err(e) => Err(e),
                }
            },
            SequencerControlCmd::RenameSequence { old_name, new_name } => {
                match self.rename_sequence(&old_name, &new_name) {
                    Ok(()) => Ok(SequencerEffect::Done),
                    Err(e) => Err(e),
                }
            },
            SequencerControlCmd::RmSequence { name } => {
                self.rm_sequence(&name);
                Ok(SequencerEffect::Done)
            },
            SequencerControlCmd::Play(names) => {
                let unknown = self.play(&names);
                Ok(SequencerEffect::UnknownNames(unknown))
            },
            SequencerControlCmd::PlayAll => {
                self.play_all();
                Ok(SequencerEffect::Done)
            },
            SequencerControlCmd::Stop(names) => {
                self.stop(&names);
                Ok(SequencerEffect::Done)
            },
            SequencerControlCmd::StopAll => {
                self.stop_all();
                Ok(SequencerEffect::Done)
            },
            SequencerControlCmd::QueueStop(names) => {
                self.queue_stop(&names);
                Ok(SequencerEffect::Done)
            },
            SequencerControlCmd::AddNote { sequence, step, note, velocity, note_len } => {
                match self.add_note(&sequence, step, note, velocity, note_len) {
                    Ok(()) => Ok(SequencerEffect::Done),
                    Err(e) => Err(e),
                }
            },
            SequencerControlCmd::RmNote { sequence, step, note } => {
                match self.rm_note(&sequence, step, note) {
                    Ok(()) => {
                        proof {
                            let oldn = seq_at(old(self).sequences@, sequence@).steps@[
                                step as int].notes@;
                            lemma_remove_note_spec(oldn, note);
                            let newn = seq_at(self.sequences@, sequence@).steps@[
                                step as int].notes@;
                            if has_note(newn, note) {
                                let w = choose|w: int|
                                    0 <= w < newn.len() && (#[trigger] newn[w]).note == note;
                                assert(remove_note_spec(oldn, note)[w].note != note);
                            }
                        }
                        Ok(SequencerEffect::Done)
                    },
                    Err(e) => Err(e),
                }
            },
            SequencerControlCmd::AddCmd { sequence, step, cmd } => {
                match self.add_cmd(&sequence, step, cmd) {
                    Ok(()) => Ok(SequencerEffect::Done),
                    Err(e) => Err(e),
                }
            },
            SequencerControlCmd::RmCmd { sequence, step, cmd } => {
                match self.rm_cmd(&sequence, step, &cmd) {
                    Ok(()) => Ok(SequencerEffect::Done),
                    Err(e) => Err(e),
                }
            },
            SequencerControlCmd::ChangeLenBy { sequence, amt } => {
                match self.change_len_by(&sequence, amt) {
                    Ok(()) => Ok(SequencerEffect::Done),
                    Err(e) => Err(e),
                }
            },
            SequencerControlCmd::SaveSequence { sequence } => {
                let i = match self.find_seq(&sequence) {
                    Some(i) => i,
                    None => {
                        return Err(SequencerError::UnknownSequence);
                    },
                };
                proof {
                    lemma_idx_of(self.sequences@, sequence@, i as int);
                }
                let contents = crate::persist::encode_sequence(&self.sequences[i]);
                Ok(SequencerEffect::WriteSequenceFile { name: sequence, contents })
            },
            SequencerControlCmd::ListSavedSequences => Ok(SequencerEffect::ListSequenceFiles),
            SequencerControlCmd::LoadSequence { sequence } => Ok(
                SequencerEffect::ReadSequenceFile { name: sequence },
            ),
            SequencerControlCmd::RmSavedSequence { sequence } => Ok(
                SequencerEffect::RmSequenceFile { name: sequence },
            ),
            SequencerControlCmd::SaveProject { project_name } => {
                let contents = crate::persist::encode_project(&self.sequences);
                Ok(SequencerEffect::WriteProjectFile { name: project_name, contents })
            },
            SequencerControlCmd::ListSavedProjects => Ok(SequencerEffect::ListProjectFiles),
            SequencerControlCmd::LoadSavedProject { project_name } => Ok(
                SequencerEffect::ReadProjectFile { name: project_name },
            ),
            SequencerControlCmd::RmSavedProject { project_name } => Ok(
                SequencerEffect::RmProjectFile { name: project_name },
            ),
        }
    }
}

} // verus!