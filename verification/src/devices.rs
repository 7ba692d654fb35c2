//! The device registry: the diff that discovers added and removed output
//! ports, the name set of connected devices, and the routing decision for
//! outbound messages.

use vstd::prelude::*;

use crate::sequencer::{mem_name, remove_name_spec, lemma_remove_name_spec, contains_name,
    remove_name, push_unique, uniq_names};
use crate::types::MidiReqBody;
use crate::wire::{midi_bytes_spec, request_bytes};

verus! {

/// A change in the host's set of MIDI output ports, or a request to create a
/// virtual one.
#[derive(Clone, Debug)]
pub enum MidiDev {
    Added { dev_name: String, dev_id: String },
    RMed(String),
    CreateVirtual(String),
}

/// A (name, identifier) pair names a port of the port list.
pub open spec fn mem_port(s: Seq<(String, String)>, name: Seq<char>, id: Seq<char>) -> bool {
    exists|i: int| 0 <= i < s.len() && (#[trigger] s[i]).0@ == name && s[i].1@ == id
}

/// A name names some port of the port list, whatever its identifier.
pub open spec fn mem_port_name(s: Seq<(String, String)>, name: Seq<char>) -> bool {
    exists|i: int| 0 <= i < s.len() && (#[trigger] s[i]).0@ == name
}

/// Diff the currently visible ports against the known ones: every current
/// port whose name is new yields an `Added` event, and every known port no
/// longer visible under the same name and identifier yields a removal.
pub fn diff_devices(known: &Vec<(String, String)>, current: &Vec<(String, String)>) -> (events:
    Vec<MidiDev>)
    ensures
        forall|k: int|
            0 <= k < events@.len() ==> match #[trigger] events@[k] {
                MidiDev::Added { dev_name, dev_id } => mem_port(current@, dev_name@, dev_id@)
                    && !mem_port_name(known@, dev_name@),
                MidiDev::RMed(dev_name) => mem_port_name(known@, dev_name@) && exists|j: int|
                    0 <= j < known@.len() && (#[trigger] known@[j]).0@ == dev_name@ && !mem_port(
                        current@,
                        known@[j].0@,
                        known@[j].1@,
                    ),
                MidiDev::CreateVirtual(_) => false,
            },
        forall|i: int|
            0 <= i < current@.len() && !mem_port_name(known@, (#[trigger] current@[i]).0@)
                ==> exists|k: int|
                0 <= k < events@.len() && ((#[trigger] events@[k]) matches MidiDev::Added {
                    dev_name,
                    dev_id,
                } && dev_name@ == current@[i].0@ && dev_id@ == current@[i].1@),
        forall|j: int|
            0 <= j < known@.len() && !mem_port(
                current@,
                (#[trigger] known@[j]).0@,
                known@[j].1@,
            ) ==> exists|k: int|
                0 <= k < events@.len() && ((#[trigger] events@[k]) matches MidiDev::RMed(n) && n@
                    == known@[j].0@),
{
    let mut events: Vec<MidiDev> = Vec::new();
    let mut i: usize = 0;
    while i < current.len()
        invariant
            i <= current@.len(),
            forall|k: int|
                0 <= k < events@.len() ==> match #[trigger] events@[k] {
                    MidiDev::Added { dev_name, dev_id } => mem_port(current@, dev_name@, dev_id@)
                        && !mem_port_name(known@, dev_name@),
                    MidiDev::RMed(_) => false,
                    MidiDev::CreateVirtual(_) => false,
                },
            forall|t: int|
                0 <= t < i && !mem_port_name(known@, (#[trigger] current@[t]).0@) ==> exists|
                    k: int,
                |
                    0 <= k < events@.len() && ((#[trigger] events@[k]) matches MidiDev::Added {
                        dev_name,
                        dev_id,
                    } && dev_name@ == current@[t].0@ && dev_id@ == current@[t].1@),
        decreases current@.len() - i,
    {
        let name = &current[i].0;
        let mut found = false;
        let mut j: usize = 0;
        while j < known.len() && !found
            invariant
                j <= known@.len(),
                found ==> mem_port_name(known@, name@),
                !found ==> forall|t: int| 0 <= t < j ==> (#[trigger] known@[t]).0@ != name@,
                name@ == current@[i as int].0@,
                i < current@.len(),
            decreases known@.len() - j + (if found { 0int } else { 1int }),
        {
            if known[j].0.eq(name) {
                found = true;
                proof {
                    assert(known@[j as int].0@ == name@);
                }
            } else {
                j += 1;
            }
        }
        if !found {
            let ghost pre = events@;
            let dev_name = current[i].0.clone();
            let dev_id = current[i].1.clone();
            events.push(MidiDev::Added { dev_name, dev_id });
            proof {
                assert(current@[i as int].0@ == name@);
                assert(events@[events@.len() - 1] matches MidiDev::Added { dev_name: n, dev_id: d }
                    && n@ == current@[i as int].0@ && d@ == current@[i as int].1@);
                assert(mem_port(current@, current@[i as int].0@, current@[i as int].1@)) by {
                    assert(current@[i as int].0@ == current@[i as int].0@);
                }
                assert(!mem_port_name(known@, name@)) by {
                    if mem_port_name(known@, name@) {
                        let w = choose|w: int|
                            0 <= w < known@.len() && (#[trigger] known@[w]).0@ == name@;
                        assert(known@[w].0@ != name@);
                    }
                }
                assert forall|t: int|
                    0 <= t < i + 1 && !mem_port_name(known@, (#[trigger] current@[t]).0@)
                implies exists|k: int|
                    0 <= k < events@.len() && ((#[trigger] events@[k]) matches MidiDev::Added {
                        dev_name,
                        dev_id,
                    } && dev_name@ == current@[t].0@ && dev_id@ == current@[t].1@) by {
                    if t < i {
                        let k = choose|k: int|
                            0 <= k < pre.len() && ((#[trigger] pre[k]) matches MidiDev::Added {
                                dev_name,
                                dev_id,
                            } && dev_name@ == current@[t].0@ && dev_id@ == current@[t].1@);
                        assert(events@[k] == pre[k]);
                    } else {
                        assert(events@[events@.len() - 1] matches MidiDev::Added {
                            dev_name,
                            dev_id,
                        } && dev_name@ == current@[t].0@ && dev_id@ == current@[t].1@);
                    }
                }
            }
        }
        i += 1;
    }
    // Removals: known ports that vanished from the current list.
    let ghost added_only = events@;
    let mut j: usize = 0;
    while j < known.len()
        invariant
            j <= known@.len(),
            events@.len() >= added_only.len(),
            forall|k: int| 0 <= k < added_only.len() ==> events@[k] == added_only[k],
            forall|k: int|
                0 <= k < added_only.len() ==> match #[trigger] added_only[k] {
                    MidiDev::Added { dev_name, dev_id } => mem_port(current@, dev_name@, dev_id@)
                        && !mem_port_name(known@, dev_name@),
                    MidiDev::RMed(_) => false,
                    MidiDev::CreateVirtual(_) => false,
                },
            forall|k: int|
                added_only.len() <= k < events@.len() ==> match #[trigger] events@[k] {
                    MidiDev::Added { .. } => false,
                    MidiDev::RMed(dev_name) => mem_port_name(known@, dev_name@) && exists|t: int|
                        0 <= t < known@.len() && (#[trigger] known@[t]).0@ == dev_name@
                            && !mem_port(current@, known@[t].0@, known@[t].1@),
                    MidiDev::CreateVirtual(_) => false,
                },
            forall|t: int|
                0 <= t < j && !mem_port(current@, (#[trigger] known@[t]).0@, known@[t].1@)
                    ==> exists|k: int|
                    0 <= k < events@.len() && ((#[trigger] events@[k]) matches MidiDev::RMed(n)
                        && n@ == known@[t].0@),
        decreases known@.len() - j,
    {
        let name = &known[j].0;
        let id = &known[j].1;
        let mut present = false;
        let mut t: usize = 0;
        while t < current.len() && !present
            invariant
                t <= current@.len(),
                present ==> mem_port(current@, name@, id@),
                !present ==> forall|u: int|
                    0 <= u < t ==> !((#[trigger] current@[u]).0@ == name@ && current@[u].1@
                        == id@),
                name@ == known@[j as int].0@,
                id@ == known@[j as int].1@,
                j < known@.len(),
            decreases current@.len() - t + (if present { 0int } else { 1int }),
        {
            if current[t].0.eq(name) && current[t].1.eq(id) {
                present = true;
                proof {
                    assert(current@[t as int].0@ == name@ && current@[t as int].1@ == id@);
                }
            } else {
                t += 1;
            }
        }
        if !present {
            let ghost pre = events@;
            let gone = known[j].0.clone();
            events.push(MidiDev::RMed(gone));
            proof {
                assert(known@[j as int].0@ == name@);
                assert(events@[events@.len() - 1] matches MidiDev::RMed(n) && n@ == known@[
                j as int].0@);
                assert(mem_port_name(known@, name@)) by {
                    assert(known@[j as int].0@ == name@);
                }
                assert(!mem_port(current@, known@[j as int].0@, known@[j as int].1@)) by {
                    if mem_port(current@, known@[j as int].0@, known@[j as int].1@) {
                        let w = choose|w: int|
                            0 <= w < current@.len() && (#[trigger] current@[w]).0@ == known@[
                            j as int].0@ && current@[w].1@ == known@[j as int].1@;
                        assert(!(current@[w].0@ == name@ && current@[w].1@ == id@));
                    }
                }
                assert forall|u: int|
                    0 <= u < j + 1 && !mem_port(current@, (#[trigger] known@[u]).0@, known@[u].1@)
                implies exists|k: int|
                    0 <= k < events@.len() && ((#[trigger] events@[k]) matches MidiDev::RMed(n)
                        && n@ == known@[u].0@) by {
                    if u < j {
                        let k = choose|k: int|
                            0 <= k < pre.len() && ((#[trigger] pre[k]) matches MidiDev::RMed(n)
                                && n@ == known@[u].0@);
                        assert(events@[k] == pre[k]);
                    } else {
                        assert(events@[events@.len() - 1] matches MidiDev::RMed(n) && n@ == known@[
                        u].0@);
                    }
                }
            }
        }
        j += 1;
    }
    proof {
        assert forall|k: int| 0 <= k < events@.len() implies match #[trigger] events@[k] {
            MidiDev::Added { dev_name, dev_id } => mem_port(current@, dev_name@, dev_id@)
                && !mem_port_name(known@, dev_name@),
            MidiDev::RMed(dev_name) => mem_port_name(known@, dev_name@) && exists|t: int|
                0 <= t < known@.len() && (#[trigger] known@[t]).0@ == dev_name@ && !mem_port(
                    current@,
                    known@[t].0@,
                    known@[t].1@,
                ),
            MidiDev::CreateVirtual(_) => false,
        } by {
            if k < added_only.len() {
                assert(events@[k] == added_only[k]);
            }
        }
    }
    events
}

/// Why an outbound message could not be routed.
#[derive(Clone, Copy, Debug, PartialEq, Eq, Structural)]
pub enum SendError {
    /// The requested device is not connected; the message is dropped, never
    /// queued.
    UnknownDevice,
}

/// The set of connected output device names. The connections themselves live
/// with the host MIDI layer; the registry decides what exists and where a
/// message goes.
#[derive(Debug)]
pub struct DeviceRegistry {
    pub devs: Vec<String>,
}

impl DeviceRegistry {
    /// Device names are unique.
    pub open spec fn wf(self) -> bool {
        uniq_names(self.devs@)
    }

    /// An empty registry.
    pub fn new() -> (r: Self)
        ensures
            r.wf(),
            r.devs@.len() == 0,
    {
        DeviceRegistry { devs: Vec::new() }
    }

    /// Whether a device name is connected.
    pub fn knows(&self, name: &String) -> (r: bool)
        ensures
            r == mem_name(self.devs@, name@),
    {
        contains_name(&self.devs, name)
    }

    /// Apply one registry event: an added or virtual device joins the name
    /// set (idempotently), a removed one leaves it.
    pub fn apply(&mut self, ev: &MidiDev)
        requires
            old(self).wf(),
        ensures
            final(self).wf(),
            match *ev {
                MidiDev::Added { ref dev_name, .. } => forall|x: Seq<char>|
                    mem_name(final(self).devs@, x) <==> (mem_name(old(self).devs@, x) || x
                        == dev_name@),
                MidiDev::CreateVirtual(ref dev_name) => forall|x: Seq<char>|
                    mem_name(final(self).devs@, x) <==> (mem_name(old(self).devs@, x) || x
                        == dev_name@),
                MidiDev::RMed(ref dev_name) => forall|x: Seq<char>|
                    mem_name(final(self).devs@, x) <==> (mem_name(old(self).devs@, x) && x
                        != dev_name@),
            },
    {
        match ev {
            MidiDev::Added { dev_name, dev_id: _ } => {
                push_unique(&mut self.devs, dev_name.clone());
            },
            MidiDev::CreateVirtual(dev_name) => {
                push_unique(&mut self.devs, dev_name.clone());
            },
            MidiDev::RMed(dev_name) => {
                let ghost pre = self.devs@;
                remove_name(&mut self.devs, dev_name);
                proof {
                    lemma_remove_name_spec(pre, dev_name@);
                }
            },
        }
    }

    /// Route one outbound request: a known device yields the wire bytes to
    /// send it, an unknown one is a reported error and the message is
    /// dropped.
    pub fn route(&self, req: &MidiReqBody) -> (r: Result<(String, Vec<u8>), SendError>)
        ensures
            r is Ok <==> mem_name(self.devs@, req.midi_dev@),
            r matches Ok(p) ==> p.0@ == req.midi_dev@ && p.1@ == midi_bytes_spec(
                req.channel,
                req.msg,
            ),
            r is Err ==> r == Err::<(String, Vec<u8>), SendError>(SendError::UnknownDevice),
    {
        if self.knows(&req.midi_dev) {
            Ok(request_bytes(req))
        } else {
            Err(SendError::UnknownDevice)
        }
    }
}

} // verus!
