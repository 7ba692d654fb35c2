//! The sync broadcast bus: which subscriptions exist, who receives a
//! published payload, and how failed deliveries are dropped. Delivery itself
//! is the transport's job; the bus only decides.

use vstd::prelude::*;

verus! {

/// A subscriber's connection identity.
pub type ConnId = u128;

/// An identity is subscribed.
pub open spec fn mem_conn(s: Seq<ConnId>, id: ConnId) -> bool {
    exists|i: int| 0 <= i < s.len() && #[trigger] s[i] == id
}

/// No identity is subscribed twice.
pub open spec fn uniq_conns(s: Seq<ConnId>) -> bool {
    forall|i: int, j: int| 0 <= i < j < s.len() ==> s[i] != s[j]
}

/// The subscription list with one identity struck out.
pub open spec fn remove_conn_spec(s: Seq<ConnId>, id: ConnId) -> Seq<ConnId>
    decreases s.len(),
{
    if s.len() == 0 {
        Seq::empty()
    } else if s.last() == id {
        remove_conn_spec(s.drop_last(), id)
    } else {
        remove_conn_spec(s.drop_last(), id).push(s.last())
    }
}

/// Striking an identity out removes exactly it.
pub proof fn lemma_remove_conn_spec(s: Seq<ConnId>, id: ConnId)
    ensures
        forall|x: ConnId| mem_conn(remove_conn_spec(s, id), x) <==> (mem_conn(s, x) && x != id),
        uniq_conns(s) ==> uniq_conns(remove_conn_spec(s, id)),
        forall|i: int|
            0 <= i < remove_conn_spec(s, id).len() ==> #[trigger] remove_conn_spec(s, id)[i]
                != id,
    decreases s.len(),
{
    if s.len() > 0 {
        let pre = s.drop_last();
        lemma_remove_conn_spec(pre, id);
        let r = remove_conn_spec(s, id);
        let rp = remove_conn_spec(pre, id);
        assert forall|x: ConnId| mem_conn(s, x) implies x == s.last() || mem_conn(pre, x) by {
            let i = choose|i: int| 0 <= i < s.len() && #[trigger] s[i] == x;
            if i < s.len() - 1 {
                assert(pre[i] == x);
            }
        }
        assert(forall|i: int| 0 <= i < pre.len() ==> #[trigger] s[i] == pre[i]);
        if s.last() != id {
            assert forall|x: ConnId| mem_conn(s, x) && x != id implies mem_conn(r, x) by {
                if x == s.last() {
                    assert(r[r.len() - 1] == x);
                } else {
                    let i = choose|i: int| 0 <= i < rp.len() && #[trigger] rp[i] == x;
                    assert(r[i] == x);
                }
            }
            assert forall|x: ConnId| mem_conn(r, x) implies mem_conn(s, x) && x != id by {
                let i = choose|i: int| 0 <= i < r.len() && #[trigger] r[i] == x;
                if i < r.len() - 1 {
                    assert(mem_conn(rp, rp[i]));
                    assert(mem_conn(pre, rp[i]));
                    let w = choose|w: int| 0 <= w < pre.len() && #[trigger] pre[w] == x;
                    assert(s[w] == x);
                }
            }
            if uniq_conns(s) {
                assert(uniq_conns(pre));
                assert forall|i: int, j: int| 0 <= i < j < r.len() implies r[i] != r[j] by {
                    if j < r.len() - 1 {
                        assert(rp[i] != rp[j]);
                    } else {
                        assert(mem_conn(rp, rp[i]));
                        assert(mem_conn(pre, rp[i]));
                        let w = choose|w: int| 0 <= w < pre.len() && #[trigger] pre[w] == rp[i];
                        assert(s[w] != s.last());
                    }
                }
            }
        } else {
            assert forall|x: ConnId| mem_conn(r, x) implies mem_conn(s, x) && x != id by {
                assert(mem_conn(pre, x));
                let w = choose|w: int| 0 <= w < pre.len() && #[trigger] pre[w] == x;
                assert(s[w] == x);
            }
        }
    }
}

/// The bus state: every live subscription's identity.
#[derive(Debug)]
pub struct MbServer {
    pub sessions: Vec<ConnId>,
}

impl MbServer {
    /// Subscriptions are unique.
    pub open spec fn wf(self) -> bool {
        uniq_conns(self.sessions@)
    }

    /// A bus with no subscribers.
    pub fn new() -> (r: Self)
        ensures
            r.wf(),
            r.sessions@.len() == 0,
    {
        MbServer { sessions: Vec::new() }
    }

    /// Register a subscription; registering twice changes nothing.
    pub fn connect(&mut self, id: ConnId)
        requires
            old(self).wf(),
        ensures
            final(self).wf(),
            forall|x: ConnId|
                mem_conn(final(self).sessions@, x) <==> (mem_conn(old(self).sessions@, x) || x
                    == id),
    {
        let mut i: usize = 0;
        while i < self.sessions.len()
            invariant
                i <= self.sessions@.len(),
                self.wf(),
                forall|k: int| 0 <= k < i ==> self.sessions@[k] != id,
            decreases self.sessions@.len() - i,
        {
            if self.sessions[i] == id {
                proof {
                    assert(mem_conn(self.sessions@, id));
                }
                return ;
            }
            i += 1;
        }
        let ghost pre = self.sessions@;
        self.sessions.push(id);
        proof {
            assert forall|x: ConnId| mem_conn(self.sessions@, x) implies (mem_conn(pre, x) || x
                == id) by {
                let k = choose|k: int|
                    0 <= k < self.sessions@.len() && #[trigger] self.sessions@[k] == x;
                if k < self.sessions@.len() - 1 {
                    assert(pre[k] == x);
                }
            }
            assert forall|x: ConnId| mem_conn(pre, x) implies mem_conn(self.sessions@, x) by {
                let k = choose|k: int| 0 <= k < pre.len() && #[trigger] pre[k] == x;
                assert(self.sessions@[k] == x);
            }
            assert(self.sessions@[self.sessions@.len() - 1] == id);
        }
    }

    /// Drop a subscription; an unknown identity is a no-op.
    pub fn disconnect(&mut self, id: ConnId)
        requires
            old(self).wf(),
        ensures
            final(self).wf(),
            forall|x: ConnId|
                mem_conn(final(self).sessions@, x) <==> (mem_conn(old(self).sessions@, x) && x
                    != id),
    {
        let ghost pre = self.sessions@;
        let mut out: Vec<ConnId> = Vec::new();
        let mut i: usize = 0;
        while i < self.sessions.len()
            invariant
                i <= self.sessions@.len(),
                self.sessions@ == pre,
                out@ == remove_conn_spec(pre.take(i as int), id),
            decreases self.sessions@.len() - i,
        {
            proof {
                assert(pre.take(i + 1).drop_last() =~= pre.take(i as int));
                assert(pre.take(i + 1).last() == pre[i as int]);
            }
            if self.sessions[i] != id {
                let keep = self.sessions[i];
                out.push(keep);
            }
            i += 1;
        }
        proof {
            assert(pre.take(pre.len() as int) =~= pre);
            lemma_remove_conn_spec(pre, id);
        }
        self.sessions = out;
    }

    /// Who receives a publication: every subscriber but the sender, in
    /// subscription order.
    pub fn recipients(&self, sender: ConnId) -> (r: Vec<ConnId>)
        requires
            self.wf(),
        ensures
            r@ == remove_conn_spec(self.sessions@, sender),
            forall|x: ConnId|
                mem_conn(r@, x) <==> (mem_conn(self.sessions@, x) && x != sender),
            !mem_conn(r@, sender),
    {
        let mut out: Vec<ConnId> = Vec::new();
        let mut i: usize = 0;
        while i < self.sessions.len()
            invariant
                i <= self.sessions@.len(),
                out@ == remove_conn_spec(self.sessions@.take(i as int), sender),
            decreases self.sessions@.len() - i,
        {
            proof {
                assert(self.sessions@.take(i + 1).drop_last() =~= self.sessions@.take(i as int));
                assert(self.sessions@.take(i + 1).last() == self.sessions@[i as int]);
            }
            if self.sessions[i] != sender {
                let keep = self.sessions[i];
                out.push(keep);
            }
            i += 1;
        }
        proof {
            assert(self.sessions@.take(self.sessions@.len() as int) =~= self.sessions@);
            lemma_remove_conn_spec(self.sessions@, sender);
            assert(!mem_conn(out@, sender)) by {
                if mem_conn(out@, sender) {
                    let w = choose|w: int| 0 <= w < out@.len() && #[trigger] out@[w] == sender;
                    assert(remove_conn_spec(self.sessions@, sender)[w] != sender);
                }
            }
        }
        out
    }

    /// Drop every subscription whose delivery failed: a slow or dead
    /// subscriber never stalls the publisher.
    pub fn drop_failed(&mut self, failed: &Vec<ConnId>)
        requires
            old(self).wf(),
        ensures
            final(self).wf(),
            forall|x: ConnId|
                #![trigger mem_conn(final(self).sessions@, x)]
                mem_conn(final(self).sessions@, x) <==> (mem_conn(old(self).sessions@, x)
                    && !mem_conn(failed@, x)),
    {
        let mut j: usize = 0;
        while j < failed.len()
            invariant
                j <= failed@.len(),
                self.wf(),
                forall|x: ConnId|
                    mem_conn(self.sessions@, x) <==> (mem_conn(old(self).sessions@, x)
                        && !mem_conn(failed@.take(j as int), x)),
            decreases failed@.len() - j,
        {
            proof {
                assert(failed@.take(j + 1) =~= failed@.take(j as int).push(failed@[j as int]));
                assert forall|x: ConnId| mem_conn(failed@.take(j + 1), x) implies (mem_conn(
                    failed@.take(j as int),
                    x,
                ) || x == failed@[j as int]) by {
                    let k = choose|k: int|
                        0 <= k < failed@.take(j + 1).len() && #[trigger] failed@.take(j + 1)[k]
                            == x;
                    if k < j {
                        assert(failed@.take(j as int)[k] == x);
                    }
                }
                assert forall|x: ConnId| mem_conn(failed@.take(j as int), x) implies mem_conn(
                    failed@.take(j + 1),
                    x,
                ) by {
                    let k = choose|k: int|
                        0 <= k < failed@.take(j as int).len() && #[trigger] failed@.take(
                            j as int,
                        )[k] == x;
                    assert(failed@.take(j + 1)[k] == x);
                }
                assert(failed@.take(j + 1)[j as int] == failed@[j as int]);
            }
            let id = failed[j];
            self.disconnect(id);
            j += 1;
        }
        proof {
            assert(failed@.take(failed@.len() as int) =~= failed@);
        }
    }
}

} // verus!
