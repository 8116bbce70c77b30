//! The broadcast relay: the registry of live sessions and the fan-out of one
//! published frame to every other session's bounded delivery queue.
//!
//! Sessions are identified by a stable id assigned at registration, and are
//! pruned by identity, never by positional index: one fan-out pass removes
//! exactly the sessions whose delivery failed, even when several fail at
//! once. A full or closed queue is a delivery failure for that recipient
//! only; it never blocks the publisher or the other recipients.

use vstd::prelude::*;

verus! {

/// Declares tokio's bounded mpsc sender, the sending half of a session's
/// delivery queue.
#[verifier::external_type_specification]
#[verifier::external_body]
#[verifier::reject_recursive_types(T)]
pub struct ExSender<T>(tokio::sync::mpsc::Sender<T>);

/// Relies on tokio's `Sender::try_send`: enqueues the message only if the
/// channel has a free slot and its receiver is still alive, and fails without
/// blocking otherwise. Nothing is promised of the outcome: the queue's state
/// belongs to the receiving task.
#[verifier::external_body]
fn queue_try_send(tx: &tokio::sync::mpsc::Sender<Vec<u8>>, msg: &Vec<u8>) -> (r: bool) {
    tx.try_send(msg.clone()).is_ok()
}

/// One registered session: a stable identity and the sending half of its
/// bounded delivery queue.
pub struct SessionHandle {
    /// The identity assigned at registration; never reused.
    pub id: u64,
    /// The sending half of the session's delivery queue.
    pub tx: tokio::sync::mpsc::Sender<Vec<u8>>,
}

/// The identities of a sequence of handles, in order.
pub open spec fn ids_of(handles: Seq<SessionHandle>) -> Seq<u64> {
    handles.map_values(|h: SessionHandle| h.id)
}

/// The relay registry: every live session's handle, in registration order.
pub struct Relay {
    pub handles: Vec<SessionHandle>,
    pub next_id: u64,
}

/// Does `v` hold `x`?
fn contains_id(v: &Vec<u64>, x: u64) -> (r: bool)
    ensures
        r == v@.contains(x),
{
    let mut i: usize = 0;
    while i < v.len()
        invariant
            i <= v@.len(),
            forall|k: int| 0 <= k < i ==> v@[k] != x,
        decreases v@.len() - i,
    {
        if v[i] == x {
            return true;
        }
        i += 1;
    }
    false
}

/// One filtering step: pushing an element onto a sequence keeps it in the
/// filtered sequence exactly when the predicate admits it.
proof fn lemma_filter_push(s: Seq<u64>, pred: spec_fn(u64) -> bool, x: u64)
    ensures
        s.push(x).filter(pred) == if pred(x) {
            s.filter(pred).push(x)
        } else {
            s.filter(pred)
        },
{
    reveal_with_fuel(Seq::<u64>::filter, 2);
    let p = s.push(x);
    assert(p.len() == s.len() + 1);
    assert(p.drop_last() =~= s);
    assert(p.last() == x);
    if pred(x) {
        assert(p.filter(pred) == p.drop_last().filter(pred).push(p.last()));
    } else {
        assert(p.filter(pred) == p.drop_last().filter(pred));
    }
}

/// An element of a filtered sequence is an element of the original.
proof fn lemma_filter_subset(s: Seq<u64>, pred: spec_fn(u64) -> bool, x: u64)
    requires
        s.filter(pred).contains(x),
    ensures
        s.contains(x),
        pred(x),
    decreases s.len(),
{
    reveal_with_fuel(Seq::<u64>::filter, 1);
    if s.len() > 0 {
        lemma_filter_push(s.drop_last(), pred, s.last());
        assert(s.drop_last().push(s.last()) =~= s);
        let f = s.filter(pred);
        let k = choose|k: int| 0 <= k < f.len() && f[k] == x;
        if pred(s.last()) && k == f.len() - 1 {
            assert(s[s.len() - 1] == x);
        } else {
            lemma_filter_subset(s.drop_last(), pred, x);
            let j = choose|j: int| 0 <= j < s.drop_last().len() && s.drop_last()[j] == x;
            assert(s[j] == x);
        }
    }
}

impl Relay {
    /// The registered identities, in registration order.
    pub open spec fn ids(&self) -> Seq<u64> {
        ids_of(self.handles@)
    }

    /// Identities are unique and below the next one to be assigned.
    pub open spec fn wf(&self) -> bool {
        &&& forall|i: int, j: int|
            0 <= i < j < self.ids().len() ==> self.ids()[i] != self.ids()[j]
        &&& forall|i: int| 0 <= i < self.ids().len() ==> #[trigger] self.ids()[i] < self.next_id
    }

    /// An empty registry.
    pub fn new() -> (r: Relay)
        ensures
            r.wf(),
            r.ids() == Seq::<u64>::empty(),
            r.next_id == 0,
    {
        let r = Relay { handles: Vec::new(), next_id: 0 };
        proof {
            assert(r.ids() =~= Seq::<u64>::empty());
        }
        r
    }

    /// Registers a new session's delivery queue and assigns it a fresh
    /// identity, appended to the registry.
    pub fn register(&mut self, tx: tokio::sync::mpsc::Sender<Vec<u8>>) -> (id: u64)
        requires
            old(self).wf(),
            old(self).next_id < u64::MAX,
        ensures
            final(self).wf(),
            id == old(self).next_id,
            final(self).next_id == id + 1,
            final(self).ids() == old(self).ids().push(id),
    {
        let id = self.next_id;
        self.handles.push(SessionHandle { id, tx });
        self.next_id = id + 1;
        proof {
            assert(self.ids() =~= old(self).ids().push(id));
        }
        id
    }

    /// Removes exactly the handles whose identity is listed in `failed`,
    /// keeping every other handle in order.
    fn prune(&mut self, failed: &Vec<u64>)
        requires
            old(self).wf(),
        ensures
            final(self).wf(),
            final(self).next_id == old(self).next_id,
            final(self).ids() == old(self).ids().filter(
                |x: u64| !failed@.contains(x),
            ),
    {
        let ghost orig = self.handles@;
        let ghost pred = |x: u64| !failed@.contains(x);
        let mut kept: Vec<SessionHandle> = Vec::new();
        proof {
            assert(ids_of(kept@) =~= Seq::<u64>::empty());
            assert(orig.take(0) =~= Seq::<SessionHandle>::empty());
            assert(ids_of(orig.take(0)) =~= Seq::<u64>::empty());
            reveal_with_fuel(Seq::<u64>::filter, 1);
            assert(Seq::<u64>::empty().filter(pred) =~= Seq::<u64>::empty());
        }
        while self.handles.len() > 0
            invariant
                self.next_id == old(self).next_id,
                old(self).wf(),
                orig == old(self).handles@,
                self.handles@.len() <= orig.len(),
                self.handles@ == orig.skip(orig.len() - self.handles@.len()),
                ids_of(kept@) == ids_of(orig.take(orig.len() - self.handles@.len())).filter(pred),
                pred == (|x: u64| !failed@.contains(x)),
            decreases self.handles@.len(),
        {
            let ghost k = orig.len() - self.handles@.len();
            let h = self.handles.remove(0);
            proof {
                assert(0 <= k < orig.len());
                assert(orig.skip(k)[0] == orig[k]);
                assert(h == orig[k]);
                assert(self.handles@ =~= orig.skip(k + 1));
                assert(orig.take(k + 1) =~= orig.take(k).push(orig[k]));
                assert(ids_of(orig.take(k + 1)) =~= ids_of(orig.take(k)).push(orig[k].id));
                lemma_filter_push(ids_of(orig.take(k)), pred, orig[k].id);
                assert(orig[k].id == ids_of(orig)[k]);
                assert(forall|i: int| 0 <= i < k ==> ids_of(orig.take(k))[i] == ids_of(orig)[i]);
            }
            if !contains_id(failed, h.id) {
                let ghost kept_pre = kept@;
                kept.push(h);
                proof {
                    assert(ids_of(kept@) =~= ids_of(kept_pre).push(orig[k].id));
                }
            }
            proof {
                assert(ids_of(kept@) =~= ids_of(orig.take(k + 1)).filter(pred));
            }
        }
        core::mem::swap(&mut self.handles, &mut kept);
        proof {
            assert(ids_of(orig) == old(self).ids());
            assert(orig.take(orig.len() - 0) =~= orig);
            assert(self.ids() == ids_of(orig).filter(pred));
            assert forall|i: int, j: int|
                0 <= i < j < self.ids().len() implies self.ids()[i] != self.ids()[j] by {
                lemma_filter_distinct_positions(ids_of(orig), pred, i, j);
            }
            assert forall|i: int| 0 <= i < self.ids().len() implies #[trigger] self.ids()[i]
                < self.next_id by {
                lemma_filter_subset(ids_of(orig), pred, self.ids()[i]);
                let a = choose|a: int|
                    0 <= a < ids_of(orig).len() && ids_of(orig)[a] == self.ids()[i];
                assert(ids_of(orig)[a] < self.next_id);
            }
        }
    }

    /// Fans one frame out to every registered session but the sender: each
    /// delivery is attempted against that session's bounded queue without
    /// blocking, and every session whose delivery fails — and only those — is
    /// removed from the registry. Returns how many deliveries succeeded and
    /// the identities that were removed.
    pub fn publish(&mut self, sender_id: u64, frame: &Vec<u8>) -> (r: (usize, Vec<u64>))
        requires
            old(self).wf(),
        ensures
            final(self).wf(),
            final(self).next_id == old(self).next_id,
            forall|k: int| 0 <= k < r.1@.len() ==> old(self).ids().contains(#[trigger] r.1@[k])
                && r.1@[k] != sender_id,
            final(self).ids() == old(self).ids().filter(|x: u64| !r.1@.contains(x)),
            r.0 + r.1@.len() + (if old(self).ids().contains(sender_id) {
                1int
            } else {
                0int
            }) == old(self).ids().len(),
    {
        let mut failed: Vec<u64> = Vec::new();
        let mut delivered: usize = 0;
        let mut i: usize = 0;
        let ghost mut seen_sender = false;
        while i < self.handles.len()
            invariant
                self == old(self),
                old(self).wf(),
                i <= self.handles@.len(),
                delivered <= i,
                seen_sender == self.ids().take(i as int).contains(sender_id),
                delivered + failed@.len() + (if seen_sender {
                    1int
                } else {
                    0int
                }) == i,
                forall|k: int| 0 <= k < failed@.len() ==> self.ids().contains(#[trigger] failed@[k])
                    && failed@[k] != sender_id,
            decreases self.handles@.len() - i,
        {
            let h = &self.handles[i];
            proof {
                assert(h.id == self.ids()[i as int]);
                assert(self.ids().take(i + 1 as int) =~= self.ids().take(i as int).push(
                    self.ids()[i as int],
                ));
            }
            if h.id != sender_id {
                proof {
                    assert(self.ids().take(i + 1 as int).contains(sender_id) == self.ids().take(
                        i as int,
                    ).contains(sender_id)) by {
                        let pre = self.ids().take(i as int);
                        let cur = self.ids()[i as int];
                        if pre.push(cur).contains(sender_id) {
                            let k = choose|k: int|
                                0 <= k < pre.push(cur).len() && pre.push(cur)[k] == sender_id;
                            assert(k < pre.len());
                            assert(pre[k] == sender_id);
                        }
                        if pre.contains(sender_id) {
                            let k = choose|k: int| 0 <= k < pre.len() && pre[k] == sender_id;
                            assert(pre.push(cur)[k] == sender_id);
                        }
                    }
                }
                if queue_try_send(&h.tx, frame) {
                    delivered += 1;
                } else {
                    let hid = h.id;
                    proof {
                        assert(self.ids().contains(hid)) by {
                            assert(self.ids()[i as int] == hid);
                        }
                    }
                    failed.push(hid);
                }
            } else {
                proof {
                    assert(!self.ids().take(i as int).contains(sender_id)) by {
                        if self.ids().take(i as int).contains(sender_id) {
                            let k = choose|k: int|
                                0 <= k < i && self.ids().take(i as int)[k] == sender_id;
                            assert(self.ids()[k] == sender_id);
                            assert(self.ids()[i as int] == sender_id);
                        }
                    }
                    assert(self.ids().take(i + 1 as int)[i as int] == sender_id);
                    seen_sender = true;
                }
            }
            i += 1;
        }
        proof {
            assert(self.ids().take(self.handles@.len() as int) =~= self.ids());
        }
        self.prune(&failed);
        (delivered, failed)
    }
}

/// The pruning law: after a fan-out pass over registry `pre` that removed
/// the identities `removed`, an identity is still registered exactly when it
/// was registered before the pass and did not fail delivery — every failed
/// session is gone, and no other session is touched.
pub proof fn lemma_prune_membership(pre: Seq<u64>, removed: Seq<u64>, id: u64)
    ensures
        pre.filter(|x: u64| !removed.contains(x)).contains(id) <==> (pre.contains(id)
            && !removed.contains(id)),
{
    let pred = |x: u64| !removed.contains(x);
    if pre.filter(pred).contains(id) {
        lemma_filter_subset(pre, pred, id);
    }
    if pre.contains(id) && !removed.contains(id) {
        let i = choose|i: int| 0 <= i < pre.len() && pre[i] == id;
        pre.lemma_filter_contains(pred, i);
    }
}

/// Two distinct positions of a filtered sequence come from two distinct
/// positions of the original, so a sequence of pairwise-distinct identities
/// stays pairwise distinct after filtering.
proof fn lemma_filter_distinct_positions(s: Seq<u64>, pred: spec_fn(u64) -> bool, i: int, j: int)
    requires
        forall|a: int, b: int| 0 <= a < b < s.len() ==> s[a] != s[b],
        0 <= i < j < s.filter(pred).len(),
    ensures
        s.filter(pred)[i] != s.filter(pred)[j],
    decreases s.len(),
{
    reveal_with_fuel(Seq::<u64>::filter, 1);
    if s.len() > 0 {
        lemma_filter_push(s.drop_last(), pred, s.last());
        assert(s.drop_last().push(s.last()) =~= s);
        let f = s.filter(pred);
        let fd = s.drop_last().filter(pred);
        if pred(s.last()) && j == f.len() - 1 {
            assert(f[i] == fd[i]);
            lemma_filter_subset(s.drop_last(), pred, fd[i]);
            let a = choose|a: int|
                0 <= a < s.drop_last().len() && s.drop_last()[a] == fd[i];
            assert(s[a] == fd[i]);
            assert(s[s.len() - 1] == f[j]);
        } else {
            assert(forall|a: int, b: int|
                0 <= a < b < s.drop_last().len() ==> s.drop_last()[a] != s.drop_last()[b]);
            lemma_filter_distinct_positions(s.drop_last(), pred, i, j);
            assert(f[i] == fd[i] && f[j] == fd[j]);
        }
    }
}

} // verus!
