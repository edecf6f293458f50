//! The client registry: the only shared mutable state of the service.
//!
//! One entry exists per active connection, identified by a small integer
//! handed out at registration time; the entry carries the connection's
//! outbound channel endpoint, into which broadcasts are pushed. The
//! registry never closes or drains a channel — it only forwards messages.
//!
//! Delivery is modelled by a ghost history: for each registered handle,
//! the sequence of frames pushed into its channel since registration, in
//! order. `broadcast` extends every registered handle's history by the
//! frame — unconditionally, whatever became of the individual sends — so
//! a recipient whose receiving half is already gone never disturbs
//! delivery to the rest.

use vstd::prelude::*;
use tokio::sync::mpsc::UnboundedSender;

verus! {

#[verifier::external_type_specification]
#[verifier::external_body]
#[verifier::reject_recursive_types(T)]
pub struct ExUnboundedSender<T>(UnboundedSender<T>);

/// Relies on tokio's `UnboundedSender::send`: pushes the frame onto the
/// channel's queue, never blocks, and fails only when the receiving half
/// has been dropped. Delivery is best-effort: the result is discarded,
/// because a failed delivery to one closed peer must never abort the
/// broadcast to the remaining peers.
#[verifier::external_body]
fn send_frame(tx: &UnboundedSender<String>, text: &str) {
    let _ = tx.send(text.to_string());
}

/// No two entries share a handle identifier.
pub open spec fn ids_distinct(s: Seq<u64>) -> bool {
    forall|i: int, j: int| 0 <= i < j < s.len() ==> s[i] != s[j]
}

struct Entry {
    id: u64,
    tx: UnboundedSender<String>,
}

/// The shared collection of all active client handles.
pub struct Registry {
    entries: Vec<Entry>,
    next_id: u64,
    history: Ghost<Map<u64, Seq<Seq<char>>>>,
}

impl Registry {
    /// The handle identifiers of the registered clients, in insertion order.
    pub closed spec fn ids(&self) -> Seq<u64> {
        self.entries@.map_values(|e: Entry| e.id)
    }

    /// For each registered handle, the frames pushed into its channel
    /// since it was registered, oldest first.
    pub closed spec fn sent(&self) -> Map<u64, Seq<Seq<char>>> {
        self.history@
    }

    /// A fresh identifier can still be handed out.
    pub closed spec fn can_register(&self) -> bool {
        self.next_id < u64::MAX
    }

    pub closed spec fn inv(&self) -> bool {
        forall|i: int|
            0 <= i < self.entries@.len() ==> (#[trigger] self.entries@[i]).id < self.next_id
    }

    /// The registry invariant: identifiers are unique and the delivery
    /// history tracks exactly the registered handles.
    pub open spec fn wf(&self) -> bool {
        &&& self.inv()
        &&& ids_distinct(self.ids())
        &&& self.sent().dom() == self.ids().to_set()
    }

    /// An empty registry.
    pub fn new() -> (r: Registry)
        ensures
            r.wf(),
            r.can_register(),
            r.ids() == Seq::<u64>::empty(),
            r.sent() == Map::<u64, Seq<Seq<char>>>::empty(),
    {
        let r = Registry { entries: Vec::new(), next_id: 0, history: Ghost(Map::empty()) };
        proof {
            assert(r.ids() =~= Seq::<u64>::empty());
            assert(r.sent().dom() =~= r.ids().to_set());
        }
        r
    }

    /// Inserts one handle and returns its fresh identifier; the handle
    /// starts with an empty delivery history. Fails only when the
    /// identifier space is exhausted, leaving the registry unchanged.
    pub fn register(&mut self, tx: UnboundedSender<String>) -> (r: Option<u64>)
        requires
            old(self).wf(),
        ensures
            final(self).wf(),
            r is Some <==> old(self).can_register(),
            match r {
                Some(id) => {
                    &&& !old(self).ids().contains(id)
                    &&& final(self).ids() == old(self).ids().push(id)
                    &&& final(self).sent() == old(self).sent().insert(
                        id,
                        Seq::<Seq<char>>::empty(),
                    )
                },
                None => *final(self) == *old(self),
            },
    {
        if self.next_id == u64::MAX {
            return None;
        }
        let id = self.next_id;
        self.next_id = self.next_id + 1;
        self.entries.push(Entry { id, tx });
        self.history = Ghost(self.history@.insert(id, Seq::empty()));
        proof {
            assert forall|k: int| 0 <= k < old(self).ids().len() implies old(self).ids()[k]
                != id by {
                assert(old(self).entries@[k].id < id);
            }
            assert(self.ids() =~= old(self).ids().push(id));
            assert forall|x: u64| self.sent().dom().contains(x) implies self.ids()
                .to_set()
                .contains(x) by {
                if x == id {
                    assert(self.ids()[self.ids().len() - 1] == id);
                } else {
                    assert(old(self).ids().to_set().contains(x));
                    let k = choose|k: int|
                        0 <= k < old(self).ids().len() && old(self).ids()[k] == x;
                    assert(self.ids()[k] == x);
                }
            }
            assert forall|x: u64| self.ids().to_set().contains(x) implies self.sent()
                .dom()
                .contains(x) by {
                let k = choose|k: int| 0 <= k < self.ids().len() && self.ids()[k] == x;
                if k < old(self).ids().len() {
                    assert(old(self).ids()[k] == x);
                    assert(old(self).ids().to_set().contains(x));
                }
            }
            assert(self.sent().dom() =~= self.ids().to_set());
        }
        Some(id)
    }

    /// First position among `entries` holding the identifier `id`.
    fn position_of(entries: &Vec<Entry>, id: u64) -> (r: Option<usize>)
        ensures
            match r {
                Some(i) => {
                    &&& i < entries@.len()
                    &&& entries@[i as int].id == id
                    &&& forall|j: int| 0 <= j < i ==> (#[trigger] entries@[j]).id != id
                },
                None => forall|j: int|
                    0 <= j < entries@.len() ==> (#[trigger] entries@[j]).id != id,
            },
    {
        let mut i: usize = 0;
        while i < entries.len()
            invariant
                0 <= i <= entries@.len(),
                forall|j: int| 0 <= j < i ==> (#[trigger] entries@[j]).id != id,
            decreases entries@.len() - i,
        {
            if entries[i].id == id {
                return Some(i);
            }
            i = i + 1;
        }
        None
    }

    /// Removes the handle with identifier `id`, if present, together with
    /// its delivery history. Removing an absent identifier is a no-op,
    /// never an error, so the cleanup paths of a closing session may race
    /// without corrupting the registry.
    pub fn deregister(&mut self, id: u64)
        requires
            old(self).wf(),
        ensures
            final(self).wf(),
            final(self).can_register() == old(self).can_register(),
            final(self).ids() == old(self).ids().remove_value(id),
            final(self).sent() == old(self).sent().remove(id),
            !final(self).ids().contains(id),
            !final(self).sent().dom().contains(id),
    {
        let ghost old_ids = old(self).ids();
        proof {
            old_ids.index_of_first_ensures(id);
        }
        match Self::position_of(&self.entries, id) {
            Some(i) => {
                self.entries.remove(i);
                self.history = Ghost(self.history@.remove(id));
                proof {
                    assert(old_ids[i as int] == id);
                    let first = old_ids.index_of_first(id).unwrap();
                    assert(old_ids[first] == id);
                    assert(first == i as int) by {
                        if first < i as int {
                            assert(old(self).entries@[first].id != id);
                        }
                    }
                    assert(self.ids() =~= old_ids.remove(i as int));
                    assert forall|k: int| 0 <= k < self.ids().len() implies self.ids()[k]
                        != id by {
                        if k < i as int {
                            assert(old_ids[k] != id);
                        } else {
                            assert(old_ids[k + 1] != id);
                        }
                    }
                    assert(!self.ids().contains(id));
                    assert(ids_distinct(self.ids())) by {
                        assert forall|p: int, q: int|
                            0 <= p < q < self.ids().len() implies self.ids()[p]
                            != self.ids()[q] by {
                            let p0: int = if p < i as int { p } else { p + 1 };
                            let q0: int = if q < i as int { q } else { q + 1 };
                            assert(self.ids()[p] == old_ids[p0]);
                            assert(self.ids()[q] == old_ids[q0]);
                        }
                    }
                    assert(self.sent().dom() =~= self.ids().to_set()) by {
                        assert forall|x: u64| self.ids().to_set().contains(x) implies self.sent()
                            .dom()
                            .contains(x) by {
                            assert(self.ids().contains(x));
                            let k = choose|k: int|
                                0 <= k < self.ids().len() && self.ids()[k] == x;
                            let k0: int = if k < i as int {
                                k
                            } else {
                                k + 1
                            };
                            assert(old_ids[k0] == x);
                            assert(old(self).sent().dom().contains(x));
                        }
                        assert forall|x: u64| self.sent().dom().contains(x) implies self.ids()
                            .to_set()
                            .contains(x) by {
                            assert(old_ids.contains(x) && x != id);
                            let k0 = choose|k0: int|
                                0 <= k0 < old_ids.len() && old_ids[k0] == x;
                            if k0 < i as int {
                                assert(self.ids()[k0] == x);
                            } else {
                                assert(old_ids[k0] == old(self).entries@[k0].id);
                                assert(k0 != i as int);
                                assert(self.ids()[k0 - 1] == x);
                            }
                        }
                    }
                }
            },
            None => {
                proof {
                    assert(!old_ids.contains(id)) by {
                        assert forall|k: int| 0 <= k < old_ids.len() implies old_ids[k] != id by {
                            assert(old(self).entries@[k].id != id);
                        }
                    }
                    assert(self.ids() == old_ids.remove_value(id));
                    assert(self.sent() =~= old(self).sent().remove(id));
                }
            },
        }
    }

    /// Pushes `text` into every registered handle's channel, in
    /// registration order, extending every delivery history by exactly
    /// that frame. Individual send failures are swallowed: the fan-out
    /// never partially aborts, and the set of registered handles is
    /// untouched.
    pub fn broadcast(&mut self, text: &str)
        requires
            old(self).wf(),
        ensures
            final(self).wf(),
            final(self).ids() == old(self).ids(),
            final(self).can_register() == old(self).can_register(),
            final(self).sent().dom() == old(self).sent().dom(),
            forall|c: u64| old(self).sent().dom().contains(c) ==> #[trigger] final(self).sent()[c]
                == old(self).sent()[c].push(text@),
    {
        let mut i: usize = 0;
        while i < self.entries.len()
            invariant
                *self == *old(self),
                0 <= i <= self.entries@.len(),
            decreases self.entries@.len() - i,
        {
            send_frame(&self.entries[i].tx, text);
            i = i + 1;
        }
        self.history = Ghost(self.history@.map_values(|q: Seq<Seq<char>>| q.push(text@)));
        proof {
            assert(self.sent().dom() =~= old(self).sent().dom());
        }
    }

    /// The number of currently registered handles.
    pub fn client_count(&self) -> (n: usize)
        ensures
            n == self.ids().len(),
    {
        self.entries.len()
    }

    /// Whether a handle with identifier `id` is currently registered.
    pub fn contains_handle(&self, id: u64) -> (r: bool)
        ensures
            r == self.ids().contains(id),
    {
        match Self::position_of(&self.entries, id) {
            Some(i) => {
                proof {
                    assert(self.ids()[i as int] == id);
                }
                true
            },
            None => {
                proof {
                    assert forall|k: int| 0 <= k < self.ids().len() implies self.ids()[k]
                        != id by {
                        assert(self.entries@[k].id != id);
                    }
                }
                false
            },
        }
    }
}

/// Law: N concurrent connects, each completing one handshake, leave the
/// registry with exactly N entries — no registration is lost and none is
/// duplicated, in whatever order the joins serialize. `states` are the
/// successive values of [`Registry::ids`], each step a successful
/// [`Registry::register`], whose contract makes it push one fresh
/// identifier.
pub proof fn lemma_registrations_settle(states: Seq<Seq<u64>>, ids: Seq<u64>)
    requires
        states.len() == ids.len() + 1,
        states[0].len() == 0,
        forall|k: int| 0 <= k < ids.len() ==> states[k + 1] == states[k].push(#[trigger] ids[k]),
    ensures
        states.last().len() == ids.len(),
    decreases ids.len(),
{
    if ids.len() > 0 {
        let n = ids.len() as int;
        let prefix = states.take(n);
        assert(prefix[0] == states[0]);
        assert forall|k: int| 0 <= k < n - 1 implies prefix[k + 1] == prefix[k].push(
            #[trigger] ids.take(n - 1)[k],
        ) by {
            assert(prefix[k + 1] == states[k + 1]);
            assert(prefix[k] == states[k]);
            assert(ids.take(n - 1)[k] == ids[k]);
        }
        lemma_registrations_settle(prefix, ids.take(n - 1));
        assert(prefix.last() == states[n - 1]);
        assert(states[n] == states[n - 1].push(ids[n - 1]));
        assert(states.last() == states[n]);
    }
}

/// Law: deregistering the same handle twice — the race between the
/// read-error cleanup and the end-of-stream cleanup of one closing
/// session — is the same as deregistering it once: the second removal
/// finds nothing, changes nothing, and leaves the registry sound for
/// whatever follows.
pub proof fn lemma_deregister_idempotent(ids: Seq<u64>, h: Map<u64, Seq<Seq<char>>>, id: u64)
    requires
        ids_distinct(ids),
    ensures
        !ids.remove_value(id).contains(id),
        ids.remove_value(id).remove_value(id) == ids.remove_value(id),
        h.remove(id).remove(id) == h.remove(id),
{
    ids.index_of_first_ensures(id);
    let once = ids.remove_value(id);
    if ids.contains(id) {
        let first = ids.index_of_first(id).unwrap();
        assert forall|k: int| 0 <= k < once.len() implies once[k] != id by {
            if k < first {
                assert(once[k] == ids[k]);
            } else {
                assert(once[k] == ids[k + 1]);
                assert(ids[k + 1] != ids[first]);
            }
        }
    }
    assert(!once.contains(id));
    once.index_of_first_ensures(id);
    assert(h.remove(id).remove(id) =~= h.remove(id));
}

} // verus!
