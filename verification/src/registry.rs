//! The server's table of registered tunnels.
//!
//! Each tunnel is known by its id and holds the handle of its control
//! connection, the public connections that wait for a worker (`pending`) and
//! the worker connections that wait for a public connection (`workers`).
//! Connections are named by `u64` handles; whoever drives the registry keeps
//! the sockets themselves. Both queues are first-in, first-out, and pairing
//! joins the oldest pending connection with the oldest worker.
use vstd::prelude::*;

verus! {

/// What the registry records of one tunnel.
pub struct TunnelView {
    pub control: u64,
    pub pending: Seq<u64>,
    pub workers: Seq<u64>,
}

/// The registry as a map from tunnel id to what it records of that tunnel.
pub type RegistryView = Map<Seq<char>, TunnelView>;

/// One registered tunnel.
pub struct TunnelEntry {
    /// Handle of the control connection that registered the tunnel.
    pub control: u64,
    /// Public connections waiting for a worker, oldest first.
    pub pending: Vec<u64>,
    /// Worker connections waiting for a public connection, oldest first.
    pub workers: Vec<u64>,
}

impl TunnelEntry {
    pub open spec fn view(&self) -> TunnelView {
        TunnelView { control: self.control, pending: self.pending@, workers: self.workers@ }
    }
}

struct Slot {
    id: String,
    entry: TunnelEntry,
}

/// The table of registered tunnels, at most one per tunnel id.
pub struct TunnelRegistry {
    slots: Vec<Slot>,
}

// ---------------------------------------------------------------------------
// The model
// ---------------------------------------------------------------------------

/// The number of pairs that pairing forms: one per pending connection that
/// has a worker to go with.
pub open spec fn pair_count(t: TunnelView) -> int {
    if t.pending.len() <= t.workers.len() {
        t.pending.len() as int
    } else {
        t.workers.len() as int
    }
}

/// The (pending, worker) pairs that pairing forms, oldest first.
pub open spec fn ready_pairs(t: TunnelView) -> Seq<(u64, u64)> {
    Seq::new(pair_count(t) as nat, |i: int| (t.pending[i], t.workers[i]))
}

/// The tunnel once every pair that can be formed has left its queues.
pub open spec fn after_pairing(t: TunnelView) -> TunnelView {
    TunnelView {
        control: t.control,
        pending: t.pending.skip(pair_count(t)),
        workers: t.workers.skip(pair_count(t)),
    }
}

/// No tunnel has a pending connection and a worker waiting at once.
pub open spec fn balanced(m: RegistryView) -> bool {
    forall|id: Seq<char>| #[trigger]
        m.dom().contains(id) ==> m[id].pending.len() == 0 || m[id].workers.len() == 0
}

/// A tunnel just registered by control connection `control`.
pub open spec fn fresh_tunnel(control: u64) -> TunnelView {
    TunnelView { control, pending: Seq::empty(), workers: Seq::empty() }
}

/// The registry after a `REGISTER` of `id` from control connection `control`:
/// unchanged where `id` is taken.
pub open spec fn registered(m: RegistryView, id: Seq<char>, control: u64) -> RegistryView {
    if m.dom().contains(id) {
        m
    } else {
        m.insert(id, fresh_tunnel(control))
    }
}

/// The tunnel once `stream` joined its pending queue.
pub open spec fn with_pending(t: TunnelView, stream: u64) -> TunnelView {
    TunnelView { control: t.control, pending: t.pending.push(stream), workers: t.workers }
}

/// The tunnel once `stream` joined its worker queue.
pub open spec fn with_worker(t: TunnelView, stream: u64) -> TunnelView {
    TunnelView { control: t.control, pending: t.pending, workers: t.workers.push(stream) }
}

// ---------------------------------------------------------------------------
// Laws of the model
// ---------------------------------------------------------------------------

/// Pairing loses and duplicates no connection and keeps their order: the
/// pending connections are those paired followed by those left, and the
/// same for the workers; afterwards at most one queue is not empty.
pub proof fn lemma_pairing_keeps_every_stream(t: TunnelView)
    ensures
        ready_pairs(t).map_values(|p: (u64, u64)| p.0) + after_pairing(t).pending == t.pending,
        ready_pairs(t).map_values(|p: (u64, u64)| p.1) + after_pairing(t).workers == t.workers,
        after_pairing(t).pending.len() == 0 || after_pairing(t).workers.len() == 0,
        after_pairing(t).control == t.control,
{
    let n = pair_count(t);
    assert(ready_pairs(t).map_values(|p: (u64, u64)| p.0) + after_pairing(t).pending =~= t.pending);
    assert(ready_pairs(t).map_values(|p: (u64, u64)| p.1) + after_pairing(t).workers =~= t.workers);
}

/// A public connection (`CONNECT`) joins the back of its tunnel's pending
/// queue, whatever the tunnel holds: the connections paired, followed by those
/// left waiting, are the old pending queue with the new connection at its
/// end; the workers paired, followed by those left, are the old worker queue;
/// afterwards at most one queue is not empty.
pub proof fn lemma_connect_appends(t: TunnelView, stream: u64)
    ensures
        ready_pairs(with_pending(t, stream)).map_values(|p: (u64, u64)| p.0) + after_pairing(
            with_pending(t, stream),
        ).pending == t.pending.push(stream),
        ready_pairs(with_pending(t, stream)).map_values(|p: (u64, u64)| p.1) + after_pairing(
            with_pending(t, stream),
        ).workers == t.workers,
        after_pairing(with_pending(t, stream)).control == t.control,
        after_pairing(with_pending(t, stream)).pending.len() == 0 || after_pairing(
            with_pending(t, stream),
        ).workers.len() == 0,
{
    lemma_pairing_keeps_every_stream(with_pending(t, stream));
}

/// A worker connection (`WORKER`) joins the back of its tunnel's worker
/// queue, whatever the tunnel holds: the workers paired, followed by those
/// left waiting, are the old worker queue with the new worker at its end; the
/// public connections paired, followed by those left, are the old pending
/// queue; afterwards at most one queue is not empty.
pub proof fn lemma_worker_appends(t: TunnelView, stream: u64)
    ensures
        ready_pairs(with_worker(t, stream)).map_values(|p: (u64, u64)| p.1) + after_pairing(
            with_worker(t, stream),
        ).workers == t.workers.push(stream),
        ready_pairs(with_worker(t, stream)).map_values(|p: (u64, u64)| p.0) + after_pairing(
            with_worker(t, stream),
        ).pending == t.pending,
        after_pairing(with_worker(t, stream)).control == t.control,
        after_pairing(with_worker(t, stream)).pending.len() == 0 || after_pairing(
            with_worker(t, stream),
        ).workers.len() == 0,
{
    lemma_pairing_keeps_every_stream(with_worker(t, stream));
}

/// A public connection that finds a worker waiting, in a tunnel where no
/// public connection waits, is joined with the oldest worker at once; the
/// other workers keep waiting.
pub proof fn lemma_connect_meets_waiting_worker(t: TunnelView, stream: u64)
    requires
        t.pending.len() == 0,
        t.workers.len() > 0,
    ensures
        ready_pairs(with_pending(t, stream)) == seq![(stream, t.workers[0])],
        after_pairing(with_pending(t, stream)).pending.len() == 0,
        after_pairing(with_pending(t, stream)).workers == t.workers.drop_first(),
{
    let u = with_pending(t, stream);
    assert(pair_count(u) == 1);
    assert(ready_pairs(u) =~= seq![(stream, t.workers[0])]);
    assert(u.pending.skip(1) =~= Seq::<u64>::empty());
    assert(u.workers.skip(1) =~= t.workers.drop_first());
}

/// A worker that finds a public connection waiting, in a tunnel where no
/// worker waits, is joined with the oldest public connection at once; the
/// other public connections keep waiting.
pub proof fn lemma_worker_meets_waiting_connection(t: TunnelView, stream: u64)
    requires
        t.workers.len() == 0,
        t.pending.len() > 0,
    ensures
        ready_pairs(with_worker(t, stream)) == seq![(t.pending[0], stream)],
        after_pairing(with_worker(t, stream)).workers.len() == 0,
        after_pairing(with_worker(t, stream)).pending == t.pending.drop_first(),
{
    let u = with_worker(t, stream);
    assert(pair_count(u) == 1);
    assert(ready_pairs(u) =~= seq![(t.pending[0], stream)]);
    assert(u.workers.skip(1) =~= Seq::<u64>::empty());
    assert(u.pending.skip(1) =~= t.pending.drop_first());
}

/// A connection that finds nothing to pair with waits: joining the queue
/// that is already the only one in use, or an idle tunnel, forms no pair.
pub proof fn lemma_unmatched_connection_waits(t: TunnelView, stream: u64)
    ensures
        t.workers.len() == 0 ==> ready_pairs(with_pending(t, stream)).len() == 0
            && after_pairing(with_pending(t, stream)) == with_pending(t, stream),
        t.pending.len() == 0 ==> ready_pairs(with_worker(t, stream)).len() == 0
            && after_pairing(with_worker(t, stream)) == with_worker(t, stream),
{
    let u = with_pending(t, stream);
    let w = with_worker(t, stream);
    assert(u.pending.skip(0) =~= u.pending);
    assert(u.workers.skip(0) =~= u.workers);
    assert(w.pending.skip(0) =~= w.pending);
    assert(w.workers.skip(0) =~= w.workers);
}

/// Removing a tunnel undoes its registration: registering a free id and
/// then removing it gives back the registry that was there before.
pub proof fn lemma_remove_undoes_register(m: RegistryView, id: Seq<char>, control: u64)
    requires
        !m.dom().contains(id),
    ensures
        registered(m, id, control).remove(id) == m,
        registered(m, id, control).dom().contains(id),
        registered(m, id, control)[id] == fresh_tunnel(control),
        registered(m, id, control)[id].control == control,
        registered(m, id, control)[id].pending.len() == 0,
        registered(m, id, control)[id].workers.len() == 0,
        forall|k: Seq<char>| k != id ==> (#[trigger] registered(m, id, control).dom().contains(k)
            <==> m.dom().contains(k)),
{
    assert(registered(m, id, control).remove(id) =~= m);
}

/// A second registration of an id that is taken changes nothing: the
/// first control connection keeps the tunnel.
pub proof fn lemma_register_taken_id(m: RegistryView, id: Seq<char>, control: u64)
    requires
        m.dom().contains(id),
    ensures
        registered(m, id, control) == m,
{
}

/// The empty registry is balanced.
pub proof fn lemma_empty_balanced()
    ensures
        balanced(Map::<Seq<char>, TunnelView>::empty()),
{
}

// ---------------------------------------------------------------------------
// From the vector of slots to the map
// ---------------------------------------------------------------------------

spec fn slots_map(s: Seq<Slot>) -> RegistryView
    decreases s.len(),
{
    if s.len() == 0 {
        Map::empty()
    } else {
        slots_map(s.drop_last()).insert(s.last().id@, s.last().entry@)
    }
}

spec fn distinct_ids(s: Seq<Slot>) -> bool {
    forall|i: int, j: int|
        0 <= i < s.len() && 0 <= j < s.len() && i != j ==> #[trigger] s[i].id@ != #[trigger] s[j].id@
}

proof fn lemma_distinct_drop_last(s: Seq<Slot>)
    requires
        distinct_ids(s),
        s.len() > 0,
    ensures
        distinct_ids(s.drop_last()),
{
    let t = s.drop_last();
    assert forall|a: int, b: int|
        0 <= a < t.len() && 0 <= b < t.len() && a != b implies #[trigger] t[a].id@
        != #[trigger] t[b].id@ by {
        assert(t[a] == s[a]);
        assert(t[b] == s[b]);
    }
}

proof fn lemma_slots_map_dom(s: Seq<Slot>, k: Seq<char>)
    ensures
        slots_map(s).dom().contains(k) <==> exists|i: int| 0 <= i < s.len() && #[trigger] s[i].id@ == k,
    decreases s.len(),
{
    if s.len() > 0 {
        lemma_slots_map_dom(s.drop_last(), k);
        if slots_map(s.drop_last()).dom().contains(k) {
            let i = choose|i: int| 0 <= i < s.drop_last().len() && #[trigger] s.drop_last()[i].id@ == k;
            assert(s[i].id@ == k);
        }
        if exists|i: int| 0 <= i < s.len() && #[trigger] s[i].id@ == k {
            let i = choose|i: int| 0 <= i < s.len() && #[trigger] s[i].id@ == k;
            if i < s.len() - 1 {
                assert(s.drop_last()[i].id@ == k);
            }
        }
    }
}

proof fn lemma_slots_map_index(s: Seq<Slot>, i: int)
    requires
        distinct_ids(s),
        0 <= i < s.len(),
    ensures
        slots_map(s).dom().contains(s[i].id@),
        slots_map(s)[s[i].id@] == s[i].entry@,
    decreases s.len(),
{
    lemma_slots_map_dom(s, s[i].id@);
    if i < s.len() - 1 {
        lemma_distinct_drop_last(s);
        assert(s.drop_last()[i] == s[i]);
        lemma_slots_map_index(s.drop_last(), i);
        assert(s.last().id@ != s[i].id@);
    }
}

proof fn lemma_slots_map_update(s: Seq<Slot>, i: int, slot: Slot)
    requires
        distinct_ids(s),
        0 <= i < s.len(),
        slot.id@ == s[i].id@,
    ensures
        distinct_ids(s.update(i, slot)),
        slots_map(s.update(i, slot)) == slots_map(s).insert(slot.id@, slot.entry@),
    decreases s.len(),
{
    let t = s.update(i, slot);
    assert(distinct_ids(t)) by {
        assert forall|a: int, b: int|
            0 <= a < t.len() && 0 <= b < t.len() && a != b implies #[trigger] t[a].id@
            != #[trigger] t[b].id@ by {
            assert(s[a].id@ != s[b].id@);
        }
    }
    if i == s.len() - 1 {
        assert(t.drop_last() =~= s.drop_last());
        lemma_slots_map_dom(s.drop_last(), slot.id@);
        if slots_map(s.drop_last()).dom().contains(slot.id@) {
            let j = choose|j: int| 0 <= j < s.drop_last().len() && #[trigger] s.drop_last()[j].id@ == slot.id@;
            assert(s[j].id@ == s[i].id@);
        }
        assert(slots_map(t) =~= slots_map(s).insert(slot.id@, slot.entry@));
    } else {
        assert(t.drop_last() =~= s.drop_last().update(i, slot));
        lemma_distinct_drop_last(s);
        lemma_slots_map_update(s.drop_last(), i, slot);
        assert(s.last().id@ != slot.id@);
        assert(slots_map(t) =~= slots_map(s).insert(slot.id@, slot.entry@));
    }
}

proof fn lemma_slots_map_remove(s: Seq<Slot>, i: int)
    requires
        distinct_ids(s),
        0 <= i < s.len(),
    ensures
        distinct_ids(s.remove(i)),
        slots_map(s.remove(i)) == slots_map(s).remove(s[i].id@),
    decreases s.len(),
{
    let t = s.remove(i);
    assert(distinct_ids(t)) by {
        assert forall|a: int, b: int|
            0 <= a < t.len() && 0 <= b < t.len() && a != b implies #[trigger] t[a].id@
            != #[trigger] t[b].id@ by {
            let a2 = if a < i { a } else { a + 1 };
            let b2 = if b < i { b } else { b + 1 };
            assert(t[a] == s[a2]);
            assert(t[b] == s[b2]);
        }
    }
    if i == s.len() - 1 {
        assert(t =~= s.drop_last());
        lemma_slots_map_dom(s.drop_last(), s[i].id@);
        if slots_map(s.drop_last()).dom().contains(s[i].id@) {
            let j = choose|j: int| 0 <= j < s.drop_last().len() && #[trigger] s.drop_last()[j].id@ == s[i].id@;
            assert(s[j].id@ == s[i].id@);
        }
        assert(slots_map(t) =~= slots_map(s).remove(s[i].id@));
    } else {
        assert(t.drop_last() =~= s.drop_last().remove(i));
        assert(t.last() == s.last());
        lemma_distinct_drop_last(s);
        lemma_slots_map_remove(s.drop_last(), i);
        assert(s.last().id@ != s[i].id@);
        assert(slots_map(t) =~= slots_map(s).remove(s[i].id@));
    }
}

/// Forms the pairs of `e` and what remains of it.
fn pair_entry(e: TunnelEntry) -> (r: (Vec<(u64, u64)>, TunnelEntry))
    ensures
        r.0@ == ready_pairs(e@),
        r.1@ == after_pairing(e@),
{
    let n = if e.pending.len() <= e.workers.len() {
        e.pending.len()
    } else {
        e.workers.len()
    };
    let mut pairs: Vec<(u64, u64)> = Vec::new();
    let mut i: usize = 0;
    while i < n
        invariant
            n == pair_count(e@),
            i <= n,
            pairs@ == ready_pairs(e@).take(i as int),
        decreases n - i,
    {
        pairs.push((e.pending[i], e.workers[i]));
        i = i + 1;
        assert(pairs@ =~= ready_pairs(e@).take(i as int));
    }
    let pending = tail_from(&e.pending, n);
    let workers = tail_from(&e.workers, n);
    assert(pairs@ =~= ready_pairs(e@));
    (pairs, TunnelEntry { control: e.control, pending, workers })
}

/// The elements of `v` from position `n` on.
fn tail_from(v: &Vec<u64>, n: usize) -> (r: Vec<u64>)
    requires
        n <= v@.len(),
    ensures
        r@ == v@.skip(n as int),
{
    let mut r: Vec<u64> = Vec::new();
    let mut i = n;
    while i < v.len()
        invariant
            n <= i <= v@.len(),
            r@ == v@.subrange(n as int, i as int),
        decreases v@.len() - i,
    {
        r.push(v[i]);
        i = i + 1;
        assert(r@ =~= v@.subrange(n as int, i as int));
    }
    assert(r@ =~= v@.skip(n as int));
    r
}

/// After pairing, a tunnel has no pending connection and worker waiting at
/// once, so replacing a tunnel of a balanced registry by its paired form
/// keeps the registry balanced.
proof fn lemma_after_pairing_balanced(m: RegistryView, id: Seq<char>)
    ensures
        forall|t: TunnelView| #![trigger after_pairing(t)]
            balanced(m) ==> balanced(m.insert(id, after_pairing(t))),
{
}

impl TunnelRegistry {
    /// The registry as a map from tunnel id to tunnel.
    pub closed spec fn view(&self) -> RegistryView {
        slots_map(self.slots@)
    }

    /// The registry's internal consistency: each tunnel id occurs once.
    pub closed spec fn wf(&self) -> bool {
        distinct_ids(self.slots@)
    }

    /// An empty registry.
    pub fn new() -> (r: TunnelRegistry)
        ensures
            r.wf(),
            r@ == Map::<Seq<char>, TunnelView>::empty(),
    {
        TunnelRegistry { slots: Vec::new() }
    }

    /// The position of tunnel `id`, if it is registered.
    fn find(&self, id: &String) -> (r: Option<usize>)
        requires
            self.wf(),
        ensures
            match r {
                Some(i) => i < self.slots@.len() && self.slots@[i as int].id@ == id@,
                None => !self@.dom().contains(id@),
            },
    {
        let mut i: usize = 0;
        while i < self.slots.len()
            invariant
                i <= self.slots@.len(),
                forall|j: int| 0 <= j < i ==> #[trigger] self.slots@[j].id@ != id@,
            decreases self.slots@.len() - i,
        {
            if self.slots[i].id == *id {
                return Some(i);
            }
            i = i + 1;
        }
        proof {
            lemma_slots_map_dom(self.slots@, id@);
        }
        None
    }

    /// Whether tunnel `id` is registered.
    pub fn contains(&self, id: &String) -> (b: bool)
        requires
            self.wf(),
        ensures
            b == self@.dom().contains(id@),
    {
        match self.find(id) {
            Some(i) => {
                proof {
                    lemma_slots_map_index(self.slots@, i as int);
                }
                true
            },
            None => false,
        }
    }

    /// What the registry holds for tunnel `id`, if it is registered.
    pub fn tunnel(&self, id: &String) -> (r: Option<&TunnelEntry>)
        requires
            self.wf(),
        ensures
            match r {
                Some(e) => self@.dom().contains(id@) && e@ == self@[id@],
                None => !self@.dom().contains(id@),
            },
    {
        match self.find(id) {
            Some(i) => {
                proof {
                    lemma_slots_map_index(self.slots@, i as int);
                }
                Some(&self.slots[i].entry)
            },
            None => None,
        }
    }

    /// Registers tunnel `id` for control connection `control`. Returns
    /// `false`, leaving the registry as it was, where `id` is taken.
    pub fn register(&mut self, id: String, control: u64) -> (added: bool)
        requires
            old(self).wf(),
        ensures
            final(self).wf(),
            added == !old(self)@.dom().contains(id@),
            final(self)@ == registered(old(self)@, id@, control),
            balanced(old(self)@) ==> balanced(final(self)@),
    {
        if self.contains(&id) {
            return false;
        }
        let ghost old_slots = self.slots@;
        let ghost key = id@;
        let entry = TunnelEntry { control, pending: Vec::new(), workers: Vec::new() };
        self.slots.push(Slot { id, entry });
        proof {
            assert(self.slots@.drop_last() =~= old_slots);
            assert forall|a: int, b: int|
                0 <= a < self.slots@.len() && 0 <= b < self.slots@.len() && a != b implies #[trigger] self.slots@[a].id@
                != #[trigger] self.slots@[b].id@ by {
                if a == old_slots.len() as int {
                    lemma_slots_map_dom(old_slots, key);
                    assert(old_slots[b] == self.slots@[b]);
                } else if b == old_slots.len() as int {
                    lemma_slots_map_dom(old_slots, key);
                    assert(old_slots[a] == self.slots@[a]);
                } else {
                    assert(old_slots[a] == self.slots@[a]);
                    assert(old_slots[b] == self.slots@[b]);
                }
            }
            assert(self.slots@.last().entry@ == fresh_tunnel(control));
        }
        true
    }

    /// Removes tunnel `id`, handing back what it held, or `None` where no
    /// such tunnel is registered.
    pub fn remove_tunnel(&mut self, id: &String) -> (r: Option<TunnelEntry>)
        requires
            old(self).wf(),
        ensures
            final(self).wf(),
            final(self)@ == old(self)@.remove(id@),
            match r {
                Some(e) => old(self)@.dom().contains(id@) && e@ == old(self)@[id@],
                None => !old(self)@.dom().contains(id@),
            },
            balanced(old(self)@) ==> balanced(final(self)@),
    {
        match self.find(id) {
            None => {
                proof {
                    assert(self@.remove(id@) =~= self@);
                }
                None
            },
            Some(i) => {
                proof {
                    lemma_slots_map_index(self.slots@, i as int);
                    lemma_slots_map_remove(self.slots@, i as int);
                }
                let slot = self.slots.remove(i);
                Some(slot.entry)
            },
        }
    }

    /// Replaces the entry at position `i` by `entry`, keeping its id.
    fn replace_entry(&mut self, i: usize, entry: TunnelEntry)
        requires
            old(self).wf(),
            i < old(self).slots@.len(),
        ensures
            final(self).wf(),
            final(self)@ == old(self)@.insert(old(self).slots@[i as int].id@, entry@),
            final(self).slots@.len() == old(self).slots@.len(),
            forall|j: int| 0 <= j < final(self).slots@.len() ==> #[trigger] final(self).slots@[j].id@ == old(self).slots@[j].id@,
    {
        let ghost old_slots = self.slots@;
        let slot = self.slots.remove(i);
        let new_slot = Slot { id: slot.id, entry };
        proof {
            lemma_slots_map_update(old_slots, i as int, new_slot);
        }
        self.slots.insert(i, new_slot);
        assert(self.slots@ =~= old_slots.update(i as int, new_slot));
    }

    /// Takes the entry at position `i` out of its slot, leaving empty queues.
    fn take_entry(&mut self, i: usize) -> (e: TunnelEntry)
        requires
            old(self).wf(),
            i < old(self).slots@.len(),
        ensures
            final(self).wf(),
            e == old(self).slots@[i as int].entry,
            final(self)@ == old(self)@.insert(old(self).slots@[i as int].id@, fresh_tunnel(e.control)),
            final(self).slots@.len() == old(self).slots@.len(),
            forall|j: int| 0 <= j < final(self).slots@.len() ==> #[trigger] final(self).slots@[j].id@ == old(self).slots@[j].id@,
            forall|j: int| 0 <= j < final(self).slots@.len() && j != i ==> #[trigger] final(self).slots@[j] == old(self).slots@[j],
    {
        let ghost old_slots = self.slots@;
        let slot = self.slots.remove(i);
        let control = slot.entry.control;
        let new_slot = Slot { id: slot.id, entry: TunnelEntry { control, pending: Vec::new(), workers: Vec::new() } };
        proof {
            lemma_slots_map_update(old_slots, i as int, new_slot);
        }
        self.slots.insert(i, new_slot);
        assert(self.slots@ =~= old_slots.update(i as int, new_slot));
        assert(new_slot.entry@ == fresh_tunnel(control));
        slot.entry
    }

    /// Forms every pair that tunnel `id` can form, oldest pending connection
    /// with oldest worker, and takes them out of its queues. Returns the pairs;
    /// none where `id` is not registered.
    pub fn pair_ready_streams(&mut self, id: &String) -> (pairs: Vec<(u64, u64)>)
        requires
            old(self).wf(),
        ensures
            final(self).wf(),
            old(self)@.dom().contains(id@) ==> {
                &&& pairs@ == ready_pairs(old(self)@[id@])
                &&& final(self)@ == old(self)@.insert(id@, after_pairing(old(self)@[id@]))
                &&& pairs@.map_values(|p: (u64, u64)| p.0) + final(self)@[id@].pending
                    == old(self)@[id@].pending
                &&& pairs@.map_values(|p: (u64, u64)| p.1) + final(self)@[id@].workers
                    == old(self)@[id@].workers
                &&& final(self)@[id@].pending.len() == 0 || final(self)@[id@].workers.len() == 0
            },
            !old(self)@.dom().contains(id@) ==> pairs@.len() == 0 && final(self)@ == old(self)@,
            balanced(old(self)@) ==> balanced(final(self)@),
    {
        match self.find(id) {
            None => Vec::new(),
            Some(i) => {
                proof {
                    lemma_slots_map_index(self.slots@, i as int);
                }
                let e = self.take_entry(i);
                let (pairs, rest) = pair_entry(e);
                let ghost rest_view = rest@;
                self.replace_entry(i, rest);
                assert(self@ =~= old(self)@.insert(id@, rest_view));
                proof {
                    lemma_pairing_keeps_every_stream(old(self)@[id@]);
                    lemma_after_pairing_balanced(old(self)@, id@);
                }
                pairs
            },
        }
    }

    /// A public connection for tunnel `id` (`CONNECT`): `stream` joins the
    /// tunnel's pending queue and every pair that can be formed leaves the
    /// queues. Returns the tunnel's control handle, which is to be told of the
    /// new connection, and the pairs; `None`, leaving the registry as it was,
    /// where `id` is not registered.
    pub fn enqueue_pending(&mut self, id: &String, stream: u64) -> (r: Option<(u64, Vec<(u64, u64)>)>)
        requires
            old(self).wf(),
        ensures
            final(self).wf(),
            match r {
                Some((control, pairs)) => {
                    let t = with_pending(old(self)@[id@], stream);
                    &&& old(self)@.dom().contains(id@)
                    &&& control == old(self)@[id@].control
                    &&& pairs@ == ready_pairs(t)
                    &&& final(self)@ == old(self)@.insert(id@, after_pairing(t))
                    &&& pairs@.map_values(|p: (u64, u64)| p.0) + final(self)@[id@].pending
                        == old(self)@[id@].pending.push(stream)
                    &&& pairs@.map_values(|p: (u64, u64)| p.1) + final(self)@[id@].workers
                        == old(self)@[id@].workers
                    &&& final(self)@[id@].control == control
                },
                None => !old(self)@.dom().contains(id@) && final(self)@ == old(self)@,
            },
            balanced(old(self)@) ==> balanced(final(self)@),
    {
        match self.find(id) {
            None => None,
            Some(i) => {
                proof {
                    lemma_slots_map_index(self.slots@, i as int);
                }
                let mut e = self.take_entry(i);
                let control = e.control;
                e.pending.push(stream);
                let (pairs, rest) = pair_entry(e);
                let ghost rest_view = rest@;
                self.replace_entry(i, rest);
                assert(self@ =~= old(self)@.insert(id@, rest_view));
                proof {
                    lemma_after_pairing_balanced(old(self)@, id@);
                    lemma_connect_appends(old(self)@[id@], stream);
                }
                Some((control, pairs))
            },
        }
    }

    /// A worker connection for tunnel `id` (`WORKER`): `stream` joins the
    /// tunnel's worker queue and every pair that can be formed leaves the
    /// queues. Returns the pairs; `None`, leaving the registry as it was, where
    /// `id` is not registered.
    pub fn enqueue_worker(&mut self, id: &String, stream: u64) -> (r: Option<Vec<(u64, u64)>>)
        requires
            old(self).wf(),
        ensures
            final(self).wf(),
            match r {
                Some(pairs) => {
                    let t = with_worker(old(self)@[id@], stream);
                    &&& old(self)@.dom().contains(id@)
                    &&& pairs@ == ready_pairs(t)
                    &&& final(self)@ == old(self)@.insert(id@, after_pairing(t))
                    &&& pairs@.map_values(|p: (u64, u64)| p.1) + final(self)@[id@].workers
                        == old(self)@[id@].workers.push(stream)
                    &&& pairs@.map_values(|p: (u64, u64)| p.0) + final(self)@[id@].pending
                        == old(self)@[id@].pending
                    &&& final(self)@[id@].control == old(self)@[id@].control
                },
                None => !old(self)@.dom().contains(id@) && final(self)@ == old(self)@,
            },
            balanced(old(self)@) ==> balanced(final(self)@),
    {
        match self.find(id) {
            None => None,
            Some(i) => {
                proof {
                    lemma_slots_map_index(self.slots@, i as int);
                }
                let mut e = self.take_entry(i);
                e.workers.push(stream);
                let (pairs, rest) = pair_entry(e);
                let ghost rest_view = rest@;
                self.replace_entry(i, rest);
                assert(self@ =~= old(self)@.insert(id@, rest_view));
                proof {
                    lemma_after_pairing_balanced(old(self)@, id@);
                    lemma_worker_appends(old(self)@[id@], stream);
                }
                Some(pairs)
            },
        }
    }
}

} // verus!
