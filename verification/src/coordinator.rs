//! The per-room coordinator: the authoritative membership registry and
//! the broadcast fan-out.
//!
//! The coordinator processes one message at a time; each step returns
//! the deliveries the surrounding transport is to enqueue to member
//! sessions, in order, and the handle of a registration the step
//! released, if any.  A delivery that cannot be enqueued is skipped by
//! the transport; nothing here retries.

use vstd::pervasive::VecAdditionalExecFns;
use vstd::prelude::*;

use crate::messages::{
    copy_event, delivery_views, ChunkView, Delivery, DeliveryView, Entry, EventView, HubMsg,
    MsgView, PeerEvent, VideoChunk,
};

verus! {

/// No two registry entries carry the same participant id.
pub open spec fn distinct_ids(s: Seq<Entry>) -> bool {
    forall|i: int, j: int| 0 <= i < j < s.len() ==> s[i].id != s[j].id
}

/// Some entry carries `id`.
pub open spec fn has_id(s: Seq<Entry>, id: u32) -> bool {
    exists|i: int| 0 <= i < s.len() && s[i].id == id
}

/// An index of the entry carrying `id`; meaningful only when one exists.
pub open spec fn idx_of(s: Seq<Entry>, id: u32) -> int {
    choose|i: int| 0 <= i < s.len() && s[i].id == id
}

/// The handle registered for `id`; meaningful only when one exists.
pub open spec fn handle_of(s: Seq<Entry>, id: u32) -> u64 {
    s[idx_of(s, id)].handle
}

/// The registry after registering `id` under `handle`: the existing
/// entry is replaced in place, or a new entry is appended.
pub open spec fn upsert(s: Seq<Entry>, id: u32, handle: u64) -> Seq<Entry> {
    if has_id(s, id) {
        s.update(idx_of(s, id), Entry { id, handle })
    } else {
        s.push(Entry { id, handle })
    }
}

/// The registry after deregistering `id`; unchanged when absent.
pub open spec fn remove_id(s: Seq<Entry>, id: u32) -> Seq<Entry> {
    if has_id(s, id) {
        s.remove(idx_of(s, id))
    } else {
        s
    }
}

/// The fan-out of `ev` to every entry of `s` except those carrying
/// `skip`, in registry order.
pub open spec fn fanout(s: Seq<Entry>, skip: u32, ev: EventView) -> Seq<DeliveryView>
    decreases s.len(),
{
    if s.len() == 0 {
        Seq::empty()
    } else {
        let rest = fanout(s.drop_last(), skip, ev);
        let e = s.last();
        if e.id == skip {
            rest
        } else {
            rest.push(DeliveryView { to_id: e.id, to_handle: e.handle, event: ev })
        }
    }
}

/// The backfill to a newly joined entry: one `PeerJoined` per member of
/// the pre-insertion registry, in registry order.
pub open spec fn backfill(prev: Seq<Entry>, to: Entry) -> Seq<DeliveryView> {
    prev.map_values(
        |e: Entry| DeliveryView {
            to_id: to.id,
            to_handle: to.handle,
            event: EventView::PeerJoined { id: e.id },
        },
    )
}

/// The registry after one coordinator step.
pub open spec fn step_entries(s: Seq<Entry>, m: MsgView) -> Seq<Entry> {
    match m {
        MsgView::Connect { id, handle } => upsert(s, id, handle),
        MsgView::Disconnect { id } => remove_id(s, id),
        MsgView::Relay { .. } => s,
    }
}

/// The deliveries one coordinator step emits, in order.
pub open spec fn step_out(s: Seq<Entry>, m: MsgView) -> Seq<DeliveryView> {
    match m {
        MsgView::Connect { id, handle } => fanout(s, id, EventView::PeerJoined { id })
            + backfill(s, Entry { id, handle }),
        MsgView::Disconnect { id } => if has_id(s, id) {
            fanout(remove_id(s, id), id, EventView::PeerLeft { id })
        } else {
            Seq::empty()
        },
        MsgView::Relay { id, chunk } => fanout(s, id, EventView::Relay { from: id, chunk }),
    }
}

/// The handle a step released: the old handle of a replaced or removed
/// registration, whose session is orphaned from this room.
pub open spec fn released_by(s: Seq<Entry>, m: MsgView) -> Option<u64> {
    match m {
        MsgView::Connect { id, .. } => if has_id(s, id) {
            Option::Some(handle_of(s, id))
        } else {
            Option::None
        },
        MsgView::Disconnect { id } => if has_id(s, id) {
            Option::Some(handle_of(s, id))
        } else {
            Option::None
        },
        MsgView::Relay { .. } => Option::None,
    }
}

/// What one coordinator step hands back to the transport.
pub struct StepOutput {
    /// The events to enqueue to member sessions, in this order.
    pub deliveries: Vec<Delivery>,
    /// The handle of a registration this step released, if any.
    pub released: Option<u64>,
}

/// The coordinator of one room: owns that room's registry and performs
/// the fan-out.  Messages are handed to it one at a time.
pub struct Coordinator {
    members: Vec<Entry>,
}

impl View for Coordinator {
    type V = Seq<Entry>;

    closed spec fn view(&self) -> Seq<Entry> {
        self.members@
    }
}

impl Coordinator {
    /// A coordinator for an empty room.
    pub fn new() -> (r: Coordinator)
        ensures
            r@ == Seq::<Entry>::empty(),
            distinct_ids(r@),
    {
        Coordinator { members: Vec::new() }
    }

    /// How many sessions are registered.
    pub fn member_count(&self) -> (r: usize)
        ensures
            r == self@.len(),
    {
        self.members.len()
    }

    /// Whether a session is registered under `id`.
    pub fn contains(&self, id: u32) -> (r: bool)
        ensures
            r == has_id(self@, id),
    {
        self.find_idx(id).is_some()
    }

    /// The registered participant ids, in insertion order.
    pub fn member_ids(&self) -> (r: Vec<u32>)
        ensures
            r@ == self@.map_values(|e: Entry| e.id),
    {
        let mut out: Vec<u32> = Vec::new();
        let mut i: usize = 0;
        while i < self.members.len()
            invariant
                i <= self.members@.len(),
                out@ == self.members@.take(i as int).map_values(|e: Entry| e.id),
            decreases self.members.len() - i,
        {
            out.push(self.members[i].id);
            proof {
                assert(self.members@.take(i + 1 as int).map_values(|e: Entry| e.id)
                    =~= self.members@.take(i as int).map_values(|e: Entry| e.id)
                        .push(self.members@[i as int].id));
            }
            i = i + 1;
        }
        proof {
            assert(self.members@.take(self.members@.len() as int) =~= self.members@);
        }
        out
    }

    /// The index of the entry carrying `id`, scanning from the front.
    fn find_idx(&self, id: u32) -> (r: Option<usize>)
        ensures
            match r {
                Option::Some(j) => j < self@.len() && self@[j as int].id == id,
                Option::None => !has_id(self@, id),
            },
    {
        let mut i: usize = 0;
        while i < self.members.len()
            invariant
                i <= self.members@.len(),
                forall|k: int| 0 <= k < i ==> self.members@[k].id != id,
            decreases self.members.len() - i,
        {
            if self.members[i].id == id {
                return Option::Some(i);
            }
            i = i + 1;
        }
        Option::None
    }

    /// Processes one message: updates the registry and returns the
    /// deliveries to enqueue, exactly as `step_entries`, `step_out` and
    /// `released_by` say.
    pub fn handle(&mut self, msg: HubMsg) -> (r: StepOutput)
        requires
            distinct_ids(old(self)@),
        ensures
            final(self)@ == step_entries(old(self)@, msg@),
            delivery_views(r.deliveries@) == step_out(old(self)@, msg@),
            r.released == released_by(old(self)@, msg@),
            distinct_ids(final(self)@),
    {
        match msg {
            HubMsg::Connect { id, handle } => self.handle_connect(id, handle),
            HubMsg::Disconnect { id } => self.handle_disconnect(id),
            HubMsg::Relay { id, chunk } => self.handle_relay(id, chunk),
        }
    }

    fn handle_connect(&mut self, id: u32, handle: u64) -> (r: StepOutput)
        requires
            distinct_ids(old(self)@),
        ensures
            final(self)@ == upsert(old(self)@, id, handle),
            delivery_views(r.deliveries@) == step_out(
                old(self)@,
                MsgView::Connect { id, handle },
            ),
            r.released == released_by(old(self)@, MsgView::Connect { id, handle }),
            distinct_ids(final(self)@),
    {
        let ghost prev = self.members@;
        let snapshot = copy_entries(&self.members);
        let released: Option<u64> = match self.find_idx(id) {
            Option::Some(j) => {
                let was = self.members[j].handle;
                self.members.set(j, Entry { id, handle });
                proof {
                    let i0 = idx_of(prev, id);
                    assert(0 <= i0 < prev.len() && prev[i0].id == id);
                    assert(i0 == j as int);
                    assert(self.members@ == upsert(prev, id, handle));
                    assert(distinct_ids(self.members@));
                }
                Option::Some(was)
            },
            Option::None => {
                self.members.push(Entry { id, handle });
                proof {
                    assert(distinct_ids(self.members@));
                }
                Option::None
            },
        };
        let mut deliveries: Vec<Delivery> = Vec::new();
        broadcast_from(&snapshot, id, &PeerEvent::PeerJoined { id }, &mut deliveries);
        backfill_from(&snapshot, id, handle, &mut deliveries);
        proof {
            assert(delivery_views(deliveries@)
                =~= step_out(prev, MsgView::Connect { id, handle }));
        }
        StepOutput { deliveries, released }
    }

    fn handle_disconnect(&mut self, id: u32) -> (r: StepOutput)
        requires
            distinct_ids(old(self)@),
        ensures
            final(self)@ == remove_id(old(self)@, id),
            delivery_views(r.deliveries@) == step_out(old(self)@, MsgView::Disconnect { id }),
            r.released == released_by(old(self)@, MsgView::Disconnect { id }),
            distinct_ids(final(self)@),
    {
        let ghost prev = self.members@;
        let mut deliveries: Vec<Delivery> = Vec::new();
        match self.find_idx(id) {
            Option::Some(j) => {
                let removed = self.members.remove(j);
                proof {
                    let i0 = idx_of(prev, id);
                    assert(0 <= i0 < prev.len() && prev[i0].id == id);
                    assert(i0 == j as int);
                    assert(self.members@ == remove_id(prev, id));
                    assert(distinct_ids(self.members@));
                }
                broadcast_from(&self.members, id, &PeerEvent::PeerLeft { id }, &mut deliveries);
                proof {
                    assert(delivery_views(deliveries@)
                        =~= step_out(prev, MsgView::Disconnect { id }));
                }
                StepOutput { deliveries, released: Option::Some(removed.handle) }
            },
            Option::None => {
                proof {
                    assert(delivery_views(deliveries@) =~= Seq::<DeliveryView>::empty());
                }
                StepOutput { deliveries, released: Option::None }
            },
        }
    }

    fn handle_relay(&mut self, id: u32, chunk: VideoChunk) -> (r: StepOutput)
        requires
            distinct_ids(old(self)@),
        ensures
            final(self)@ == old(self)@,
            delivery_views(r.deliveries@) == step_out(
                old(self)@,
                MsgView::Relay { id, chunk: chunk@ },
            ),
            r.released == released_by(old(self)@, MsgView::Relay { id, chunk: chunk@ }),
            distinct_ids(final(self)@),
    {
        let mut deliveries: Vec<Delivery> = Vec::new();
        let ev = PeerEvent::Relay { from: id, chunk };
        broadcast_from(&self.members, id, &ev, &mut deliveries);
        proof {
            assert(delivery_views(deliveries@) =~= fanout(old(self)@, id, ev@));
        }
        StepOutput { deliveries, released: Option::None }
    }
}

/// Entry-for-entry copy of a registry vector.
fn copy_entries(v: &Vec<Entry>) -> (r: Vec<Entry>)
    ensures
        r@ == v@,
{
    let mut out: Vec<Entry> = Vec::new();
    let mut i: usize = 0;
    while i < v.len()
        invariant
            i <= v@.len(),
            out@ == v@.take(i as int),
        decreases v.len() - i,
    {
        out.push(v[i]);
        proof {
            assert(v@.take(i + 1 as int) =~= v@.take(i as int).push(v@[i as int]));
        }
        i = i + 1;
    }
    proof {
        assert(v@.take(v@.len() as int) =~= v@);
    }
    out
}

/// Walks the registry in order and appends one delivery of `ev` for
/// every entry whose id is not `skip`.
fn broadcast_from(entries: &Vec<Entry>, skip: u32, ev: &PeerEvent, out: &mut Vec<Delivery>)
    ensures
        delivery_views(final(out)@) == delivery_views(old(out)@) + fanout(entries@, skip, ev@),
{
    let ghost base = delivery_views(out@);
    let mut i: usize = 0;
    while i < entries.len()
        invariant
            i <= entries@.len(),
            delivery_views(out@) == base + fanout(entries@.take(i as int), skip, ev@),
        decreases entries.len() - i,
    {
        let e = entries[i];
        proof {
            assert(entries@.take(i + 1 as int).drop_last() =~= entries@.take(i as int));
            assert(entries@.take(i + 1 as int).last() == entries@[i as int]);
        }
        if e.id != skip {
            out.push(Delivery { to_id: e.id, to_handle: e.handle, event: copy_event(ev) });
            proof {
                let d = DeliveryView { to_id: e.id, to_handle: e.handle, event: ev@ };
                assert(delivery_views(out@)
                    =~= (base + fanout(entries@.take(i as int), skip, ev@)).push(d));
                assert(base + fanout(entries@.take(i + 1 as int), skip, ev@)
                    =~= (base + fanout(entries@.take(i as int), skip, ev@)).push(d));
            }
        }
        i = i + 1;
    }
    proof {
        assert(entries@.take(entries@.len() as int) =~= entries@);
    }
}

/// How many deliveries of `ds` are addressed to the id `to`.
pub open spec fn count_to(ds: Seq<DeliveryView>, to: u32) -> nat
    decreases ds.len(),
{
    if ds.len() == 0 {
        0
    } else {
        count_to(ds.drop_last(), to) + if ds.last().to_id == to {
            1nat
        } else {
            0nat
        }
    }
}

/// How many entries of `s` carry the id `id`.
pub open spec fn count_id(s: Seq<Entry>, id: u32) -> nat
    decreases s.len(),
{
    if s.len() == 0 {
        0
    } else {
        count_id(s.drop_last(), id) + if s.last().id == id {
            1nat
        } else {
            0nat
        }
    }
}

proof fn lemma_count_to_concat(a: Seq<DeliveryView>, b: Seq<DeliveryView>, to: u32)
    ensures
        count_to(a + b, to) == count_to(a, to) + count_to(b, to),
    decreases b.len(),
{
    if b.len() == 0 {
        assert(a + b =~= a);
    } else {
        lemma_count_to_concat(a, b.drop_last(), to);
        assert((a + b).drop_last() =~= a + b.drop_last());
        assert((a + b).last() == b.last());
    }
}

proof fn lemma_count_to_none(ds: Seq<DeliveryView>, to: u32)
    requires
        forall|k: int| 0 <= k < ds.len() ==> ds[k].to_id != to,
    ensures
        count_to(ds, to) == 0,
    decreases ds.len(),
{
    if ds.len() > 0 {
        lemma_count_to_none(ds.drop_last(), to);
    }
}

/// Every fan-out delivery carries exactly the broadcast event, goes to a
/// registered member, and never to the skipped id.
pub proof fn lemma_fanout_members(s: Seq<Entry>, skip: u32, ev: EventView)
    ensures
        forall|k: int| 0 <= k < fanout(s, skip, ev).len() ==> (#[trigger] fanout(s, skip, ev)[k])
            .event == ev,
        forall|k: int| 0 <= k < fanout(s, skip, ev).len() ==> (#[trigger] fanout(s, skip, ev)[k])
            .to_id != skip,
        forall|k: int| 0 <= k < fanout(s, skip, ev).len() ==> has_id(
            s,
            (#[trigger] fanout(s, skip, ev)[k]).to_id,
        ),
    decreases s.len(),
{
    if s.len() > 0 {
        lemma_fanout_members(s.drop_last(), skip, ev);
        assert(forall|x: u32| has_id(s.drop_last(), x) ==> has_id(s, x)) by {
            assert forall|x: u32| has_id(s.drop_last(), x) implies has_id(s, x) by {
                let i = choose|i: int| 0 <= i < s.drop_last().len() && s.drop_last()[i].id == x;
                assert(s[i].id == x);
            }
        }
        if s.last().id != skip {
            assert(s[s.len() - 1].id == s.last().id);
        }
    }
}

/// The fan-out delivers to a member exactly as often as the registry
/// carries its id, when the member is not the skipped sender.
proof fn lemma_fanout_count(s: Seq<Entry>, skip: u32, ev: EventView, m: u32)
    requires
        m != skip,
    ensures
        count_to(fanout(s, skip, ev), m) == count_id(s, m),
    decreases s.len(),
{
    if s.len() > 0 {
        lemma_fanout_count(s.drop_last(), skip, ev, m);
        let rest = fanout(s.drop_last(), skip, ev);
        if s.last().id != skip {
            let d = DeliveryView { to_id: s.last().id, to_handle: s.last().handle, event: ev };
            assert(rest.push(d).drop_last() =~= rest);
            assert(rest.push(d).last() == d);
        }
    }
}

/// A registry with pairwise-distinct ids carries a member's id exactly
/// once, and an absent id not at all.
proof fn lemma_distinct_count_id(s: Seq<Entry>, id: u32)
    requires
        distinct_ids(s),
    ensures
        count_id(s, id) == if has_id(s, id) {
            1nat
        } else {
            0nat
        },
    decreases s.len(),
{
    if s.len() > 0 {
        assert(distinct_ids(s.drop_last()));
        lemma_distinct_count_id(s.drop_last(), id);
        if s.last().id == id {
            assert(s[s.len() - 1].id == id);
            assert(!has_id(s.drop_last(), id)) by {
                if has_id(s.drop_last(), id) {
                    let i = choose|i: int|
                        0 <= i < s.drop_last().len() && s.drop_last()[i].id == id;
                    assert(s[i].id == id);
                }
            }
        } else {
            if has_id(s, id) {
                let i = choose|i: int| 0 <= i < s.len() && s[i].id == id;
                assert(i < s.len() - 1);
                assert(s.drop_last()[i].id == id);
            }
            assert(has_id(s, id) == has_id(s.drop_last(), id)) by {
                if has_id(s.drop_last(), id) {
                    let i = choose|i: int|
                        0 <= i < s.drop_last().len() && s.drop_last()[i].id == id;
                    assert(s[i].id == id);
                }
            }
        }
    }
}

/// When the skipped id is absent, the fan-out reaches every entry, in
/// registry order.
proof fn lemma_fanout_full(s: Seq<Entry>, skip: u32, ev: EventView)
    requires
        !has_id(s, skip),
    ensures
        fanout(s, skip, ev).len() == s.len(),
        forall|k: int| 0 <= k < s.len() ==> fanout(s, skip, ev)[k] == (DeliveryView {
            to_id: s[k].id,
            to_handle: s[k].handle,
            event: ev,
        }),
    decreases s.len(),
{
    if s.len() > 0 {
        assert(!has_id(s.drop_last(), skip)) by {
            if has_id(s.drop_last(), skip) {
                let i = choose|i: int|
                    0 <= i < s.drop_last().len() && s.drop_last()[i].id == skip;
                assert(s[i].id == skip);
            }
        }
        lemma_fanout_full(s.drop_last(), skip, ev);
        assert(s.last().id != skip) by {
            assert(s[s.len() - 1] == s.last());
        }
        assert(forall|k: int| 0 <= k < s.len() - 1 ==> s.drop_last()[k] == s[k]);
    }
}

/// Every entry the fan-out does not skip is delivered to.
proof fn lemma_fanout_present(s: Seq<Entry>, skip: u32, ev: EventView, p: int)
    requires
        0 <= p < s.len(),
        s[p].id != skip,
    ensures
        exists|k: int| 0 <= k < fanout(s, skip, ev).len() && #[trigger] fanout(s, skip, ev)[k]
            .to_id == s[p].id,
    decreases s.len(),
{
    let out = fanout(s, skip, ev);
    if p == s.len() - 1 {
        assert(out[out.len() - 1].to_id == s[p].id);
    } else {
        lemma_fanout_present(s.drop_last(), skip, ev, p);
        let rest = fanout(s.drop_last(), skip, ev);
        let k = choose|k: int| 0 <= k < rest.len() && rest[k].to_id == s.drop_last()[p].id;
        assert(out[k].to_id == s[p].id);
    }
}

/// The fan-out walks the registry in order: of two entries it delivers
/// to, the earlier-registered one is delivered to first.
pub proof fn lemma_fanout_order(s: Seq<Entry>, skip: u32, ev: EventView, p1: int, p2: int)
    requires
        0 <= p1 < p2 < s.len(),
        s[p1].id != skip,
        s[p2].id != skip,
    ensures
        exists|k1: int, k2: int|
            0 <= k1 < k2 < fanout(s, skip, ev).len()
                && (#[trigger] fanout(s, skip, ev)[k1]).to_id == s[p1].id
                && (#[trigger] fanout(s, skip, ev)[k2]).to_id == s[p2].id,
    decreases s.len(),
{
    let out = fanout(s, skip, ev);
    let rest = fanout(s.drop_last(), skip, ev);
    if p2 == s.len() - 1 {
        lemma_fanout_present(s.drop_last(), skip, ev, p1);
        let k1 = choose|k: int| 0 <= k < rest.len() && rest[k].to_id == s.drop_last()[p1].id;
        assert(out[k1].to_id == s[p1].id);
        assert(out[rest.len() as int].to_id == s[p2].id);
    } else {
        lemma_fanout_order(s.drop_last(), skip, ev, p1, p2);
        let (k1, k2) = choose|k1: int, k2: int|
            0 <= k1 < k2 < rest.len() && rest[k1].to_id == s.drop_last()[p1].id && rest[k2].to_id
                == s.drop_last()[p2].id;
        assert(out[k1].to_id == s[p1].id);
        assert(out[k2].to_id == s[p2].id);
    }
}

/// Membership after an upsert: the registered id, plus everything that
/// was registered before.
pub proof fn lemma_upsert_has(s: Seq<Entry>, id: u32, handle: u64, q: u32)
    ensures
        has_id(upsert(s, id, handle), q) == (q == id || has_id(s, q)),
{
    let t = upsert(s, id, handle);
    if has_id(s, id) {
        let i0 = idx_of(s, id);
        assert(0 <= i0 < s.len() && s[i0].id == id);
        if q == id {
            assert(t[i0].id == id);
        } else {
            if has_id(s, q) {
                let i = choose|i: int| 0 <= i < s.len() && s[i].id == q;
                assert(i != i0);
                assert(t[i].id == q);
            }
            if has_id(t, q) {
                let i = choose|i: int| 0 <= i < t.len() && t[i].id == q;
                assert(i != i0);
                assert(s[i].id == q);
            }
        }
    } else {
        if q == id {
            assert(t[s.len() as int].id == id);
        } else {
            if has_id(s, q) {
                let i = choose|i: int| 0 <= i < s.len() && s[i].id == q;
                assert(t[i].id == q);
            }
            if has_id(t, q) {
                let i = choose|i: int| 0 <= i < t.len() && t[i].id == q;
                assert(i < s.len());
                assert(s[i].id == q);
            }
        }
    }
}

/// Membership after a removal: everything but the removed id.
pub proof fn lemma_remove_has(s: Seq<Entry>, id: u32, q: u32)
    requires
        distinct_ids(s),
    ensures
        has_id(remove_id(s, id), q) == (q != id && has_id(s, q)),
{
    if has_id(s, id) {
        let i0 = idx_of(s, id);
        assert(0 <= i0 < s.len() && s[i0].id == id);
        let t = s.remove(i0);
        if q == id {
            if has_id(t, q) {
                let i = choose|i: int| 0 <= i < t.len() && t[i].id == q;
                if i < i0 {
                    assert(s[i].id == q);
                } else {
                    assert(s[i + 1].id == q);
                }
            }
        } else {
            if has_id(s, q) {
                let i = choose|i: int| 0 <= i < s.len() && s[i].id == q;
                assert(i != i0);
                if i < i0 {
                    assert(t[i].id == q);
                } else {
                    assert(t[i - 1].id == q);
                }
            }
            if has_id(t, q) {
                let i = choose|i: int| 0 <= i < t.len() && t[i].id == q;
                if i < i0 {
                    assert(s[i].id == q);
                } else {
                    assert(s[i + 1].id == q);
                }
            }
        }
    }
}

/// A coordinator registry after a run of messages, starting from `s`.
pub open spec fn apply_msgs(s: Seq<Entry>, msgs: Seq<MsgView>) -> Seq<Entry>
    decreases msgs.len(),
{
    if msgs.len() == 0 {
        s
    } else {
        step_entries(apply_msgs(s, msgs.drop_last()), msgs.last())
    }
}

/// Whether `id` has a Connect in `msgs` more recent than any Disconnect
/// for it; where `msgs` never mentions `id`, whether the initial
/// registry `s` carried it.
pub open spec fn member_after(s: Seq<Entry>, msgs: Seq<MsgView>, id: u32) -> bool
    decreases msgs.len(),
{
    if msgs.len() == 0 {
        has_id(s, id)
    } else {
        match msgs.last() {
            MsgView::Connect { id: j, .. } => j == id || member_after(s, msgs.drop_last(), id),
            MsgView::Disconnect { id: j } => j != id && member_after(s, msgs.drop_last(), id),
            MsgView::Relay { .. } => member_after(s, msgs.drop_last(), id),
        }
    }
}

/// Steps keep the registry ids pairwise distinct.
pub proof fn lemma_step_distinct(s: Seq<Entry>, m: MsgView)
    requires
        distinct_ids(s),
    ensures
        distinct_ids(step_entries(s, m)),
{
    match m {
        MsgView::Connect { id, handle } => {
            if has_id(s, id) {
                let i0 = idx_of(s, id);
                assert(0 <= i0 < s.len() && s[i0].id == id);
            }
        },
        MsgView::Disconnect { id } => {
            if has_id(s, id) {
                let i0 = idx_of(s, id);
                assert(0 <= i0 < s.len() && s[i0].id == id);
            }
        },
        MsgView::Relay { .. } => {},
    }
}

/// A run of messages keeps the registry ids pairwise distinct.
pub proof fn lemma_apply_msgs_distinct(s: Seq<Entry>, msgs: Seq<MsgView>)
    requires
        distinct_ids(s),
    ensures
        distinct_ids(apply_msgs(s, msgs)),
    decreases msgs.len(),
{
    if msgs.len() > 0 {
        lemma_apply_msgs_distinct(s, msgs.drop_last());
        lemma_step_distinct(apply_msgs(s, msgs.drop_last()), msgs.last());
    }
}

/// Membership consistency: after a run of messages the registry carries
/// exactly the ids whose most recent Connect is more recent than any
/// Disconnect for them.
pub proof fn lemma_membership_consistency(s: Seq<Entry>, msgs: Seq<MsgView>, id: u32)
    requires
        distinct_ids(s),
    ensures
        has_id(apply_msgs(s, msgs), id) == member_after(s, msgs, id),
    decreases msgs.len(),
{
    if msgs.len() > 0 {
        lemma_membership_consistency(s, msgs.drop_last(), id);
        lemma_apply_msgs_distinct(s, msgs.drop_last());
        let mid = apply_msgs(s, msgs.drop_last());
        match msgs.last() {
            MsgView::Connect { id: j, handle } => {
                lemma_upsert_has(mid, j, handle, id);
            },
            MsgView::Disconnect { id: j } => {
                lemma_remove_has(mid, j, id);
            },
            MsgView::Relay { .. } => {},
        }
    }
}

/// No self-delivery: a relay from `id` never delivers back to `id`.
pub proof fn lemma_no_self_delivery(s: Seq<Entry>, id: u32, chunk: ChunkView)
    ensures
        forall|k: int| 0 <= k < step_out(s, MsgView::Relay { id, chunk }).len() ==> (
        #[trigger] step_out(s, MsgView::Relay { id, chunk })[k]).to_id != id,
{
    lemma_fanout_members(s, id, EventView::Relay { from: id, chunk });
}

/// Broadcast completeness: a relay from `id` leaves the registry as it
/// is, carries exactly the relayed chunk in every delivery, reaches
/// every member other than the sender exactly once, and reaches them in
/// registry order.
pub proof fn lemma_broadcast_completeness(s: Seq<Entry>, id: u32, chunk: ChunkView, m: u32)
    requires
        distinct_ids(s),
        has_id(s, m),
        m != id,
    ensures
        step_entries(s, MsgView::Relay { id, chunk }) == s,
        count_to(step_out(s, MsgView::Relay { id, chunk }), m) == 1,
        forall|k: int| 0 <= k < step_out(s, MsgView::Relay { id, chunk }).len() ==> (
        #[trigger] step_out(s, MsgView::Relay { id, chunk })[k]).event == (EventView::Relay {
            from: id,
            chunk,
        }),
        forall|p1: int, p2: int|
            0 <= p1 < p2 < s.len() && s[p1].id != id && s[p2].id != id ==> exists|
                k1: int,
                k2: int,
            |
                0 <= k1 < k2 < step_out(s, MsgView::Relay { id, chunk }).len()
                    && (#[trigger] step_out(s, MsgView::Relay { id, chunk })[k1]).to_id
                    == s[p1].id && (#[trigger] step_out(s, MsgView::Relay { id, chunk })[k2])
                    .to_id == s[p2].id,
{
    let ev = EventView::Relay { from: id, chunk };
    lemma_fanout_count(s, id, ev, m);
    lemma_distinct_count_id(s, m);
    lemma_fanout_members(s, id, ev);
    assert forall|p1: int, p2: int|
        0 <= p1 < p2 < s.len() && s[p1].id != id && s[p2].id != id implies exists|
        k1: int,
        k2: int,
    |
        0 <= k1 < k2 < step_out(s, MsgView::Relay { id, chunk }).len()
            && (#[trigger] step_out(s, MsgView::Relay { id, chunk })[k1]).to_id == s[p1].id && (
        #[trigger] step_out(s, MsgView::Relay { id, chunk })[k2]).to_id == s[p2].id by {
        lemma_fanout_order(s, id, ev, p1, p2);
    }
}

/// Join backfill: a connect of a fresh id notifies every existing
/// member of the newcomer exactly once, and sends the newcomer one
/// `PeerJoined` per existing member, in registry order.
pub proof fn lemma_join_backfill(s: Seq<Entry>, id: u32, handle: u64)
    requires
        distinct_ids(s),
        !has_id(s, id),
    ensures
        step_out(s, MsgView::Connect { id, handle }).len() == 2 * s.len(),
        forall|k: int| 0 <= k < s.len() ==> step_out(s, MsgView::Connect { id, handle })[k]
            == (DeliveryView {
            to_id: s[k].id,
            to_handle: s[k].handle,
            event: EventView::PeerJoined { id },
        }),
        forall|k: int| 0 <= k < s.len() ==> step_out(s, MsgView::Connect { id, handle })[s.len()
            + k] == (DeliveryView {
            to_id: id,
            to_handle: handle,
            event: EventView::PeerJoined { id: s[k].id },
        }),
        forall|m: u32| has_id(s, m) ==> count_to(
            step_out(s, MsgView::Connect { id, handle }),
            m,
        ) == 1,
    decreases s.len(),
{
    let ev = EventView::PeerJoined { id };
    let to = Entry { id, handle };
    let out = step_out(s, MsgView::Connect { id, handle });
    lemma_fanout_full(s, id, ev);
    assert(out =~= fanout(s, id, ev) + backfill(s, to));
    assert forall|m: u32| has_id(s, m) implies count_to(out, m) == 1 by {
        assert(m != id);
        lemma_count_to_concat(fanout(s, id, ev), backfill(s, to), m);
        lemma_fanout_count(s, id, ev, m);
        lemma_distinct_count_id(s, m);
        assert(forall|k: int| 0 <= k < backfill(s, to).len() ==> (#[trigger] backfill(s, to)[k])
            .to_id == id);
        lemma_count_to_none(backfill(s, to), m);
    }
}

/// Disconnect idempotence: one disconnect removes the id; a second for
/// the same id changes nothing and emits no delivery, so exactly one
/// `PeerLeft` broadcast comes of the pair.
pub proof fn lemma_disconnect_idempotent(s: Seq<Entry>, id: u32)
    requires
        distinct_ids(s),
    ensures
        !has_id(step_entries(s, MsgView::Disconnect { id }), id),
        step_entries(
            step_entries(s, MsgView::Disconnect { id }),
            MsgView::Disconnect { id },
        ) == step_entries(s, MsgView::Disconnect { id }),
        step_out(step_entries(s, MsgView::Disconnect { id }), MsgView::Disconnect { id })
            == Seq::<DeliveryView>::empty(),
{
    lemma_remove_has(s, id, id);
}

/// Walks the pre-insertion registry in order and appends the backfill
/// deliveries for the entry newly registered as `id` under `handle`.
fn backfill_from(prev: &Vec<Entry>, id: u32, handle: u64, out: &mut Vec<Delivery>)
    ensures
        delivery_views(final(out)@) == delivery_views(old(out)@)
            + backfill(prev@, Entry { id, handle }),
{
    let ghost base = delivery_views(out@);
    let mut i: usize = 0;
    while i < prev.len()
        invariant
            i <= prev@.len(),
            delivery_views(out@) == base + backfill(prev@.take(i as int), Entry { id, handle }),
        decreases prev.len() - i,
    {
        let peer_id = prev[i].id;
        out.push(Delivery {
            to_id: id,
            to_handle: handle,
            event: PeerEvent::PeerJoined { id: peer_id },
        });
        proof {
            let d = DeliveryView {
                to_id: id,
                to_handle: handle,
                event: EventView::PeerJoined { id: prev@[i as int].id },
            };
            assert(backfill(prev@.take(i + 1 as int), Entry { id, handle })
                =~= backfill(prev@.take(i as int), Entry { id, handle }).push(d));
            assert(delivery_views(out@)
                =~= (base + backfill(prev@.take(i as int), Entry { id, handle })).push(d));
            assert(base + backfill(prev@.take(i + 1 as int), Entry { id, handle })
                =~= (base + backfill(prev@.take(i as int), Entry { id, handle })).push(d));
        }
        i = i + 1;
    }
    proof {
        assert(prev@.take(prev@.len() as int) =~= prev@);
    }
}

} // verus!
