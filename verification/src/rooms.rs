//! The room table: a fixed set of rooms provisioned at startup, each
//! with its own coordinator.  Rooms are fully isolated broadcast
//! domains: a step in one room never touches another.

use vstd::prelude::*;

use crate::coordinator::{distinct_ids, has_id, released_by, step_entries, step_out, Coordinator,
    StepOutput};
use crate::messages::{delivery_views, Entry, HubMsg};

verus! {

/// The coordinators of a process, one per room, keyed by room index.
pub struct RoomTable {
    rooms: Vec<Coordinator>,
}

impl View for RoomTable {
    type V = Seq<Seq<Entry>>;

    closed spec fn view(&self) -> Seq<Seq<Entry>> {
        self.rooms@.map_values(|c: Coordinator| c@)
    }
}

impl RoomTable {
    /// Every room's registry has pairwise-distinct ids.
    pub open spec fn wf(&self) -> bool {
        forall|k: int| 0 <= k < self@.len() ==> distinct_ids(#[trigger] self@[k])
    }

    /// A table of `count` empty rooms.
    pub fn new(count: usize) -> (r: RoomTable)
        ensures
            r@.len() == count,
            forall|k: int| 0 <= k < count ==> #[trigger] r@[k] == Seq::<Entry>::empty(),
            r.wf(),
    {
        let mut rooms: Vec<Coordinator> = Vec::new();
        let mut i: usize = 0;
        while i < count
            invariant
                i <= count,
                rooms@.len() == i,
                forall|k: int| 0 <= k < i ==> #[trigger] rooms@[k]@ == Seq::<Entry>::empty(),
            decreases count - i,
        {
            rooms.push(Coordinator::new());
            i = i + 1;
        }
        let r = RoomTable { rooms };
        proof {
            assert(forall|k: int| 0 <= k < count ==> #[trigger] r@[k] == rooms@[k]@);
        }
        r
    }

    /// How many rooms are provisioned.
    pub fn room_count(&self) -> (r: usize)
        ensures
            r == self@.len(),
    {
        self.rooms.len()
    }

    /// Whether room `room` has a session registered under `id`.
    pub fn contains_in(&self, room: usize, id: u32) -> (r: bool)
        requires
            room < self@.len(),
        ensures
            r == has_id(self@[room as int], id),
    {
        let c = &self.rooms[room];
        c.contains(id)
    }

    /// Hands one message to the coordinator of room `room`.  That room
    /// steps exactly as the coordinator's `handle` says; every other
    /// room is untouched.
    pub fn handle_in_room(&mut self, room: usize, msg: HubMsg) -> (r: StepOutput)
        requires
            room < old(self)@.len(),
            old(self).wf(),
        ensures
            final(self)@.len() == old(self)@.len(),
            final(self)@[room as int] == step_entries(old(self)@[room as int], msg@),
            forall|k: int| 0 <= k < old(self)@.len() && k != room ==> final(self)@[k]
                == old(self)@[k],
            delivery_views(r.deliveries@) == step_out(old(self)@[room as int], msg@),
            r.released == released_by(old(self)@[room as int], msg@),
            final(self).wf(),
    {
        let mut c = self.rooms.remove(room);
        let ghost before = old(self).rooms@;
        let out = c.handle(msg);
        self.rooms.insert(room, c);
        proof {
            assert(self.rooms@ =~= before.update(room as int, c));
            assert(forall|k: int| 0 <= k < before.len() && k != room ==> #[trigger] self@[k]
                == old(self)@[k]);
            assert(self@[room as int] == c@);
        }
        out
    }
}

} // verus!
