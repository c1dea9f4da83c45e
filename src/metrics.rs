use vstd::prelude::*;

use crate::envvars::names_view;
use crate::types::RoomID;

verus! {

/// Label set of the per-room metrics.
#[derive(Clone, Debug, PartialEq, Eq, Hash)]
pub struct Labels {
    pub room: RoomID,
}

/// Counters of one room.
#[derive(Debug)]
struct RoomStat {
    name: RoomID,
    /// WebSocket connections ever made
    total: u64,
    /// WebSocket connections now open
    open: i64,
}

/// Per-room connection counters and the set of rooms with open connections.
#[derive(Debug)]
pub struct RoomStats {
    rooms: Vec<RoomStat>,
    track_labels: bool,
}

spec fn names_unique(rooms: Seq<RoomStat>) -> bool {
    forall|i: int, j: int|
        0 <= i < rooms.len() && 0 <= j < rooms.len() && i != j ==> #[trigger] rooms[i].name@
            != #[trigger] rooms[j].name@
}

/// Index of the counters of `room`.
fn find_stat(rooms: &Vec<RoomStat>, room: &str) -> (r: Option<usize>)
    ensures
        match r {
            Some(i) => i < rooms@.len() && rooms@[i as int].name@ == room@,
            None => forall|i: int| 0 <= i < rooms@.len() ==> #[trigger] rooms@[i].name@ != room@,
        },
{
    let mut i: usize = 0;
    while i < rooms.len()
        invariant
            i <= rooms@.len(),
            forall|k: int| 0 <= k < i ==> #[trigger] rooms@[k].name@ != room@,
        decreases rooms@.len() - i,
    {
        if crate::rooms::same_text(rooms[i].name.as_str(), room) {
            return Some(i);
        }
        i += 1;
    }
    None
}

impl RoomStats {
    pub closed spec fn wf(&self) -> bool {
        names_unique(self.rooms@)
    }

    /// Whether the store lists rooms for the API.
    pub closed spec fn tracks_labels(&self) -> bool {
        self.track_labels
    }

    closed spec fn known(&self, room: Seq<char>) -> bool {
        exists|i: int| 0 <= i < self.rooms@.len() && #[trigger] self.rooms@[i].name@ == room
    }

    closed spec fn index_of(&self, room: Seq<char>) -> int {
        choose|i: int| 0 <= i < self.rooms@.len() && #[trigger] self.rooms@[i].name@ == room
    }

    /// Open connections of `room`.
    pub closed spec fn open_of(&self, room: Seq<char>) -> int {
        if self.known(room) {
            self.rooms@[self.index_of(room)].open as int
        } else {
            0
        }
    }

    /// Connections ever made to `room`.
    pub closed spec fn total_of(&self, room: Seq<char>) -> int {
        if self.known(room) {
            self.rooms@[self.index_of(room)].total as int
        } else {
            0
        }
    }

    proof fn lemma_index(&self, i: int)
        requires
            self.wf(),
            0 <= i < self.rooms@.len(),
        ensures
            self.known(self.rooms@[i].name@),
            self.index_of(self.rooms@[i].name@) == i,
            self.open_of(self.rooms@[i].name@) == self.rooms@[i].open,
            self.total_of(self.rooms@[i].name@) == self.rooms@[i].total,
    {
        let n = self.rooms@[i].name@;
        assert(self.known(n));
        let j = self.index_of(n);
        if j != i {
            assert(self.rooms@[j].name@ != self.rooms@[i].name@);
        }
    }

    /// An empty store; `track_labels` makes it list rooms for the API.
    pub fn new(track_labels: bool) -> (r: RoomStats)
        ensures
            r.wf(),
            r.tracks_labels() == track_labels,
            forall|room: Seq<char>| r.open_of(room) == 0 && r.total_of(room) == 0,
    {
        RoomStats { rooms: Vec::new(), track_labels }
    }

    /// Set the counters of `room`, adding it when it is new.
    #[verifier::spinoff_prover]
    fn put(&mut self, room: &str, total: u64, open: i64)
        requires
            old(self).wf(),
        ensures
            final(self).wf(),
            final(self).track_labels == old(self).track_labels,
            final(self).open_of(room@) == open,
            final(self).total_of(room@) == total,
            forall|r: Seq<char>| r != room@ ==> #[trigger] final(self).open_of(r) == old(self).open_of(r),
            forall|r: Seq<char>| r != room@ ==> #[trigger] final(self).total_of(r) == old(self).total_of(r),
    {
        let ghost before = self.rooms@;
        let ghost old_self = *self;
        match find_stat(&self.rooms, room) {
            Some(i) => {
                let mut s = self.rooms.remove(i);
                s.total = total;
                s.open = open;
                self.rooms.insert(i, s);
                assert(self.rooms@ =~= before.update(i as int, self.rooms@[i as int]));
                proof {
                    self.lemma_index(i as int);
                    assert forall|r: Seq<char>|
                        #![trigger self.open_of(r)]
                        #![trigger self.total_of(r)]
                        r != room@ implies self.open_of(r) == old_self.open_of(r)
                            && self.total_of(r) == old_self.total_of(r) by {
                        if old_self.known(r) {
                            let j = old_self.index_of(r);
                            old_self.lemma_index(j);
                            self.lemma_index(j);
                        }
                        if self.known(r) {
                            let j = self.index_of(r);
                            assert(before[j].name@ == r);
                        }
                    }
                }
            },
            None => {
                let name = room.to_string();
                self.rooms.push(RoomStat { name, total, open });
                let ghost n = before.len() as int;
                assert(self.rooms@ =~= before.push(self.rooms@[n]));
                proof {
                    self.lemma_index(n);
                    assert forall|r: Seq<char>|
                        #![trigger self.open_of(r)]
                        #![trigger self.total_of(r)]
                        r != room@ implies self.open_of(r) == old_self.open_of(r)
                            && self.total_of(r) == old_self.total_of(r) by {
                        if old_self.known(r) {
                            let j = old_self.index_of(r);
                            old_self.lemma_index(j);
                            self.lemma_index(j);
                        }
                        if self.known(r) {
                            let j = self.index_of(r);
                            assert(j != n);
                            assert(before[j].name@ == r);
                        }
                    }
                }
            },
        }
    }

    /// Counters of `room`: connections made and open.
    fn counts(&self, room: &str) -> (r: (u64, i64))
        requires
            self.wf(),
        ensures
            r.0 == self.total_of(room@),
            r.1 == self.open_of(room@),
    {
        match find_stat(&self.rooms, room) {
            Some(i) => {
                proof {
                    self.lemma_index(i as int);
                }
                (self.rooms[i].total, self.rooms[i].open)
            },
            None => (0, 0),
        }
    }

    /// A connection to `room` opened; returns the number open before. The
    /// counters saturate at their maximum.
    #[verifier::spinoff_prover]
    pub fn inc_ws_connections(&mut self, room: &str) -> (prev: i64)
        requires
            old(self).wf(),
        ensures
            final(self).wf(),
            final(self).tracks_labels() == old(self).tracks_labels(),
            prev == old(self).open_of(room@),
            final(self).open_of(room@) == if prev < i64::MAX { prev + 1 } else { prev as int },
            final(self).total_of(room@) == if old(self).total_of(room@) < u64::MAX {
                old(self).total_of(room@) + 1
            } else {
                old(self).total_of(room@)
            },
            forall|r: Seq<char>| r != room@ ==> #[trigger] final(self).open_of(r) == old(self).open_of(r),
            forall|r: Seq<char>| r != room@ ==> #[trigger] final(self).total_of(r) == old(self).total_of(r),
    {
        let (total, open) = self.counts(room);
        let total = if total < u64::MAX { total + 1 } else { total };
        let next = if open < i64::MAX { open + 1 } else { open };
        self.put(room, total, next);
        open
    }

    /// A connection to `room` closed; returns the number open before.
    #[verifier::spinoff_prover]
    pub fn dec_ws_connections(&mut self, room: &str) -> (prev: i64)
        requires
            old(self).wf(),
        ensures
            final(self).wf(),
            final(self).tracks_labels() == old(self).tracks_labels(),
            prev == old(self).open_of(room@),
            final(self).open_of(room@) == if prev > i64::MIN { prev - 1 } else { prev as int },
            final(self).total_of(room@) == old(self).total_of(room@),
            forall|r: Seq<char>| r != room@ ==> #[trigger] final(self).open_of(r) == old(self).open_of(r),
            forall|r: Seq<char>| r != room@ ==> #[trigger] final(self).total_of(r) == old(self).total_of(r),
    {
        let (total, open) = self.counts(room);
        let next = if open > i64::MIN { open - 1 } else { open };
        self.put(room, total, next);
        open
    }

    /// The room's child ended: forget its open connections.
    pub fn clear(&mut self, room: &str)
        requires
            old(self).wf(),
        ensures
            final(self).wf(),
            final(self).tracks_labels() == old(self).tracks_labels(),
            final(self).open_of(room@) == 0,
            final(self).total_of(room@) == old(self).total_of(room@),
            forall|r: Seq<char>| r != room@ ==> #[trigger] final(self).open_of(r) == old(self).open_of(r),
            forall|r: Seq<char>| r != room@ ==> #[trigger] final(self).total_of(r) == old(self).total_of(r),
    {
        let (total, _) = self.counts(room);
        self.put(room, total, 0);
    }

    /// Open connections of `room`.
    pub fn get_room_connections(&self, room: &str) -> (r: i64)
        requires
            self.wf(),
        ensures
            r == self.open_of(room@),
    {
        self.counts(room).1
    }

    /// The rooms with an open connection, when the store tracks them; none
    /// otherwise.
    pub fn rooms(&self) -> (r: Vec<RoomID>)
        requires
            self.wf(),
        ensures
            forall|room: Seq<char>| names_view(r@).contains(room) <==> (
            self.tracks_labels() && self.open_of(room) >= 1),
    {
        let mut out: Vec<RoomID> = Vec::new();
        if !self.track_labels {
            assert(names_view(out@) =~= Seq::<Seq<char>>::empty());
            return out;
        }
        let mut i: usize = 0;
        while i < self.rooms.len()
            invariant
                self.wf(),
                self.track_labels,
                i <= self.rooms@.len(),
                forall|room: Seq<char>| names_view(out@).contains(room) <==> exists|k: int|
                    0 <= k < i && #[trigger] self.rooms@[k].name@ == room && self.rooms@[k].open >= 1,
            decreases self.rooms@.len() - i,
        {
            let ghost before = out@;
            if self.rooms[i].open >= 1 {
                out.push(self.rooms[i].name.clone());
                assert(names_view(out@) =~= names_view(before).push(self.rooms@[i as int].name@));
            } else {
                assert(out@ == before);
            }
            assert forall|room: Seq<char>| names_view(out@).contains(room) <==> exists|k: int|
                0 <= k < i + 1 && #[trigger] self.rooms@[k].name@ == room && self.rooms@[k].open >= 1 by {
                if names_view(out@).contains(room) {
                    let j = choose|j: int| 0 <= j < names_view(out@).len() && names_view(out@)[j] == room;
                    if j < names_view(before).len() {
                        assert(names_view(before)[j] == room);
                        assert(names_view(before).contains(room));
                        let k = choose|k: int| 0 <= k < i && #[trigger] self.rooms@[k].name@ == room && self.rooms@[k].open >= 1;
                        assert(0 <= k < i + 1 && self.rooms@[k].name@ == room && self.rooms@[k].open >= 1);
                    } else {
                        assert(self.rooms@[i as int].name@ == room && self.rooms@[i as int].open >= 1);
                    }
                }
                if exists|k: int| 0 <= k < i + 1 && #[trigger] self.rooms@[k].name@ == room && self.rooms@[k].open >= 1 {
                    let k = choose|k: int| 0 <= k < i + 1 && #[trigger] self.rooms@[k].name@ == room && self.rooms@[k].open >= 1;
                    if k == i {
                        assert(names_view(out@)[names_view(out@).len() - 1] == room);
                    } else {
                        assert(names_view(before).contains(room));
                        let j = choose|j: int| 0 <= j < names_view(before).len() && names_view(before)[j] == room;
                        assert(names_view(out@)[j] == room);
                    }
                }
            }
            i += 1;
        }
        assert forall|room: Seq<char>| names_view(out@).contains(room) <==> (
            self.tracks_labels() && self.open_of(room) >= 1) by {
            if exists|k: int| 0 <= k < i && #[trigger] self.rooms@[k].name@ == room && self.rooms@[k].open >= 1 {
                let k = choose|k: int| 0 <= k < i && #[trigger] self.rooms@[k].name@ == room && self.rooms@[k].open >= 1;
                self.lemma_index(k);
            }
            if self.open_of(room) >= 1 {
                let k = self.index_of(room);
                self.lemma_index(k);
            }
        }
        out
    }
}

} // verus!
