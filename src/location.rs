//! Where the user is: the live location and the bounded history of
//! instance joins and leaves.
use vstd::prelude::*;
use vstd::string::StringSliceAdditionalSpecFns;
use crate::bytes::{dup, copy_range, opt_view};

verus! {

/// How many history entries are kept; older ones are dropped first.
pub const HISTORY_CAP: usize = 200;

/// The live location.
pub struct Location {
    pub world_id: Option<Vec<u8>>,
    pub instance_id: Option<Vec<u8>>,
    pub room_name: Option<Vec<u8>>,
}

pub fn dup_opt(o: &Option<Vec<u8>>) -> (r: Option<Vec<u8>>)
    ensures
        opt_view(r) == opt_view(*o),
{
    match o {
        Some(v) => Some(dup(v)),
        None => None,
    }
}

/// A location as values: world, instance, room.
pub open spec fn location_view(l: Location) -> (Option<Seq<u8>>, Option<Seq<u8>>, Option<Seq<u8>>) {
    (opt_view(l.world_id), opt_view(l.instance_id), opt_view(l.room_name))
}

/// The location as a moderation row records it: `<world>:<instance>`, with
/// `N/A` for a part that is unknown, or `N/A` alone where both are.
pub open spec fn mod_location(world: Option<Seq<u8>>, instance: Option<Seq<u8>>) -> Seq<u8> {
    let na = "N/A".spec_bytes();
    match (world, instance) {
        (Some(w), Some(i)) => w + seq![58u8] + i,
        (Some(w), None) => w + seq![58u8] + na,
        (None, Some(i)) => na + seq![58u8] + i,
        (None, None) => na,
    }
}

fn concat3(a: &[u8], b: u8, c: &[u8]) -> (r: Vec<u8>)
    ensures
        r@ == a@ + seq![b] + c@,
{
    let mut r = copy_range(a, 0, a.len());
    assert(a@.subrange(0, a@.len() as int) =~= a@);
    r.push(b);
    let ghost head = r@;
    let mut i: usize = 0;
    while i < c.len()
        invariant
            i <= c@.len(),
            r@ == head + c@.subrange(0, i as int),
        decreases c.len() - i,
    {
        r.push(c[i]);
        i = i + 1;
        assert(r@ =~= head + c@.subrange(0, i as int));
    }
    assert(c@.subrange(0, c@.len() as int) =~= c@);
    r
}

/// The live location as a moderation row records it.
pub fn get_current_location_for_mod_log(loc: &Location) -> (r: Vec<u8>)
    ensures
        r@ == mod_location(opt_view(loc.world_id), opt_view(loc.instance_id)),
{
    let na = "N/A".as_bytes();
    match (&loc.world_id, &loc.instance_id) {
        (Some(w), Some(i)) => concat3(w.as_slice(), 58u8, i.as_slice()),
        (Some(w), None) => concat3(w.as_slice(), 58u8, na),
        (None, Some(i)) => concat3(na, 58u8, i.as_slice()),
        (None, None) => {
            let r = copy_range(na, 0, na.len());
            assert(na@.subrange(0, na@.len() as int) =~= na@);
            r
        },
    }
}

/// One entry of the instance history.
pub struct HistoryEntry {
    pub timestamp: Vec<u8>,
    /// A join (else a leave).
    pub joined: bool,
    pub world_id: Option<Vec<u8>>,
    pub instance_id: Option<Vec<u8>>,
    pub room_name: Option<Vec<u8>>,
}

/// What a history entry holds, as values.
pub struct EntryView {
    pub timestamp: Seq<u8>,
    pub joined: bool,
    pub world: Option<Seq<u8>>,
    pub instance: Option<Seq<u8>>,
    pub room: Option<Seq<u8>>,
}

impl HistoryEntry {
    pub open spec fn view(&self) -> EntryView {
        EntryView {
            timestamp: self.timestamp@,
            joined: self.joined,
            world: opt_view(self.world_id),
            instance: opt_view(self.instance_id),
            room: opt_view(self.room_name),
        }
    }

    pub fn copy(&self) -> (r: HistoryEntry)
        ensures
            r.view() == self.view(),
    {
        HistoryEntry {
            timestamp: dup(&self.timestamp),
            joined: self.joined,
            world_id: dup_opt(&self.world_id),
            instance_id: dup_opt(&self.instance_id),
            room_name: dup_opt(&self.room_name),
        }
    }
}

pub open spec fn entry_views(v: Seq<HistoryEntry>) -> Seq<EntryView> {
    v.map_values(|e: HistoryEntry| e.view())
}

/// `h` with `e` appended, keeping the newest `HISTORY_CAP` entries.
pub open spec fn pushed(h: Seq<EntryView>, e: EntryView) -> Seq<EntryView> {
    let n = h.push(e);
    if n.len() > HISTORY_CAP {
        n.subrange(n.len() - HISTORY_CAP, n.len() as int)
    } else {
        n
    }
}

/// `h` with the room name filled in on its last entry, where that is a join
/// that has none yet.
pub open spec fn room_filled(h: Seq<EntryView>, room: Seq<u8>) -> Seq<EntryView> {
    if h.len() > 0 && h.last().joined && h.last().room is None {
        h.update(h.len() - 1, EntryView { room: Some(room), ..h.last() })
    } else {
        h
    }
}

/// The instance history, oldest first, at most `HISTORY_CAP` entries.
pub struct History {
    entries: Vec<HistoryEntry>,
}

impl History {
    pub closed spec fn view(&self) -> Seq<EntryView> {
        entry_views(self.entries@)
    }

    pub fn new() -> (r: History)
        ensures
            r.view() == Seq::<EntryView>::empty(),
    {
        let r = History { entries: Vec::new() };
        assert(r.view() =~= Seq::<EntryView>::empty());
        r
    }

    pub fn len(&self) -> (r: usize)
        ensures
            r == self.view().len(),
    {
        self.entries.len()
    }

    pub fn entry(&self, i: usize) -> (r: HistoryEntry)
        requires
            i < self.view().len(),
        ensures
            r.view() == self.view()[i as int],
    {
        self.entries[i].copy()
    }

    /// Appends an entry, dropping the oldest beyond the cap.
    pub fn push(&mut self, e: HistoryEntry)
        ensures
            final(self).view() == pushed(old(self).view(), e.view()),
    {
        let ghost n = old(self).view().push(e.view());
        self.entries.push(e);
        assert(self.view() =~= n);
        if self.entries.len() > HISTORY_CAP {
            let drop = self.entries.len() - HISTORY_CAP;
            let mut kept: Vec<HistoryEntry> = Vec::new();
            let mut i = drop;
            while i < self.entries.len()
                invariant
                    drop <= i <= self.entries@.len(),
                    self.view() == n,
                    entry_views(kept@) == n.subrange(drop as int, i as int),
                decreases self.entries.len() - i,
            {
                let ghost before = kept@;
                kept.push(self.entries[i].copy());
                assert(entry_views(kept@) =~= entry_views(before).push(n[i as int]));
                assert(n.subrange(drop as int, i + 1) =~= n.subrange(drop as int, i as int).push(n[i as int]));
                i = i + 1;
            }
            self.entries = kept;
        }
    }

    /// Fills in the room name of the last entry where it is a join without one.
    pub fn fill_room(&mut self, room: &[u8])
        ensures
            final(self).view() == room_filled(old(self).view(), room@),
    {
        let n = self.entries.len();
        if n > 0 && self.entries[n - 1].joined && self.entries[n - 1].room_name.is_none() {
            let mut e = self.entries[n - 1].copy();
            e.room_name = Some(copy_range(room, 0, room.len()));
            assert(room@.subrange(0, room@.len() as int) =~= room@);
            self.entries.set(n - 1, e);
            assert(self.view() =~= room_filled(old(self).view(), room@));
        }
    }
}

} // verus!
