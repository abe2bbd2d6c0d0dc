//! The moderation log: bans and warnings seen in the log, one row per
//! event, with repeats of one event inside a few seconds folded into the
//! first.
use vstd::prelude::*;
use vstd::string::StringSliceAdditionalSpecFns;
use crate::bytes::{dup, same, copy_range};
use crate::order::{lex_lt, less};
use crate::stamp::{stamp_seconds, parse_stamp, DEDUP_SECONDS};

verus! {

/// A stored moderation event.
pub struct BanLogEntry {
    pub id: i64,
    pub admin: Vec<u8>,
    pub target: Vec<u8>,
    pub reason: Vec<u8>,
    pub timestamp: Vec<u8>,
    /// `ban` or `warn`.
    pub action_type: Vec<u8>,
    /// `<world_id>:<instance_id>` where the event was seen, or `N/A`.
    pub location: Vec<u8>,
}

/// What a moderation row holds, as values.
pub struct BanView {
    pub admin: Seq<u8>,
    pub target: Seq<u8>,
    pub reason: Seq<u8>,
    pub timestamp: Seq<u8>,
    pub action_type: Seq<u8>,
    pub location: Seq<u8>,
}

impl BanLogEntry {
    pub open spec fn view(&self) -> BanView {
        BanView {
            admin: self.admin@,
            target: self.target@,
            reason: self.reason@,
            timestamp: self.timestamp@,
            action_type: self.action_type@,
            location: self.location@,
        }
    }
}

/// Row `r` already stands for an event about `target` for `reason` at `ts`:
/// its time lies in the window that ends at `ts`, or, where `ts` is no
/// readable time, it carries the same text.
pub open spec fn covers(r: BanView, target: Seq<u8>, reason: Seq<u8>, ts: Seq<u8>) -> bool {
    r.target == target && r.reason == reason && match stamp_seconds(ts) {
        Some(t) => match stamp_seconds(r.timestamp) {
            Some(x) => t - DEDUP_SECONDS <= x <= t,
            None => false,
        },
        None => r.timestamp == ts,
    }
}

pub open spec fn is_duplicate(rows: Seq<BanView>, target: Seq<u8>, reason: Seq<u8>, ts: Seq<u8>) -> bool {
    exists|i: int| 0 <= i < rows.len() && covers(#[trigger] rows[i], target, reason, ts)
}

/// The log after an event `e` is offered to it.
pub open spec fn record(rows: Seq<BanView>, e: BanView) -> Seq<BanView> {
    if is_duplicate(rows, e.target, e.reason, e.timestamp) {
        rows
    } else {
        rows.push(e)
    }
}

/// The log after the events `es` are offered to it in order.
pub open spec fn record_all(rows: Seq<BanView>, es: Seq<BanView>) -> Seq<BanView>
    decreases es.len(),
{
    if es.len() == 0 {
        rows
    } else {
        record(record_all(rows, es.drop_last()), es.last())
    }
}

pub open spec fn ban_views(v: Seq<BanLogEntry>) -> Seq<BanView> {
    v.map_values(|e: BanLogEntry| e.view())
}

/// The stored moderation events, oldest first.
pub struct ModerationLog {
    rows: Vec<BanLogEntry>,
}

impl ModerationLog {
    pub closed spec fn rows(&self) -> Seq<BanView> {
        ban_views(self.rows@)
    }

    pub fn new() -> (r: ModerationLog)
        ensures
            r.rows() == Seq::<BanView>::empty(),
    {
        let r = ModerationLog { rows: Vec::new() };
        assert(r.rows() =~= Seq::<BanView>::empty());
        r
    }

    pub fn len(&self) -> (r: usize)
        ensures
            r == self.rows().len(),
    {
        self.rows.len()
    }

    /// A copy of the row at `i`.
    pub fn entry(&self, i: usize) -> (r: BanLogEntry)
        requires
            i < self.rows().len(),
        ensures
            r.view() == self.rows()[i as int],
    {
        let n = self.rows.len();
        let e = &self.rows[i];
        assert(self.rows()[i as int] == e.view());
        BanLogEntry {
            id: (i + 1) as i64,
            admin: dup(&e.admin),
            target: dup(&e.target),
            reason: dup(&e.reason),
            timestamp: dup(&e.timestamp),
            action_type: dup(&e.action_type),
            location: dup(&e.location),
        }
    }

    /// The stored row that stands for this event with the earliest time,
    /// where one does.
    pub fn find_cover(&self, target: &[u8], reason: &[u8], ts: &[u8]) -> (r: Option<usize>)
        ensures
            match r {
                Some(i) => earliest_cover(self.rows(), target@, reason@, ts@, self.rows().len() as int) == Some(i as int),
                None => earliest_cover(self.rows(), target@, reason@, ts@, self.rows().len() as int) is None,
            },
            r is None <==> !is_duplicate(self.rows(), target@, reason@, ts@),
            r matches Some(i) ==> i < self.rows().len(),
    {
        let t = parse_stamp(ts);
        let mut best: Option<usize> = None;
        let mut i: usize = 0;
        while i < self.rows.len()
            invariant
                i <= self.rows@.len(),
                crate::stamp::opt_i64(t) == stamp_seconds(ts@),
                match best {
                    Some(b) => b < i && earliest_cover(self.rows(), target@, reason@, ts@, i as int) == Some(b as int),
                    None => earliest_cover(self.rows(), target@, reason@, ts@, i as int) is None,
                },
            decreases self.rows.len() - i,
        {
            let e = &self.rows[i];
            assert(self.rows()[i as int] == e.view());
            if same(e.target.as_slice(), target) && same(e.reason.as_slice(), reason) {
                let hit = match t {
                    Some(tv) => match parse_stamp(e.timestamp.as_slice()) {
                        Some(x) => tv as i128 - DEDUP_SECONDS as i128 <= x as i128 && x <= tv,
                        None => false,
                    },
                    None => same(e.timestamp.as_slice(), ts),
                };
                if hit {
                    match best {
                        None => {
                            best = Some(i);
                        },
                        Some(b) => {
                            assert(self.rows()[b as int] == self.rows@[b as int].view());
                            if less(e.timestamp.as_slice(), self.rows[b].timestamp.as_slice()) {
                                best = Some(i);
                            }
                        },
                    }
                }
            }
            i = i + 1;
        }
        proof {
            lemma_earliest_cover(self.rows(), target@, reason@, ts@, self.rows().len() as int);
        }
        best
    }

    /// Offers an event to the log: it is stored, with `N/A` for an empty
    /// location, unless a stored row already stands for it. Returns whether
    /// it was stored and the id of the row that stands for it: the new row,
    /// or the stored one with the earliest time.
    pub fn add(
        &mut self,
        admin: &[u8],
        target: &[u8],
        reason: &[u8],
        ts: &[u8],
        banned: bool,
        location: &[u8],
    ) -> (r: (bool, i64))
        requires
            old(self).rows().len() < 0x7fff_ffff_ffff_ffff,
        ensures
            r.0 == !is_duplicate(old(self).rows(), target@, reason@, ts@),
            final(self).rows() == record(
                old(self).rows(),
                BanView {
                    admin: admin@,
                    target: target@,
                    reason: reason@,
                    timestamp: ts@,
                    action_type: action_of(banned),
                    location: stored_location(location@),
                },
            ),
            r.0 ==> r.1 == old(self).rows().len() + 1,
            !r.0 ==> earliest_cover(old(self).rows(), target@, reason@, ts@, old(self).rows().len() as int)
                == Some(r.1 - 1),
    {
        assert(self.rows@.len() == self.rows().len());
        if let Some(i) = self.find_cover(target, reason, ts) {
            return (false, i as i64 + 1);
        }
        let action = if banned {
            "ban".as_bytes()
        } else {
            "warn".as_bytes()
        };
        let place = if location.len() == 0 {
            "N/A".as_bytes()
        } else {
            location
        };
        let e = BanLogEntry {
            id: self.rows.len() as i64 + 1,
            admin: copy_range(admin, 0, admin.len()),
            target: copy_range(target, 0, target.len()),
            reason: copy_range(reason, 0, reason.len()),
            timestamp: copy_range(ts, 0, ts.len()),
            action_type: copy_range(action, 0, action.len()),
            location: copy_range(place, 0, place.len()),
        };
        assert(admin@.subrange(0, admin@.len() as int) =~= admin@);
        assert(target@.subrange(0, target@.len() as int) =~= target@);
        assert(reason@.subrange(0, reason@.len() as int) =~= reason@);
        assert(ts@.subrange(0, ts@.len() as int) =~= ts@);
        assert(action@.subrange(0, action@.len() as int) =~= action@);
        assert(place@.subrange(0, place@.len() as int) =~= place@);
        let id = e.id;
        self.rows.push(e);
        assert(self.rows() =~= old(self).rows().push(e.view()));
        (true, id)
    }
}

/// The location a row stores: `N/A` where none is known.
pub open spec fn stored_location(l: Seq<u8>) -> Seq<u8> {
    if l.len() == 0 {
        "N/A".spec_bytes()
    } else {
        l
    }
}

/// The row among `rows[0..n]` that stands for the event with the earliest
/// time; of rows with the same time, the first.
pub open spec fn earliest_cover(rows: Seq<BanView>, target: Seq<u8>, reason: Seq<u8>, ts: Seq<u8>, n: int) -> Option<int>
    decreases n,
{
    if n <= 0 {
        None
    } else {
        let b = earliest_cover(rows, target, reason, ts, n - 1);
        if covers(rows[n - 1], target, reason, ts) {
            match b {
                None => Some(n - 1),
                Some(x) => if lex_lt(rows[n - 1].timestamp, rows[x].timestamp) {
                    Some(n - 1)
                } else {
                    Some(x)
                },
            }
        } else {
            b
        }
    }
}

proof fn lemma_earliest_cover(rows: Seq<BanView>, target: Seq<u8>, reason: Seq<u8>, ts: Seq<u8>, n: int)
    requires
        0 <= n <= rows.len(),
    ensures
        earliest_cover(rows, target, reason, ts, n) is None <==> forall|i: int| 0 <= i < n ==> !covers(#[trigger] rows[i], target, reason, ts),
        earliest_cover(rows, target, reason, ts, n) matches Some(x) ==> 0 <= x < n,
    decreases n,
{
    if n > 0 {
        lemma_earliest_cover(rows, target, reason, ts, n - 1);
    }
}

/// The stored action for a ban (else a warning).
pub open spec fn action_of(banned: bool) -> Seq<u8> {
    if banned {
        "ban".spec_bytes()
    } else {
        "warn".spec_bytes()
    }
}

/// Repeats of one event fold into the first: offering, in order, events
/// about one target for one reason whose times all lie within the dedup
/// window that starts at the first one's time, to a log that holds nothing
/// standing for the first, stores exactly one row, the first event.
pub proof fn lemma_repeats_fold(rows: Seq<BanView>, es: Seq<BanView>)
    requires
        es.len() > 0,
        !is_duplicate(rows, es[0].target, es[0].reason, es[0].timestamp),
        stamp_seconds(es[0].timestamp) is Some,
        forall|i: int|
            0 <= i < es.len() ==> (#[trigger] es[i]).target == es[0].target && es[i].reason
                == es[0].reason && stamp_seconds(es[i].timestamp) is Some && stamp_seconds(
                es[0].timestamp,
            )->0 <= stamp_seconds(es[i].timestamp)->0 <= stamp_seconds(es[0].timestamp)->0
                + DEDUP_SECONDS,
    ensures
        record_all(rows, es) == rows.push(es[0]),
    decreases es.len(),
{
    if es.len() == 1 {
        assert(es.drop_last() =~= Seq::<BanView>::empty());
        assert(record_all(rows, es.drop_last()) == rows);
    } else {
        let init = es.drop_last();
        assert(init[0] == es[0]);
        assert forall|i: int| 0 <= i < init.len() implies (#[trigger] init[i]).target == init[0].target
            && init[i].reason == init[0].reason && stamp_seconds(init[i].timestamp) is Some
            && stamp_seconds(init[0].timestamp)->0 <= stamp_seconds(init[i].timestamp)->0
            <= stamp_seconds(init[0].timestamp)->0 + DEDUP_SECONDS by {
            assert(init[i] == es[i]);
        }
        lemma_repeats_fold(rows, init);
        let grown = rows.push(es[0]);
        let last = es.last();
        assert(es[es.len() - 1] == last);
        assert(covers(grown[rows.len() as int], last.target, last.reason, last.timestamp));
        assert(is_duplicate(grown, last.target, last.reason, last.timestamp));
    }
}

/// The times of `rows`.
pub open spec fn stamp_keys(rows: Seq<BanView>) -> Seq<Seq<u8>> {
    rows.map_values(|b: BanView| b.timestamp)
}

/// Every stored moderation event, by time, newest first (of events with the
/// same time, the one stored last first).
pub fn get_all_ban_logs(log: &ModerationLog) -> (r: Vec<BanLogEntry>)
    ensures
        r@.len() == log.rows().len(),
        forall|k: int|
            0 <= k < r@.len() ==> (#[trigger] r@[k]).view() == log.rows()[crate::sort::sort_order(
                stamp_keys(log.rows()),
                log.rows().len() as int,
            )[log.rows().len() - 1 - k]],
        forall|a: int, b: int| 0 <= a < b < r@.len() ==> !lex_lt(r@[a].timestamp@, r@[b].timestamp@),
{
    let n = log.len();
    let ghost rows = log.rows();
    let mut keys: Vec<Vec<u8>> = Vec::new();
    let mut i: usize = 0;
    while i < n
        invariant
            n == rows.len(),
            rows == log.rows(),
            i <= n,
            crate::assembler::views(keys@) == stamp_keys(rows).subrange(0, i as int),
        decreases n - i,
    {
        let e = log.entry(i);
        let ghost before = keys@;
        keys.push(e.timestamp);
        assert(crate::assembler::views(keys@) =~= crate::assembler::views(before).push(rows[i as int].timestamp));
        assert(stamp_keys(rows).subrange(0, i + 1) =~= stamp_keys(rows).subrange(0, i as int).push(rows[i as int].timestamp));
        i = i + 1;
    }
    assert(crate::assembler::views(keys@) =~= stamp_keys(rows));
    let order = crate::sort::sort_indices(&keys);
    let ghost o = crate::sort::as_ints(order@);
    let mut out: Vec<BanLogEntry> = Vec::new();
    let mut k: usize = 0;
    while k < n
        invariant
            n == rows.len(),
            rows == log.rows(),
            k <= n,
            o == crate::sort::as_ints(order@),
            crate::sort::permutes(o, n as int),
            crate::sort::ascending(o, stamp_keys(rows)),
            out@.len() == k,
            forall|q: int| 0 <= q < k ==> (#[trigger] out@[q]).view() == rows[o[n - 1 - q]],
        decreases n - k,
    {
        let j = n - 1 - k;
        assert(o[j as int] == order@[j as int] as int);
        assert(0 <= o[j as int] < n);
        out.push(log.entry(order[j]));
        k = k + 1;
    }
    proof {
        assert forall|a: int, b: int| 0 <= a < b < out@.len() implies !lex_lt(
            out@[a].timestamp@,
            out@[b].timestamp@,
        ) by {
            assert(stamp_keys(rows)[o[n - 1 - a]] == rows[o[n - 1 - a]].timestamp);
            assert(stamp_keys(rows)[o[n - 1 - b]] == rows[o[n - 1 - b]].timestamp);
            assert(0 <= o[n - 1 - a] < n);
            assert(0 <= o[n - 1 - b] < n);
        }
    }
    out
}

} // verus!
