//! The instance state machine: applies each log line to the join log, the
//! moderation log, the avatar log, the live location and the instance
//! history, and says what to announce and what to look up.
use vstd::prelude::*;
use crate::bytes::{copy_range, dup, same};
use crate::grammar::{
    InstanceLine, ModerationLine, is_session_end, instance_of, room_of, moderation_of, switch_of,
    joined_of, left_of, destroying_of, timestamp_of, kw_on_left_room, session_end, parse_instance,
    parse_room, left_room, parse_moderation, parse_switch, parse_joined, parse_left,
    parse_destroying, extract_timestamp,
};
use crate::bytes::opt_view;
use crate::api::{ApiMarker, Lookup, LookupView, api_of, parse_api_marker, lookups_for, lookups_of, lookup_views, opt_int};
use crate::bytes::contains_seq;
use crate::assembler::views;
use crate::store::{JoinLog, RowView, SystemRow, purged, joined_rows, closed_latest};
use crate::modlog::{ModerationLog, BanView, record, action_of, is_duplicate};
use crate::location::{
    Location, History, HistoryEntry, EntryView, dup_opt, pushed, room_filled, mod_location,
    get_current_location_for_mod_log,
};
use crate::stamp::{stamp_seconds, parse_stamp, guarded, in_guard};

verus! {

/// What a log line is, as values, by the first rule that it meets.
pub enum LineKind {
    SessionEnd,
    Instance(Seq<u8>, Seq<u8>, Option<Seq<u8>>),
    Room(Seq<u8>),
    LeftRoom,
    Moderation(Seq<u8>, Seq<u8>, Seq<u8>, bool),
    Switch(Seq<u8>, Seq<u8>),
    Api(Option<int>, Seq<u8>),
    Joined(Seq<u8>, Seq<u8>),
    Left(Seq<u8>, Seq<u8>),
    Destroying(Seq<u8>),
    Other,
}

/// The rules in the order they are tried: session end, instance join, room
/// name, leaving the room, moderation, avatar switch, API marker, player
/// join, player leave, and the leave fallback by name.
pub open spec fn kind_of(s: Seq<u8>) -> LineKind {
    if is_session_end(s) {
        LineKind::SessionEnd
    } else if let Some(v) = instance_of(s) {
        LineKind::Instance(v.0, v.1, v.2)
    } else if let Some(n) = room_of(s) {
        LineKind::Room(n)
    } else if contains_seq(s, kw_on_left_room()) {
        LineKind::LeftRoom
    } else if let Some(m) = moderation_of(s) {
        LineKind::Moderation(m.0, m.1, m.2, m.3)
    } else if let Some(w) = switch_of(s) {
        LineKind::Switch(w.0, w.1)
    } else if let Some(a) = api_of(s) {
        LineKind::Api(a.0, a.1)
    } else if let Some(j) = joined_of(s) {
        LineKind::Joined(j.0, j.1)
    } else if let Some(l) = left_of(s) {
        LineKind::Left(l.0, l.1)
    } else if let Some(d) = destroying_of(s) {
        LineKind::Destroying(d)
    } else {
        LineKind::Other
    }
}

/// A log line, classified.
pub enum Line {
    SessionEnd,
    Instance(InstanceLine),
    Room(Vec<u8>),
    LeftRoom,
    Moderation(ModerationLine),
    /// Owner and avatar name.
    Switch(Vec<u8>, Vec<u8>),
    Api(ApiMarker),
    /// Name and user id.
    Joined(Vec<u8>, Vec<u8>),
    /// Name and user id.
    Left(Vec<u8>, Vec<u8>),
    /// Name.
    Destroying(Vec<u8>),
    Other,
}

impl Line {
    pub open spec fn view(&self) -> LineKind {
        match self {
            Line::SessionEnd => LineKind::SessionEnd,
            Line::Instance(v) => LineKind::Instance(v.world_id@, v.instance_id@, opt_view(v.region)),
            Line::Room(n) => LineKind::Room(n@),
            Line::LeftRoom => LineKind::LeftRoom,
            Line::Moderation(m) => LineKind::Moderation(m.admin@, m.target@, m.reason@, m.banned),
            Line::Switch(o, n) => LineKind::Switch(o@, n@),
            Line::Api(a) => LineKind::Api(opt_int(a.call_id), a.url@),
            Line::Joined(n, u) => LineKind::Joined(n@, u@),
            Line::Left(n, u) => LineKind::Left(n@, u@),
            Line::Destroying(n) => LineKind::Destroying(n@),
            Line::Other => LineKind::Other,
        }
    }
}

/// Which rule a line meets first, and what it carries.
pub fn classify(line: &[u8]) -> (r: Line)
    ensures
        r.view() == kind_of(line@),
{
    if session_end(line) {
        return Line::SessionEnd;
    }
    if let Some(v) = parse_instance(line) {
        return Line::Instance(v);
    }
    if let Some(n) = parse_room(line) {
        return Line::Room(n);
    }
    if left_room(line) {
        return Line::LeftRoom;
    }
    if let Some(m) = parse_moderation(line) {
        return Line::Moderation(m);
    }
    if let Some(w) = parse_switch(line) {
        return Line::Switch(w.0, w.1);
    }
    if let Some(a) = parse_api_marker(line) {
        return Line::Api(a);
    }
    if let Some(j) = parse_joined(line) {
        return Line::Joined(j.0, j.1);
    }
    if let Some(l) = parse_left(line) {
        return Line::Left(l.0, l.1);
    }
    if let Some(d) = parse_destroying(line) {
        return Line::Destroying(d);
    }
    Line::Other
}

/// The time a line happened: its own timestamp, or else the clock's `now`.
pub open spec fn stamp_or(line: Seq<u8>, now: Seq<u8>) -> Seq<u8> {
    match timestamp_of(line) {
        Some(t) => t,
        None => now,
    }
}

/// A row of the avatar log.
pub struct AvatarLogRow {
    pub timestamp: Vec<u8>,
    pub username: Vec<u8>,
    pub avatar_name: Vec<u8>,
}

pub open spec fn avatar_views(v: Seq<AvatarLogRow>) -> Seq<(Seq<u8>, Seq<u8>, Seq<u8>)> {
    v.map_values(|a: AvatarLogRow| (a.timestamp@, a.username@, a.avatar_name@))
}

/// What the state machine announces for a line.
pub enum Event {
    /// Every open row was closed at `at`.
    Purged { at: Vec<u8> },
    /// The user moved to another instance at `at`.
    InstanceChanged { at: Vec<u8>, world_id: Vec<u8>, instance_id: Vec<u8>, region: Option<Vec<u8>> },
    /// The room of the live location got a name.
    LocationUpdated { room_name: Vec<u8> },
    /// The user left the room at `at`; the live location is unknown.
    LocationCleared { at: Vec<u8> },
    /// A moderation event was stored.
    Ban { admin: Vec<u8>, target: Vec<u8>, reason: Vec<u8>, at: Vec<u8>, banned: bool, location: Vec<u8> },
    /// An avatar switch was logged.
    AvatarLogged { at: Vec<u8>, owner: Vec<u8>, avatar: Vec<u8> },
    /// A player row was inserted.
    RowInserted { at: Vec<u8>, user_id: Vec<u8>, username: Vec<u8> },
    /// A player row was closed: the latest open row of `key`, a user id, or
    /// a user name where `by_name`.
    RowUpdated { at: Vec<u8>, key: Vec<u8>, by_name: bool },
}

/// What an event says, as values.
pub enum EventView {
    Purged(Seq<u8>),
    InstanceChanged(Seq<u8>, Seq<u8>, Seq<u8>, Option<Seq<u8>>),
    LocationUpdated(Seq<u8>),
    LocationCleared(Seq<u8>),
    Ban(Seq<u8>, Seq<u8>, Seq<u8>, Seq<u8>, bool, Seq<u8>),
    AvatarLogged(Seq<u8>, Seq<u8>, Seq<u8>),
    RowInserted(Seq<u8>, Seq<u8>, Seq<u8>),
    RowUpdated(Seq<u8>, Seq<u8>, bool),
}

impl Event {
    pub open spec fn view(&self) -> EventView {
        match self {
            Event::Purged { at } => EventView::Purged(at@),
            Event::InstanceChanged { at, world_id, instance_id, region } => EventView::InstanceChanged(
                at@,
                world_id@,
                instance_id@,
                opt_view(*region),
            ),
            Event::LocationUpdated { room_name } => EventView::LocationUpdated(room_name@),
            Event::LocationCleared { at } => EventView::LocationCleared(at@),
            Event::Ban { admin, target, reason, at, banned, location } => EventView::Ban(
                admin@,
                target@,
                reason@,
                at@,
                *banned,
                location@,
            ),
            Event::AvatarLogged { at, owner, avatar } => EventView::AvatarLogged(at@, owner@, avatar@),
            Event::RowInserted { at, user_id, username } => EventView::RowInserted(at@, user_id@, username@),
            Event::RowUpdated { at, key, by_name } => EventView::RowUpdated(at@, key@, *by_name),
        }
    }
}

pub open spec fn event_view(e: Option<Event>) -> Option<EventView> {
    match e {
        Some(x) => Some(x.view()),
        None => None,
    }
}

/// The outcome of one line: what to announce, and what to look up.
pub struct Step {
    pub event: Option<Event>,
    pub jobs: Vec<Lookup>,
}

/// The state of the state machine, as values.
pub struct EngineView {
    pub rows: Seq<RowView>,
    pub system_rows: Seq<(Seq<u8>, Seq<u8>, Seq<u8>, Option<Seq<u8>>)>,
    pub bans: Seq<BanView>,
    pub avatars: Seq<(Seq<u8>, Seq<u8>, Seq<u8>)>,
    pub last_join: Option<Seq<u8>>,
    pub location: (Option<Seq<u8>>, Option<Seq<u8>>, Option<Seq<u8>>),
    pub history: Seq<EntryView>,
    pub last_call: Option<(int, Seq<u8>)>,
}

/// A moderation line at `ts` is dropped as carry-over from the instance
/// joined at `last_join`.
pub open spec fn mod_guarded(last_join: Option<Seq<u8>>, ts: Seq<u8>) -> bool {
    match last_join {
        Some(j) => stamp_seconds(j) is Some && stamp_seconds(ts) is Some && in_guard(
            stamp_seconds(j)->0,
            stamp_seconds(ts)->0,
        ),
        None => false,
    }
}

/// An API marker is the one seen just before: same call id, same URL.
pub open spec fn repeated_call(last: Option<(int, Seq<u8>)>, id: Option<int>, url: Seq<u8>) -> bool {
    id is Some && last == Some((id->0, url))
}

/// The state after a line at `ts`.
pub open spec fn next_state(s: EngineView, kind: LineKind, ts: Seq<u8>) -> EngineView {
    match kind {
        LineKind::SessionEnd => EngineView { rows: purged(s.rows, ts), last_call: None, ..s },
        LineKind::Instance(w, i, r) => EngineView {
            rows: purged(s.rows, ts),
            system_rows: s.system_rows.push((ts, w, i, r)),
            last_join: Some(ts),
            location: (Some(w), Some(i), s.location.2),
            history: pushed(
                s.history,
                EntryView { timestamp: ts, joined: true, world: Some(w), instance: Some(i), room: None },
            ),
            last_call: None,
            ..s
        },
        LineKind::Room(n) => EngineView {
            location: (s.location.0, s.location.1, Some(n)),
            history: room_filled(s.history, n),
            ..s
        },
        LineKind::LeftRoom => EngineView {
            location: (None, None, None),
            history: pushed(
                s.history,
                EntryView { timestamp: ts, joined: false, world: None, instance: None, room: None },
            ),
            ..s
        },
        LineKind::Moderation(a, t, r, b) => if mod_guarded(s.last_join, ts) {
            s
        } else {
            EngineView {
                bans: record(
                    s.bans,
                    BanView {
                        admin: a,
                        target: t,
                        reason: r,
                        timestamp: ts,
                        action_type: action_of(b),
                        location: crate::modlog::stored_location(mod_location(s.location.0, s.location.1)),
                    },
                ),
                ..s
            }
        },
        LineKind::Switch(o, n) => if o.len() > 0 && n.len() > 0 {
            EngineView { avatars: s.avatars.push((ts, o, n)), ..s }
        } else {
            s
        },
        LineKind::Api(id, url) => if id is Some && !repeated_call(s.last_call, id, url) {
            EngineView { last_call: Some((id->0, url)), ..s }
        } else {
            s
        },
        LineKind::Joined(n, u) => EngineView { rows: joined_rows(s.rows, u, n, ts), ..s },
        LineKind::Left(_n, u) => EngineView { rows: closed_latest(s.rows, u, false, ts), ..s },
        LineKind::Destroying(n) => EngineView { rows: closed_latest(s.rows, n, true, ts), ..s },
        LineKind::Other => s,
    }
}

/// What is announced for a line at `ts`.
pub open spec fn event_for(s: EngineView, kind: LineKind, ts: Seq<u8>) -> Option<EventView> {
    match kind {
        LineKind::SessionEnd => Some(EventView::Purged(ts)),
        LineKind::Instance(w, i, r) => Some(EventView::InstanceChanged(ts, w, i, r)),
        LineKind::Room(n) => Some(EventView::LocationUpdated(n)),
        LineKind::LeftRoom => Some(EventView::LocationCleared(ts)),
        LineKind::Moderation(a, t, r, b) => if !mod_guarded(s.last_join, ts) && !is_duplicate(
            s.bans,
            t,
            r,
            ts,
        ) {
            Some(EventView::Ban(a, t, r, ts, b, mod_location(s.location.0, s.location.1)))
        } else {
            None
        },
        LineKind::Switch(o, n) => if o.len() > 0 && n.len() > 0 {
            Some(EventView::AvatarLogged(ts, o, n))
        } else {
            None
        },
        LineKind::Api(_id, _url) => None,
        LineKind::Joined(n, u) => if !crate::store::has_key(s.rows, u, ts) {
            Some(EventView::RowInserted(ts, u, n))
        } else {
            None
        },
        LineKind::Left(_n, u) => if crate::store::latest_index(s.rows, u, false) is Some {
            Some(EventView::RowUpdated(ts, u, false))
        } else {
            None
        },
        LineKind::Destroying(n) => if crate::store::latest_index(s.rows, n, true) is Some {
            Some(EventView::RowUpdated(ts, n, true))
        } else {
            None
        },
        LineKind::Other => None,
    }
}

/// What is looked up for a line.
pub open spec fn jobs_for(s: EngineView, kind: LineKind) -> Seq<LookupView> {
    match kind {
        LineKind::Api(id, url) => if repeated_call(s.last_call, id, url) {
            Seq::empty()
        } else {
            lookups_of(url)
        },
        _ => Seq::empty(),
    }
}

/// The state machine.
pub struct Engine {
    log: JoinLog,
    moderation: ModerationLog,
    avatars: Vec<AvatarLogRow>,
    last_join: Option<Vec<u8>>,
    location: Location,
    history: History,
    last_call: Option<(u32, Vec<u8>)>,
}

impl Engine {
    pub closed spec fn view(&self) -> EngineView {
        EngineView {
            rows: self.log.rows(),
            system_rows: self.log.system_rows(),
            bans: self.moderation.rows(),
            avatars: avatar_views(self.avatars@),
            last_join: opt_view(self.last_join),
            location: crate::location::location_view(self.location),
            history: self.history.view(),
            last_call: match self.last_call {
                Some(c) => Some((c.0 as int, c.1@)),
                None => None,
            },
        }
    }

    /// A state machine with nothing recorded.
    pub fn new() -> (r: Engine)
        ensures
            r.view().rows == Seq::<RowView>::empty(),
            r.view().system_rows.len() == 0,
            r.view().bans == Seq::<BanView>::empty(),
            r.view().avatars.len() == 0,
            r.view().last_join is None,
            r.view().location == (None::<Seq<u8>>, None::<Seq<u8>>, None::<Seq<u8>>),
            r.view().history == Seq::<EntryView>::empty(),
            r.view().last_call is None,
    {
        let r = Engine {
            log: JoinLog::new(),
            moderation: ModerationLog::new(),
            avatars: Vec::new(),
            last_join: None,
            location: Location { world_id: None, instance_id: None, room_name: None },
            history: History::new(),
            last_call: None,
        };
        assert(r.view().avatars =~= Seq::empty());
        r
    }

    /// The join log.
    pub fn join_log(&self) -> (r: &JoinLog)
        ensures
            r.rows() == self.view().rows,
            r.system_rows() == self.view().system_rows,
    {
        &self.log
    }

    /// The moderation log.
    pub fn moderation_log(&self) -> (r: &ModerationLog)
        ensures
            r.rows() == self.view().bans,
    {
        &self.moderation
    }

    /// The instance history.
    pub fn history(&self) -> (r: &History)
        ensures
            r.view() == self.view().history,
    {
        &self.history
    }

    /// The live location.
    pub fn location(&self) -> (r: &Location)
        ensures
            crate::location::location_view(*r) == self.view().location,
    {
        &self.location
    }

    /// The time of the last instance join, where one was seen.
    pub fn last_instance_join_ts(&self) -> (r: Option<Vec<u8>>)
        ensures
            opt_view(r) == self.view().last_join,
    {
        dup_opt(&self.last_join)
    }

    /// Sets the time of the last instance join (kept across restarts).
    pub fn set_last_instance_join_ts(&mut self, ts: &[u8])
        ensures
            final(self).view() == (EngineView { last_join: Some(ts@), ..old(self).view() }),
    {
        self.last_join = Some(copy_range(ts, 0, ts.len()));
        assert(ts@.subrange(0, ts@.len() as int) =~= ts@);
    }

    /// How many avatar switches were logged.
    pub fn avatar_count(&self) -> (r: usize)
        ensures
            r == self.view().avatars.len(),
    {
        self.avatars.len()
    }

    /// The open player rows that joined in the current instance window (all
    /// of them where no instance join was seen), in ascending order of join
    /// time.
    pub fn get_active_join_logs(&self) -> (r: Vec<crate::store::JoinRow>)
        ensures
            crate::store::row_views(r@) == crate::store::by_join_time(
                crate::store::active_since(self.view().rows, self.view().last_join),
            ),
            forall|a: int, b: int|
                0 <= a < b < r@.len() ==> !crate::order::lex_lt(r@[b].joined_at@, r@[a].joined_at@),
    {
        match &self.last_join {
            Some(t) => self.log.active_by_time(Some(t.as_slice())),
            None => self.log.active_by_time(None),
        }
    }

    /// Closes, at the time of the last instance join (or at `now` where none
    /// was seen), every open row whose user has a later open row.
    pub fn dedupe_open_joins(&mut self, now: &[u8]) -> (r: usize)
        ensures
            final(self).view().rows.len() == old(self).view().rows.len(),
            forall|k: int|
                0 <= k < old(self).view().rows.len() ==> #[trigger] final(self).view().rows[k]
                    == if crate::store::superseded(old(self).view().rows, k) {
                    crate::store::closed_at(
                        old(self).view().rows[k],
                        match old(self).view().last_join {
                            Some(t) => t,
                            None => now@,
                        },
                    )
                } else {
                    old(self).view().rows[k]
                },
            r == crate::store::count_superseded(old(self).view().rows, old(self).view().rows.len() as int),
            final(self).view() == (EngineView { rows: final(self).view().rows, ..old(self).view() }),
    {
        let at = match &self.last_join {
            Some(t) => dup(t),
            None => copy_range(now, 0, now.len()),
        };
        assert(now@.subrange(0, now@.len() as int) =~= now@);
        self.log.dedupe(at.as_slice())
    }

    /// Marks the current instance window's rows of these users as named by a
    /// group watchlist; returns how many rows that is.
    pub fn set_group_watchlisted_for_users(&mut self, users: &Vec<Vec<u8>>) -> (r: usize)
        ensures
            final(self).view().rows.len() == old(self).view().rows.len(),
            forall|k: int|
                0 <= k < old(self).view().rows.len() ==> #[trigger] final(self).view().rows[k] == if crate::store::watch_target(
                    old(self).view().rows[k],
                    users@.map_values(|u: Vec<u8>| u@),
                    old(self).view().last_join,
                ) {
                    RowView { flagged: true, ..old(self).view().rows[k] }
                } else {
                    old(self).view().rows[k]
                },
            r == crate::store::count_targets(
                old(self).view().rows,
                users@.map_values(|u: Vec<u8>| u@),
                old(self).view().last_join,
                old(self).view().rows.len() as int,
            ),
            final(self).view() == (EngineView { rows: final(self).view().rows, ..old(self).view() }),
    {
        match &self.last_join {
            Some(t) => self.log.set_group_watchlisted_for_users(users, Some(t.as_slice())),
            None => self.log.set_group_watchlisted_for_users(users, None),
        }
    }

    /// Empties the join log, player and system rows alike.
    pub fn purge_join_log_table(&mut self)
        ensures
            final(self).view() == (EngineView {
                rows: Seq::empty(),
                system_rows: Seq::empty(),
                ..old(self).view()
            }),
    {
        self.log.clear();
        assert(self.log.system_rows() =~= Seq::empty());
    }

    /// Closes every open row at `ts` (the log file was replaced).
    pub fn purge_all(&mut self, ts: &[u8]) -> (r: usize)
        ensures
            final(self).view() == (EngineView { rows: purged(old(self).view().rows, ts@), ..old(self).view() }),
    {
        self.log.purge(ts)
    }

    fn on_instance(&mut self, v: InstanceLine, ts: Vec<u8>) -> (e: Event)
        ensures
            final(self).view() == next_state(
                old(self).view(),
                LineKind::Instance(v.world_id@, v.instance_id@, opt_view(v.region)),
                ts@,
            ),
            e.view() == EventView::InstanceChanged(ts@, v.world_id@, v.instance_id@, opt_view(v.region)),
    {
        self.log.purge(ts.as_slice());
        self.log.insert_system(
            SystemRow {
                at: dup(&ts),
                world_id: dup(&v.world_id),
                instance_id: dup(&v.instance_id),
                region: dup_opt(&v.region),
            },
        );
        self.last_join = Some(dup(&ts));
        self.location.world_id = Some(dup(&v.world_id));
        self.location.instance_id = Some(dup(&v.instance_id));
        self.history.push(
            HistoryEntry {
                timestamp: dup(&ts),
                joined: true,
                world_id: Some(dup(&v.world_id)),
                instance_id: Some(dup(&v.instance_id)),
                room_name: None,
            },
        );
        self.last_call = None;
        Event::InstanceChanged { at: ts, world_id: v.world_id, instance_id: v.instance_id, region: v.region }
    }

    fn on_moderation(&mut self, m: ModerationLine, ts: Vec<u8>) -> (e: Option<Event>)
        requires
            old(self).view().bans.len() < 0x7fff_ffff_ffff_ffff,
        ensures
            final(self).view() == next_state(
                old(self).view(),
                LineKind::Moderation(m.admin@, m.target@, m.reason@, m.banned),
                ts@,
            ),
            event_view(e) == event_for(
                old(self).view(),
                LineKind::Moderation(m.admin@, m.target@, m.reason@, m.banned),
                ts@,
            ),
    {
        let join = match &self.last_join {
            Some(j) => parse_stamp(j.as_slice()),
            None => None,
        };
        let at = parse_stamp(ts.as_slice());
        if guarded(join, at) {
            return None;
        }
        let loc = get_current_location_for_mod_log(&self.location);
        let (stored, _id) = self.moderation.add(
            m.admin.as_slice(),
            m.target.as_slice(),
            m.reason.as_slice(),
            ts.as_slice(),
            m.banned,
            loc.as_slice(),
        );
        if stored {
            Some(
                Event::Ban {
                    admin: m.admin,
                    target: m.target,
                    reason: m.reason,
                    at: ts,
                    banned: m.banned,
                    location: loc,
                },
            )
        } else {
            None
        }
    }

    fn on_api(&mut self, a: ApiMarker) -> (jobs: Vec<Lookup>)
        ensures
            final(self).view() == next_state(old(self).view(), LineKind::Api(opt_int(a.call_id), a.url@), Seq::empty()),
            lookup_views(jobs@) == jobs_for(old(self).view(), LineKind::Api(opt_int(a.call_id), a.url@)),
    {
        let repeated = match (&self.last_call, a.call_id) {
            (Some(last), Some(id)) => last.0 == id && same(last.1.as_slice(), a.url.as_slice()),
            _ => false,
        };
        if repeated {
            let none: Vec<Lookup> = Vec::new();
            assert(lookup_views(none@) =~= Seq::empty());
            return none;
        }
        let jobs = lookups_for(a.url.as_slice());
        match a.call_id {
            Some(id) => {
                self.last_call = Some((id, a.url));
            },
            None => {},
        }
        jobs
    }

    fn on_session_end(&mut self, ts: Vec<u8>) -> (e: Event)
        ensures
            final(self).view() == next_state(old(self).view(), LineKind::SessionEnd, ts@),
            e.view() == EventView::Purged(ts@),
    {
        self.log.purge(ts.as_slice());
        self.last_call = None;
        Event::Purged { at: ts }
    }

    fn on_room(&mut self, n: Vec<u8>) -> (e: Event)
        ensures
            forall|ts: Seq<u8>| final(self).view() == #[trigger] next_state(old(self).view(), LineKind::Room(n@), ts),
            e.view() == EventView::LocationUpdated(n@),
    {
        self.location.room_name = Some(dup(&n));
        self.history.fill_room(n.as_slice());
        Event::LocationUpdated { room_name: n }
    }

    fn on_left_room(&mut self, ts: Vec<u8>) -> (e: Event)
        ensures
            final(self).view() == next_state(old(self).view(), LineKind::LeftRoom, ts@),
            e.view() == EventView::LocationCleared(ts@),
    {
        self.location = Location { world_id: None, instance_id: None, room_name: None };
        self.history.push(
            HistoryEntry { timestamp: dup(&ts), joined: false, world_id: None, instance_id: None, room_name: None },
        );
        Event::LocationCleared { at: ts }
    }

    fn on_switch(&mut self, o: Vec<u8>, n: Vec<u8>, ts: Vec<u8>) -> (e: Option<Event>)
        ensures
            final(self).view() == next_state(old(self).view(), LineKind::Switch(o@, n@), ts@),
            event_view(e) == event_for(old(self).view(), LineKind::Switch(o@, n@), ts@),
    {
        if o.len() > 0 && n.len() > 0 {
            let ghost before = self.avatars@;
            self.avatars.push(AvatarLogRow { timestamp: dup(&ts), username: dup(&o), avatar_name: dup(&n) });
            assert(avatar_views(self.avatars@) =~= avatar_views(before).push((ts@, o@, n@)));
            Some(Event::AvatarLogged { at: ts, owner: o, avatar: n })
        } else {
            None
        }
    }

    fn on_joined(&mut self, n: Vec<u8>, u: Vec<u8>, ts: Vec<u8>) -> (e: Option<Event>)
        ensures
            final(self).view() == next_state(old(self).view(), LineKind::Joined(n@, u@), ts@),
            event_view(e) == event_for(old(self).view(), LineKind::Joined(n@, u@), ts@),
    {
        let fresh = self.log.insert_join(ts.as_slice(), u.as_slice(), n.as_slice());
        if fresh {
            Some(Event::RowInserted { at: ts, user_id: u, username: n })
        } else {
            None
        }
    }

    fn on_close(&mut self, key: Vec<u8>, by_name: bool, ts: Vec<u8>) -> (e: Option<Event>)
        ensures
            final(self).view() == (EngineView {
                rows: closed_latest(old(self).view().rows, key@, by_name, ts@),
                ..old(self).view()
            }),
            event_view(e) == if crate::store::latest_index(old(self).view().rows, key@, by_name) is Some {
                Some(EventView::RowUpdated(ts@, key@, by_name))
            } else {
                None
            },
    {
        match self.log.close_latest(key.as_slice(), by_name, ts.as_slice()) {
            Some(_) => Some(Event::RowUpdated { at: ts, key, by_name }),
            None => None,
        }
    }

    /// Applies one log line, read when the clock said `now`: the line's own
    /// timestamp is its time where it has one.
    pub fn process_line(&mut self, line: &[u8], now: &[u8]) -> (r: Step)
        requires
            old(self).view().bans.len() < 0x7fff_ffff_ffff_ffff,
        ensures
            final(self).view() == next_state(old(self).view(), kind_of(line@), stamp_or(line@, now@)),
            event_view(r.event) == event_for(old(self).view(), kind_of(line@), stamp_or(line@, now@)),
            lookup_views(r.jobs@) == jobs_for(old(self).view(), kind_of(line@)),
    {
        let kind = classify(line);
        let ts = match extract_timestamp(line) {
            Some(t) => t,
            None => {
                assert(now@.subrange(0, now@.len() as int) =~= now@);
                copy_range(now, 0, now.len())
            },
        };
        let none: Vec<Lookup> = Vec::new();
        assert(lookup_views(none@) =~= Seq::empty());
        match kind {
            Line::SessionEnd => Step { event: Some(self.on_session_end(ts)), jobs: none },
            Line::Instance(v) => Step { event: Some(self.on_instance(v, ts)), jobs: none },
            Line::Room(n) => Step { event: Some(self.on_room(n)), jobs: none },
            Line::LeftRoom => Step { event: Some(self.on_left_room(ts)), jobs: none },
            Line::Moderation(m) => Step { event: self.on_moderation(m, ts), jobs: none },
            Line::Switch(o, n) => Step { event: self.on_switch(o, n, ts), jobs: none },
            Line::Api(a) => Step { event: None, jobs: self.on_api(a) },
            Line::Joined(n, u) => Step { event: self.on_joined(n, u, ts), jobs: none },
            Line::Left(_n, u) => Step { event: self.on_close(u, false, ts), jobs: none },
            Line::Destroying(n) => Step { event: self.on_close(n, true, ts), jobs: none },
            Line::Other => Step { event: None, jobs: none },
        }
    }
}

/// Occupant-set invariant: where the join log has at most one open row per
/// user and no row left before it was joined, it keeps both after any line
/// whose time is not earlier than any recorded join, provided that a join
/// line does not name a user who is still open (such a second row is
/// closed later by the dedupe routine, by a leave or by a purge).
pub proof fn lemma_occupants_stay_wf(s: EngineView, line: Seq<u8>, now: Seq<u8>)
    requires
        crate::store::rows_wf(s.rows),
        crate::store::not_before_any(s.rows, stamp_or(line, now)),
        kind_of(line) matches LineKind::Joined(_n, u) ==> !crate::store::has_open(s.rows, u),
    ensures
        crate::store::rows_wf(next_state(s, kind_of(line), stamp_or(line, now)).rows),
{
    let ts = stamp_or(line, now);
    match kind_of(line) {
        LineKind::SessionEnd => crate::store::lemma_purged_wf(s.rows, ts),
        LineKind::Instance(_w, _i, _r) => crate::store::lemma_purged_wf(s.rows, ts),
        LineKind::Joined(n, u) => crate::store::lemma_joined_wf(s.rows, u, n, ts),
        LineKind::Left(_n, u) => crate::store::lemma_closed_latest_wf(s.rows, u, false, ts),
        LineKind::Destroying(n) => crate::store::lemma_closed_latest_wf(s.rows, n, true, ts),
        _ => {},
    }
}

/// Instance window: after an instance-join line at `t`, the last instance
/// join is `t`, every row that was open is closed at `t`, and every active
/// row (as `get_active_join_logs` lists them) joined at or after `t`.
pub proof fn lemma_instance_window(s: EngineView, line: Seq<u8>, now: Seq<u8>)
    requires
        kind_of(line) is Instance,
    ensures
        ({
            let t = stamp_or(line, now);
            let n = next_state(s, kind_of(line), t);
            let act = crate::store::by_join_time(crate::store::active_since(n.rows, n.last_join));
            &&& n.last_join == Some(t)
            &&& n.rows.len() == s.rows.len()
            &&& forall|i: int|
                0 <= i < s.rows.len() && crate::store::is_open(#[trigger] s.rows[i]) ==> n.rows[i].left
                    == Some(t)
            &&& forall|k: int| 0 <= k < act.len() ==> crate::order::lex_ge((#[trigger] act[k]).joined, t)
        }),
{
    let t = stamp_or(line, now);
    let n = next_state(s, kind_of(line), t);
    let a = crate::store::active_since(n.rows, n.last_join);
    crate::store::lemma_active_since(n.rows, n.last_join);
    crate::sort::lemma_sort_order(crate::store::joined_keys(a), a.len() as int);
    let o = crate::sort::sort_order(crate::store::joined_keys(a), a.len() as int);
    assert forall|k: int| 0 <= k < o.len() implies crate::order::lex_ge(
        (#[trigger] crate::store::by_join_time(a)[k]).joined,
        t,
    ) by {
        assert(0 <= o[k] < a.len());
    }
}

/// Moderation guard: a moderation line whose time lies in the first
/// `GUARD_SECONDS` after the last instance join changes nothing and
/// announces nothing.
pub proof fn lemma_guard_drops(s: EngineView, line: Seq<u8>, now: Seq<u8>)
    requires
        kind_of(line) is Moderation,
        s.last_join is Some,
        stamp_seconds(s.last_join->0) is Some,
        stamp_seconds(stamp_or(line, now)) is Some,
        in_guard(stamp_seconds(s.last_join->0)->0, stamp_seconds(stamp_or(line, now))->0),
    ensures
        next_state(s, kind_of(line), stamp_or(line, now)) == s,
        event_for(s, kind_of(line), stamp_or(line, now)) is None,
{
}

/// Call-id dedup: of two consecutive API-marker lines with the same call id
/// and URL, the second looks nothing up, so the pair enqueues what the first
/// alone does.
pub proof fn lemma_repeated_marker(s: EngineView, line: Seq<u8>, now: Seq<u8>)
    requires
        kind_of(line) matches LineKind::Api(id, _url) && id is Some,
    ensures
        jobs_for(next_state(s, kind_of(line), stamp_or(line, now)), kind_of(line)) == Seq::<LookupView>::empty(),
{
}

/// The last index below `n` whose line is an instance join.
pub open spec fn last_instance(ls: Seq<Seq<u8>>, n: int) -> Option<int>
    decreases n,
{
    if n <= 0 {
        None
    } else if instance_of(ls[n - 1]) is Some {
        Some(n - 1)
    } else {
        last_instance(ls, n - 1)
    }
}

/// The last index below `n` whose line says a room was joined.
pub open spec fn last_joined_room(ls: Seq<Seq<u8>>, n: int) -> Option<int>
    decreases n,
{
    if n <= 0 {
        None
    } else if contains_seq(ls[n - 1], crate::grammar::kw_joined_room()) {
        Some(n - 1)
    } else {
        last_joined_room(ls, n - 1)
    }
}

/// The session anchor: the later of the last instance join and the last
/// joined-room line, and whether it is the instance join.
pub open spec fn anchor_of(ls: Seq<Seq<u8>>) -> Option<(int, bool)> {
    match (last_instance(ls, ls.len() as int), last_joined_room(ls, ls.len() as int)) {
        (Some(a), Some(b)) => if b > a {
            Some((b, false))
        } else {
            Some((a, true))
        },
        (Some(a), None) => Some((a, true)),
        (None, Some(b)) => Some((b, false)),
        (None, None) => None,
    }
}

/// Some line after index `k` ends the session.
pub open spec fn ended_after(ls: Seq<Seq<u8>>, k: int) -> bool {
    exists|j: int| k < j < ls.len() && is_session_end(#[trigger] ls[j])
}

/// The join log after one line is replayed: joins insert, leaves close;
/// lines without a timestamp change nothing.
pub open spec fn replay_line(rows: Seq<RowView>, l: Seq<u8>) -> Seq<RowView> {
    match timestamp_of(l) {
        None => rows,
        Some(t) => match joined_of(l) {
            Some(j) => joined_rows(rows, j.1, j.0, t),
            None => match left_of(l) {
                Some(x) => closed_latest(rows, x.1, false, t),
                None => rows,
            },
        },
    }
}

/// The join log after the lines `ls[from..to]` are replayed in order.
pub open spec fn replay(rows: Seq<RowView>, ls: Seq<Seq<u8>>, from: int, to: int) -> Seq<RowView>
    decreases to - from,
{
    if to <= from {
        rows
    } else {
        replay_line(replay(rows, ls, from, to - 1), ls[to - 1])
    }
}

/// The state after a cold start that scanned the lines `ls`.
pub open spec fn reconstructed(s: EngineView, ls: Seq<Seq<u8>>) -> EngineView {
    match anchor_of(ls) {
        None => s,
        Some(a) => if ended_after(ls, a.0) || timestamp_of(ls[a.0]) is None {
            s
        } else if a.1 {
            let v = instance_of(ls[a.0])->0;
            EngineView {
                rows: replay(s.rows, ls, a.0 + 1, ls.len() as int),
                system_rows: s.system_rows.push((timestamp_of(ls[a.0])->0, v.0, v.1, v.2)),
                last_join: timestamp_of(ls[a.0]),
                ..s
            }
        } else {
            EngineView { last_join: timestamp_of(ls[a.0]), ..s }
        },
    }
}

impl Engine {
    fn replay_one(&mut self, l: &[u8])
        ensures
            final(self).view() == (EngineView { rows: replay_line(old(self).view().rows, l@), ..old(self).view() }),
    {
        let t = match extract_timestamp(l) {
            Some(t) => t,
            None => return,
        };
        match parse_joined(l) {
            Some(j) => {
                self.log.insert_join(t.as_slice(), j.1.as_slice(), j.0.as_slice());
            },
            None => match parse_left(l) {
                Some(x) => {
                    self.log.close_latest(x.1.as_slice(), false, t.as_slice());
                },
                None => {},
            },
        }
    }

    fn find_anchor(lines: &Vec<Vec<u8>>) -> (r: Option<(usize, bool)>)
        ensures
            match r {
                Some(a) => anchor_of(views(lines@)) == Some((a.0 as int, a.1)) && a.0 < lines@.len(),
                None => anchor_of(views(lines@)) is None,
            },
    {
        let ghost ls = views(lines@);
        let n = lines.len();
        let mut inst: Option<usize> = None;
        let mut i = n;
        while inst.is_none() && i > 0
            invariant
                i <= n == lines@.len(),
                ls == views(lines@),
                match inst {
                    Some(a) => last_instance(ls, n as int) == Some(a as int) && a < n,
                    None => last_instance(ls, n as int) == last_instance(ls, i as int),
                },
            decreases i,
        {
            assert(ls[i - 1] == lines@[i - 1]@);
            if parse_instance(lines[i - 1].as_slice()).is_some() {
                inst = Some(i - 1);
            }
            i = i - 1;
        }
        let mut room: Option<usize> = None;
        let mut i = n;
        while room.is_none() && i > 0
            invariant
                i <= n == lines@.len(),
                ls == views(lines@),
                match room {
                    Some(b) => last_joined_room(ls, n as int) == Some(b as int) && b < n,
                    None => last_joined_room(ls, n as int) == last_joined_room(ls, i as int),
                },
            decreases i,
        {
            assert(ls[i - 1] == lines@[i - 1]@);
            if crate::grammar::joined_room(lines[i - 1].as_slice()) {
                room = Some(i - 1);
            }
            i = i - 1;
        }
        match (inst, room) {
            (Some(a), Some(b)) => if b > a {
                Some((b, false))
            } else {
                Some((a, true))
            },
            (Some(a), None) => Some((a, true)),
            (None, Some(b)) => Some((b, false)),
            (None, None) => None,
        }
    }

    /// Cold start: rebuilds the current instance's occupants from the lines
    /// at the tail of a freshly opened log. The later of the last instance
    /// join and the last joined-room line anchors the session; where a
    /// session-end line follows it nothing changes. Anchored on an instance
    /// join, the instance change is recorded and every later line replayed;
    /// anchored on a joined room, only the instance window is set.
    pub fn reconstruct(&mut self, lines: &Vec<Vec<u8>>)
        ensures
            final(self).view() == reconstructed(old(self).view(), views(lines@)),
    {
        let ghost ls = views(lines@);
        let (k, is_inst) = match Engine::find_anchor(lines) {
            Some(a) => a,
            None => return,
        };
        let n = lines.len();
        let mut j = k + 1;
        while j < n
            invariant
                k < n == lines@.len(),
                k + 1 <= j <= n,
                ls == views(lines@),
                anchor_of(ls) == Some((k as int, is_inst)),
                self.view() == old(self).view(),
                forall|q: int| k < q < j ==> !is_session_end(#[trigger] ls[q]),
            decreases n - j,
        {
            assert(ls[j as int] == lines@[j as int]@);
            if session_end(lines[j].as_slice()) {
                assert(is_session_end(ls[j as int]));
                return;
            }
            j = j + 1;
        }
        assert(ls[k as int] == lines@[k as int]@);
        let ts = match extract_timestamp(lines[k].as_slice()) {
            Some(t) => t,
            None => return,
        };
        self.last_join = Some(dup(&ts));
        if !is_inst {
            return;
        }
        match parse_instance(lines[k].as_slice()) {
            Some(v) => {
                self.log.insert_system(
                    SystemRow { at: ts, world_id: v.world_id, instance_id: v.instance_id, region: v.region },
                );
            },
            None => {
                proof {
                    lemma_last_instance(ls, n as int);
                }
                return;
            },
        }
        let ghost mid = self.view();
        let mut i = k + 1;
        while i < n
            invariant
                k < n == lines@.len(),
                k + 1 <= i <= n,
                ls == views(lines@),
                self.view() == (EngineView { rows: replay(mid.rows, ls, k + 1, i as int), ..mid }),
            decreases n - i,
        {
            assert(ls[i as int] == lines@[i as int]@);
            self.replay_one(lines[i].as_slice());
            i = i + 1;
        }
    }
}

/// The index that `last_instance` gives holds an instance join.
pub proof fn lemma_last_instance(ls: Seq<Seq<u8>>, n: int)
    requires
        0 <= n <= ls.len(),
    ensures
        last_instance(ls, n) matches Some(a) ==> 0 <= a < n && instance_of(ls[a]) is Some,
    decreases n,
{
    if n > 0 {
        lemma_last_instance(ls, n - 1);
    }
}

} // verus!
