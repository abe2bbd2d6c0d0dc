//! The join log: one row per observed player join, closed when the player
//! leaves or the session ends, beside the instance-change rows.
use vstd::prelude::*;
use crate::bytes::{dup, same};
use crate::assembler::views;
use crate::order::{lex_lt, lex_ge, less, lemma_lex_trans};

verus! {

/// A player row: who joined, under which name, when, and when they left.
pub struct JoinRow {
    pub user_id: Vec<u8>,
    pub username: Vec<u8>,
    pub joined_at: Vec<u8>,
    pub left_at: Option<Vec<u8>>,
    /// A group watchlist named this user while the row was current.
    pub group_watchlisted: bool,
}

/// What a player row holds, as values.
pub struct RowView {
    pub user: Seq<u8>,
    pub name: Seq<u8>,
    pub joined: Seq<u8>,
    pub left: Option<Seq<u8>>,
    pub flagged: bool,
}

impl JoinRow {
    pub open spec fn view(&self) -> RowView {
        RowView {
            user: self.user_id@,
            name: self.username@,
            joined: self.joined_at@,
            left: match self.left_at {
                Some(l) => Some(l@),
                None => None,
            },
            flagged: self.group_watchlisted,
        }
    }

    fn copy(&self) -> (r: JoinRow)
        ensures
            r.view() == self.view(),
    {
        JoinRow {
            user_id: dup(&self.user_id),
            username: dup(&self.username),
            joined_at: dup(&self.joined_at),
            left_at: match &self.left_at {
                Some(l) => Some(dup(l)),
                None => None,
            },
            group_watchlisted: self.group_watchlisted,
        }
    }
}

/// A system row: the instance the user moved to, and when.
pub struct SystemRow {
    pub at: Vec<u8>,
    pub world_id: Vec<u8>,
    pub instance_id: Vec<u8>,
    pub region: Option<Vec<u8>>,
}

/// What a system row holds, as values: when, world, instance, region.
pub open spec fn system_view(r: SystemRow) -> (Seq<u8>, Seq<u8>, Seq<u8>, Option<Seq<u8>>) {
    (
        r.at@,
        r.world_id@,
        r.instance_id@,
        match r.region {
            Some(g) => Some(g@),
            None => None,
        },
    )
}

pub open spec fn is_open(r: RowView) -> bool {
    r.left is None
}

/// `r` closed at `ts`.
pub open spec fn closed_at(r: RowView, ts: Seq<u8>) -> RowView {
    RowView { left: Some(ts), ..r }
}

/// At most one open row per user, and no row left before it was joined.
pub open spec fn rows_wf(rows: Seq<RowView>) -> bool {
    &&& forall|i: int, j: int|
        0 <= i < rows.len() && 0 <= j < rows.len() && i != j && is_open(#[trigger] rows[i])
            && is_open(#[trigger] rows[j]) ==> rows[i].user != rows[j].user
    &&& forall|i: int|
        0 <= i < rows.len() ==> ((#[trigger] rows[i]).left matches Some(l) ==> lex_ge(
            l,
            rows[i].joined,
        ))
}

/// `ts` sorts at or after every join in `rows`.
pub open spec fn not_before_any(rows: Seq<RowView>, ts: Seq<u8>) -> bool {
    forall|i: int| 0 <= i < rows.len() ==> lex_ge(ts, (#[trigger] rows[i]).joined)
}

/// Some row holds this user and join time.
pub open spec fn has_key(rows: Seq<RowView>, user: Seq<u8>, ts: Seq<u8>) -> bool {
    exists|i: int| 0 <= i < rows.len() && (#[trigger] rows[i]).user == user && rows[i].joined == ts
}

/// Some open row belongs to `user`.
pub open spec fn has_open(rows: Seq<RowView>, user: Seq<u8>) -> bool {
    exists|i: int| 0 <= i < rows.len() && is_open(#[trigger] rows[i]) && rows[i].user == user
}

/// Row `i` is the open row of `user` (by id, or else by name) with the
/// latest join time.
pub open spec fn is_latest_open(rows: Seq<RowView>, key: Seq<u8>, by_name: bool, i: int) -> bool {
    &&& 0 <= i < rows.len()
    &&& is_open(rows[i])
    &&& key_of(rows[i], by_name) == key
    &&& forall|j: int|
        0 <= j < rows.len() && is_open(#[trigger] rows[j]) && key_of(rows[j], by_name) == key
            ==> lex_ge(rows[i].joined, rows[j].joined)
}

pub open spec fn key_of(r: RowView, by_name: bool) -> Seq<u8> {
    if by_name {
        r.name
    } else {
        r.user
    }
}

/// The open row of `key` with the latest join time among `rows[0..n]`; of
/// rows that joined at the same time, the first.
pub open spec fn scan_latest(rows: Seq<RowView>, key: Seq<u8>, by_name: bool, n: int) -> Option<int>
    decreases n,
{
    if n <= 0 {
        None
    } else {
        let b = scan_latest(rows, key, by_name, n - 1);
        let r = rows[n - 1];
        if is_open(r) && key_of(r, by_name) == key {
            match b {
                None => Some(n - 1),
                Some(x) => if lex_lt(rows[x].joined, r.joined) {
                    Some(n - 1)
                } else {
                    Some(x)
                },
            }
        } else {
            b
        }
    }
}

/// The open row of `key` with the latest join time.
pub open spec fn latest_index(rows: Seq<RowView>, key: Seq<u8>, by_name: bool) -> Option<int> {
    scan_latest(rows, key, by_name, rows.len() as int)
}

/// `rows` after the open row of `key` that joined last is closed at `ts`.
pub open spec fn closed_latest(rows: Seq<RowView>, key: Seq<u8>, by_name: bool, ts: Seq<u8>) -> Seq<RowView> {
    match latest_index(rows, key, by_name) {
        Some(i) => rows.update(i, closed_at(rows[i], ts)),
        None => rows,
    }
}

/// `rows` after a join of `user` as `name` at `ts` is recorded.
pub open spec fn joined_rows(rows: Seq<RowView>, user: Seq<u8>, name: Seq<u8>, ts: Seq<u8>) -> Seq<RowView> {
    if has_key(rows, user, ts) {
        rows
    } else {
        rows.push(RowView { user, name, joined: ts, left: None, flagged: false })
    }
}

/// Every open row closed at `ts`.
pub open spec fn purged(rows: Seq<RowView>, ts: Seq<u8>) -> Seq<RowView> {
    rows.map_values(|r: RowView| if is_open(r) { closed_at(r, ts) } else { r })
}

/// Open rows of a user that has a later open row.
pub open spec fn superseded(rows: Seq<RowView>, i: int) -> bool {
    is_open(rows[i]) && exists|j: int|
        0 <= j < rows.len() && is_open(#[trigger] rows[j]) && rows[j].user == rows[i].user
            && lex_lt(rows[i].joined, rows[j].joined)
}

/// How many of `rows[0..n]` are superseded.
pub open spec fn count_superseded(rows: Seq<RowView>, n: int) -> nat
    decreases n,
{
    if n <= 0 {
        0
    } else {
        count_superseded(rows, n - 1) + if superseded(rows, n - 1) {
            1nat
        } else {
            0nat
        }
    }
}

/// The open rows that joined at or after `since`, in table order.
pub open spec fn active_since(rows: Seq<RowView>, since: Option<Seq<u8>>) -> Seq<RowView>
    decreases rows.len(),
{
    if rows.len() == 0 {
        Seq::empty()
    } else {
        let r = rows.last();
        let prev = active_since(rows.drop_last(), since);
        if is_open(r) && (since matches Some(s) ==> lex_ge(r.joined, s)) {
            prev.push(r)
        } else {
            prev
        }
    }
}

/// The row's user is one of `users`, and it joined at or after `since`
/// where that is given.
pub open spec fn watch_target(r: RowView, users: Seq<Seq<u8>>, since: Option<Seq<u8>>) -> bool {
    users.contains(r.user) && (since matches Some(s) ==> lex_ge(r.joined, s))
}

/// How many of `rows[0..n]` are watch targets.
pub open spec fn count_targets(rows: Seq<RowView>, users: Seq<Seq<u8>>, since: Option<Seq<u8>>, n: int) -> nat
    decreases n,
{
    if n <= 0 {
        0
    } else {
        count_targets(rows, users, since, n - 1) + if watch_target(rows[n - 1], users, since) {
            1nat
        } else {
            0nat
        }
    }
}

/// The row of `user` with a non-empty name that joined last among
/// `rows[0..n]`; of rows that joined at the same time, the first.
pub open spec fn scan_named(rows: Seq<RowView>, user: Seq<u8>, n: int) -> Option<int>
    decreases n,
{
    if n <= 0 {
        None
    } else {
        let b = scan_named(rows, user, n - 1);
        let r = rows[n - 1];
        if r.user == user && r.name.len() > 0 {
            match b {
                None => Some(n - 1),
                Some(x) => if lex_lt(rows[x].joined, r.joined) {
                    Some(n - 1)
                } else {
                    Some(x)
                },
            }
        } else {
            b
        }
    }
}

/// The join times of `a`.
pub open spec fn joined_keys(a: Seq<RowView>) -> Seq<Seq<u8>> {
    a.map_values(|r: RowView| r.joined)
}

/// `a` in ascending order of join time, rows that joined at the same time
/// in their order in `a`.
pub open spec fn by_join_time(a: Seq<RowView>) -> Seq<RowView> {
    let o = crate::sort::sort_order(joined_keys(a), a.len() as int);
    Seq::new(o.len(), |k: int| a[o[k]])
}

/// The player rows and the instance-change rows.
pub struct JoinLog {
    players: Vec<JoinRow>,
    system: Vec<SystemRow>,
}

pub open spec fn row_views(v: Seq<JoinRow>) -> Seq<RowView> {
    v.map_values(|r: JoinRow| r.view())
}

impl JoinLog {
    pub closed spec fn rows(&self) -> Seq<RowView> {
        row_views(self.players@)
    }

    pub closed spec fn system_rows(&self) -> Seq<(Seq<u8>, Seq<u8>, Seq<u8>, Option<Seq<u8>>)> {
        self.system@.map_values(|r: SystemRow| system_view(r))
    }

    pub open spec fn system_count(&self) -> nat {
        self.system_rows().len()
    }

    pub fn new() -> (r: JoinLog)
        ensures
            r.rows() == Seq::<RowView>::empty(),
            r.system_rows().len() == 0,
    {
        let r = JoinLog { players: Vec::new(), system: Vec::new() };
        assert(r.rows() =~= Seq::<RowView>::empty());
        r
    }

    pub fn len(&self) -> (r: usize)
        ensures
            r == self.rows().len(),
    {
        self.players.len()
    }

    /// How many instance-change rows were recorded.
    pub fn system_len(&self) -> (r: usize)
        ensures
            r == self.system_count(),
    {
        self.system.len()
    }

    /// The latest non-empty name that `user` joined under.
    pub fn get_latest_username_for_user(&self, user: &[u8]) -> (r: Option<Vec<u8>>)
        ensures
            match r {
                Some(v) => scan_named(self.rows(), user@, self.rows().len() as int) matches Some(i)
                    && v@ == self.rows()[i].name,
                None => scan_named(self.rows(), user@, self.rows().len() as int) is None,
            },
    {
        let mut best: Option<usize> = None;
        let mut i: usize = 0;
        while i < self.players.len()
            invariant
                i <= self.players@.len(),
                match best {
                    Some(b) => b < i && scan_named(self.rows(), user@, i as int) == Some(b as int),
                    None => scan_named(self.rows(), user@, i as int) is None,
                },
            decreases self.players.len() - i,
        {
            let r = &self.players[i];
            assert(self.rows()[i as int] == r.view());
            if r.username.len() > 0 && same(r.user_id.as_slice(), user) {
                match best {
                    None => {
                        best = Some(i);
                    },
                    Some(b) => {
                        assert(self.rows()[b as int] == self.players@[b as int].view());
                        if less(self.players[b].joined_at.as_slice(), r.joined_at.as_slice()) {
                            best = Some(i);
                        }
                    },
                }
            }
            i = i + 1;
        }
        match best {
            Some(b) => {
                assert(self.rows()[b as int] == self.players@[b as int].view());
                Some(dup(&self.players[b].username))
            },
            None => None,
        }
    }

    /// Marks as group-watchlisted every row of one of `users` that joined at
    /// or after `since` (every row of theirs where it is `None`); returns how
    /// many rows that is.
    pub fn set_group_watchlisted_for_users(&mut self, users: &Vec<Vec<u8>>, since: Option<&[u8]>) -> (r: usize)
        ensures
            final(self).rows().len() == old(self).rows().len(),
            forall|k: int|
                0 <= k < old(self).rows().len() ==> #[trigger] final(self).rows()[k] == if watch_target(
                    old(self).rows()[k],
                    users@.map_values(|u: Vec<u8>| u@),
                    match since {
                        Some(s) => Some(s@),
                        None => None,
                    },
                ) {
                    RowView { flagged: true, ..old(self).rows()[k] }
                } else {
                    old(self).rows()[k]
                },
            r == count_targets(
                old(self).rows(),
                users@.map_values(|u: Vec<u8>| u@),
                match since {
                    Some(s) => Some(s@),
                    None => None,
                },
                old(self).rows().len() as int,
            ),
            final(self).system_rows() == old(self).system_rows(),
    {
        let ghost us = users@.map_values(|u: Vec<u8>| u@);
        let ghost sv: Option<Seq<u8>> = match since {
            Some(s) => Some(s@),
            None => None,
        };
        let ghost o = self.rows();
        let mut n: usize = 0;
        let mut i: usize = 0;
        while i < self.players.len()
            invariant
                o == old(self).rows(),
                us == users@.map_values(|u: Vec<u8>| u@),
                sv == match since {
                    Some(s) => Some(s@),
                    None => None::<Seq<u8>>,
                },
                i <= self.players@.len(),
                self.rows().len() == o.len(),
                self.system_rows() == old(self).system_rows(),
                n == count_targets(o, us, sv, i as int),
                n <= i,
                forall|k: int| 0 <= k < i ==> #[trigger] self.rows()[k] == if watch_target(o[k], us, sv) {
                    RowView { flagged: true, ..o[k] }
                } else {
                    o[k]
                },
                forall|k: int| i <= k < o.len() ==> #[trigger] self.rows()[k] == o[k],
            decreases self.players.len() - i,
        {
            assert(self.rows()[i as int] == self.players@[i as int].view());
            let mut listed = false;
            let mut j: usize = 0;
            while j < users.len()
                invariant
                    j <= users@.len(),
                    i < self.players@.len(),
                    us == users@.map_values(|u: Vec<u8>| u@),
                    listed == exists|q: int| 0 <= q < j && us[q] == self.players@[i as int].user_id@,
                decreases users.len() - j,
            {
                assert(us[j as int] == users@[j as int]@);
                let hit = same(users[j].as_slice(), self.players[i].user_id.as_slice());
                proof {
                    if hit {
                        assert(0 <= j < j + 1 && us[j as int] == self.players@[i as int].user_id@);
                    }
                    if !hit && !listed {
                        assert forall|q: int| 0 <= q < j + 1 implies us[q] != self.players@[i as int].user_id@ by {
                            if q < j {
                            }
                        }
                    }
                }
                if hit {
                    listed = true;
                }
                j = j + 1;
            }
            proof {
                if listed {
                    let q = choose|q: int| 0 <= q < users@.len() && us[q] == self.players@[i as int].user_id@;
                    assert(us.contains(o[i as int].user));
                } else {
                    assert forall|q: int| 0 <= q < us.len() implies us[q] != o[i as int].user by {}
                }
            }
            let recent = match since {
                Some(s) => !less(self.players[i].joined_at.as_slice(), s),
                None => true,
            };
            if listed && recent {
                let mut row = self.players[i].copy();
                row.group_watchlisted = true;
                let ghost before = self.rows();
                self.players.set(i, row);
                assert(self.rows() =~= before.update(i as int, RowView { flagged: true, ..o[i as int] }));
                n = n + 1;
            }
            i = i + 1;
        }
        n
    }

    /// Forgets every row.
    pub fn clear(&mut self)
        ensures
            final(self).rows() == Seq::<RowView>::empty(),
            final(self).system_rows().len() == 0,
    {
        self.players = Vec::new();
        self.system = Vec::new();
        assert(self.rows() =~= Seq::<RowView>::empty());
    }

    /// A copy of row `i`.
    pub fn row(&self, i: usize) -> (r: JoinRow)
        requires
            i < self.rows().len(),
        ensures
            r.view() == self.rows()[i as int],
    {
        self.players[i].copy()
    }

    /// Records an instance change.
    pub fn insert_system(&mut self, row: SystemRow)
        ensures
            final(self).rows() == old(self).rows(),
            final(self).system_rows() == old(self).system_rows().push(system_view(row)),
    {
        self.system.push(row);
        assert(self.system_rows() =~= old(self).system_rows().push(system_view(row)));
    }

    /// A copy of system row `i`.
    pub fn system_row(&self, i: usize) -> (r: SystemRow)
        requires
            i < self.system_rows().len(),
        ensures
            system_view(r) == self.system_rows()[i as int],
    {
        let s = &self.system[i];
        SystemRow {
            at: dup(&s.at),
            world_id: dup(&s.world_id),
            instance_id: dup(&s.instance_id),
            region: match &s.region {
                Some(g) => Some(dup(g)),
                None => None,
            },
        }
    }

    /// Whether some row holds `user` joined at `ts`.
    pub fn contains_key(&self, user: &[u8], ts: &[u8]) -> (r: bool)
        ensures
            r == has_key(self.rows(), user@, ts@),
    {
        let mut i: usize = 0;
        while i < self.players.len()
            invariant
                i <= self.players@.len(),
                forall|k: int| 0 <= k < i ==> !((#[trigger] self.rows()[k]).user == user@
                    && self.rows()[k].joined == ts@),
            decreases self.players.len() - i,
        {
            let r = &self.players[i];
            if same(r.user_id.as_slice(), user) && same(r.joined_at.as_slice(), ts) {
                assert(self.rows()[i as int] == r.view());
                return true;
            }
            assert(self.rows()[i as int] == r.view());
            i = i + 1;
        }
        false
    }

    /// Whether `user` has an open row.
    pub fn user_open(&self, user: &[u8]) -> (r: bool)
        ensures
            r == has_open(self.rows(), user@),
    {
        let mut i: usize = 0;
        while i < self.players.len()
            invariant
                i <= self.players@.len(),
                forall|k: int| 0 <= k < i ==> !(is_open(#[trigger] self.rows()[k])
                    && self.rows()[k].user == user@),
            decreases self.players.len() - i,
        {
            let r = &self.players[i];
            assert(self.rows()[i as int] == r.view());
            if r.left_at.is_none() && same(r.user_id.as_slice(), user) {
                return true;
            }
            i = i + 1;
        }
        false
    }

    /// Records that `user` joined as `name` at `ts`, unless a row for that
    /// user and time exists already (a line read twice).
    pub fn insert_join(&mut self, ts: &[u8], user: &[u8], name: &[u8]) -> (r: bool)
        ensures
            r == !has_key(old(self).rows(), user@, ts@),
            r ==> final(self).rows() == old(self).rows().push(
                RowView { user: user@, name: name@, joined: ts@, left: None, flagged: false },
            ),
            !r ==> final(self).rows() == old(self).rows(),
            final(self).system_rows() == old(self).system_rows(),
    {
        if self.contains_key(user, ts) {
            return false;
        }
        let row = JoinRow {
            user_id: crate::bytes::copy_range(user, 0, user.len()),
            username: crate::bytes::copy_range(name, 0, name.len()),
            joined_at: crate::bytes::copy_range(ts, 0, ts.len()),
            left_at: None,
            group_watchlisted: false,
        };
        assert(user@.subrange(0, user@.len() as int) =~= user@);
        assert(name@.subrange(0, name@.len() as int) =~= name@);
        assert(ts@.subrange(0, ts@.len() as int) =~= ts@);
        self.players.push(row);
        assert(self.rows() =~= old(self).rows().push(row.view()));
        true
    }

    /// The open row of `key` (a user id, or a user name where `by_name`)
    /// with the latest join time.
    pub fn latest_open(&self, key: &[u8], by_name: bool) -> (r: Option<usize>)
        ensures
            match r {
                Some(i) => latest_index(self.rows(), key@, by_name) == Some(i as int),
                None => latest_index(self.rows(), key@, by_name) is None,
            },
            match r {
                Some(i) => is_latest_open(self.rows(), key@, by_name, i as int),
                None => forall|j: int|
                    0 <= j < self.rows().len() ==> !(is_open(#[trigger] self.rows()[j])
                        && key_of(self.rows()[j], by_name) == key@),
            },
    {
        let mut best: Option<usize> = None;
        let mut i: usize = 0;
        while i < self.players.len()
            invariant
                i <= self.players@.len(),
                match best {
                    Some(b) => scan_latest(self.rows(), key@, by_name, i as int) == Some(b as int),
                    None => scan_latest(self.rows(), key@, by_name, i as int) is None,
                },
                match best {
                    Some(b) => b < i && is_open(self.rows()[b as int]) && key_of(
                        self.rows()[b as int],
                        by_name,
                    ) == key@ && forall|j: int|
                        0 <= j < i && is_open(#[trigger] self.rows()[j]) && key_of(
                            self.rows()[j],
                            by_name,
                        ) == key@ ==> lex_ge(self.rows()[b as int].joined, self.rows()[j].joined),
                    None => forall|j: int|
                        0 <= j < i ==> !(is_open(#[trigger] self.rows()[j]) && key_of(
                            self.rows()[j],
                            by_name,
                        ) == key@),
                },
            decreases self.players.len() - i,
        {
            let r = &self.players[i];
            assert(self.rows()[i as int] == r.view());
            let k = if by_name {
                r.username.as_slice()
            } else {
                r.user_id.as_slice()
            };
            if r.left_at.is_none() && same(k, key) {
                match best {
                    None => {
                        proof {
                            lemma_lex_irrefl(self.rows()[i as int].joined);
                        }
                        best = Some(i);
                    },
                    Some(b) => {
                        let rb = &self.players[b];
                        assert(self.rows()[b as int] == rb.view());
                        if less(rb.joined_at.as_slice(), r.joined_at.as_slice()) {
                            proof {
                                assert forall|j: int|
                                    0 <= j < i + 1 && is_open(#[trigger] self.rows()[j]) && key_of(
                                        self.rows()[j],
                                        by_name,
                                    ) == key@ implies lex_ge(
                                    self.rows()[i as int].joined,
                                    self.rows()[j].joined,
                                ) by {
                                    if j < i && lex_lt(self.rows()[i as int].joined, self.rows()[j].joined) {
                                        lemma_lex_trans(
                                            self.rows()[b as int].joined,
                                            self.rows()[i as int].joined,
                                            self.rows()[j].joined,
                                        );
                                    }
                                    if j == i {
                                        lemma_lex_irrefl(self.rows()[i as int].joined);
                                    }
                                }
                            }
                            best = Some(i);
                        }
                    },
                }
            }
            i = i + 1;
        }
        best
    }

    fn close_row(&mut self, i: usize, ts: &[u8])
        requires
            i < old(self).rows().len(),
        ensures
            final(self).rows() == old(self).rows().update(i as int, closed_at(old(self).rows()[i as int], ts@)),
            final(self).system_rows() == old(self).system_rows(),
            final(self).players@.len() == old(self).players@.len(),
    {
        let mut r = self.players[i].copy();
        r.left_at = Some(crate::bytes::copy_range(ts, 0, ts.len()));
        assert(ts@.subrange(0, ts@.len() as int) =~= ts@);
        self.players.set(i, r);
        assert(self.rows() =~= old(self).rows().update(i as int, closed_at(old(self).rows()[i as int], ts@)));
    }

    /// Closes at `ts` the open row of `key` (a user id, or a user name where
    /// `by_name`) that joined last; returns its index, or `None` where the
    /// key has no open row and nothing changes.
    pub fn close_latest(&mut self, key: &[u8], by_name: bool, ts: &[u8]) -> (r: Option<usize>)
        ensures
            final(self).rows() == closed_latest(old(self).rows(), key@, by_name, ts@),
            r is None <==> latest_index(old(self).rows(), key@, by_name) is None,
            match r {
                Some(i) => is_latest_open(old(self).rows(), key@, by_name, i as int)
                    && final(self).rows() == old(self).rows().update(
                    i as int,
                    closed_at(old(self).rows()[i as int], ts@),
                ),
                None => final(self).rows() == old(self).rows() && forall|j: int|
                    0 <= j < old(self).rows().len() ==> !(is_open(#[trigger] old(self).rows()[j])
                        && key_of(old(self).rows()[j], by_name) == key@),
            },
            final(self).system_rows() == old(self).system_rows(),
            rows_wf(old(self).rows()) && not_before_any(old(self).rows(), ts@) ==> rows_wf(
                final(self).rows(),
            ),
    {
        match self.latest_open(key, by_name) {
            Some(i) => {
                self.close_row(i, ts);
                proof {
                    let o = old(self).rows();
                    let n = self.rows();
                    if rows_wf(o) && not_before_any(o, ts@) {
                        assert forall|a: int, b: int|
                            0 <= a < n.len() && 0 <= b < n.len() && a != b && is_open(#[trigger] n[a])
                                && is_open(#[trigger] n[b]) implies n[a].user != n[b].user by {
                            assert(is_open(o[a]) && is_open(o[b]));
                        }
                        assert forall|a: int| 0 <= a < n.len() implies ((#[trigger] n[a]).left matches Some(l)
                            ==> lex_ge(l, n[a].joined)) by {
                            if a == i {
                                assert(lex_ge(ts@, o[a].joined));
                            }
                        }
                    }
                }
                Some(i)
            },
            None => None,
        }
    }

    /// Closes every open row at `ts`; returns how many were open.
    pub fn purge(&mut self, ts: &[u8]) -> (r: usize)
        ensures
            final(self).rows() == purged(old(self).rows(), ts@),
            final(self).system_rows() == old(self).system_rows(),
            rows_wf(old(self).rows()) && not_before_any(old(self).rows(), ts@) ==> rows_wf(
                final(self).rows(),
            ),
    {
        let ghost o = self.rows();
        let mut n: usize = 0;
        let mut i: usize = 0;
        while i < self.players.len()
            invariant
                o == old(self).rows(),
                i <= self.players@.len(),
                n <= i,
                self.rows().len() == o.len(),
                self.system_rows() == old(self).system_rows(),
                forall|k: int| 0 <= k < i ==> #[trigger] self.rows()[k] == purged(o, ts@)[k],
                forall|k: int| i <= k < o.len() ==> #[trigger] self.rows()[k] == o[k],
            decreases self.players.len() - i,
        {
            assert(self.rows()[i as int] == self.players[i as int].view());
            if self.players[i].left_at.is_none() {
                self.close_row(i, ts);
                n = n + 1;
            }
            i = i + 1;
        }
        assert(self.rows() =~= purged(o, ts@));
        proof {
            let p = purged(o, ts@);
            if rows_wf(o) && not_before_any(o, ts@) {
                assert forall|a: int| 0 <= a < p.len() implies ((#[trigger] p[a]).left matches Some(l)
                    ==> lex_ge(l, p[a].joined)) by {
                    assert(lex_ge(ts@, o[a].joined));
                }
            }
        }
        n
    }

    /// Whether row `i` is open while its user has an open row that joined later.
    pub fn is_superseded(&self, i: usize) -> (r: bool)
        requires
            i < self.rows().len(),
        ensures
            r == superseded(self.rows(), i as int),
    {
        let ri = &self.players[i];
        assert(self.rows()[i as int] == ri.view());
        if ri.left_at.is_some() {
            return false;
        }
        let mut j: usize = 0;
        while j < self.players.len()
            invariant
                i < self.players@.len(),
                j <= self.players@.len(),
                ri.view() == self.rows()[i as int],
                is_open(self.rows()[i as int]),
                forall|k: int| 0 <= k < j ==> !(is_open(#[trigger] self.rows()[k]) && self.rows()[k].user
                    == ri.view().user && lex_lt(ri.view().joined, self.rows()[k].joined)),
            decreases self.players.len() - j,
        {
            let rj = &self.players[j];
            assert(self.rows()[j as int] == rj.view());
            if rj.left_at.is_none() && same(rj.user_id.as_slice(), ri.user_id.as_slice()) && less(
                ri.joined_at.as_slice(),
                rj.joined_at.as_slice(),
            ) {
                assert(is_open(self.rows()[j as int]) && self.rows()[j as int].user == self.rows()[i as int].user
                    && lex_lt(self.rows()[i as int].joined, self.rows()[j as int].joined));
                return true;
            }
            j = j + 1;
        }
        false
    }

    /// Closes at `ts` every open row whose user has an open row that joined
    /// later, so that each user keeps only the newest open row; returns how
    /// many were closed.
    pub fn dedupe(&mut self, ts: &[u8]) -> (r: usize)
        ensures
            final(self).rows().len() == old(self).rows().len(),
            forall|k: int|
                0 <= k < old(self).rows().len() ==> #[trigger] final(self).rows()[k] == if superseded(
                    old(self).rows(),
                    k,
                ) {
                    closed_at(old(self).rows()[k], ts@)
                } else {
                    old(self).rows()[k]
                },
            r == count_superseded(old(self).rows(), old(self).rows().len() as int),
            final(self).system_rows() == old(self).system_rows(),
    {
        let ghost o = self.rows();
        let mut flags: Vec<bool> = Vec::new();
        let mut i: usize = 0;
        while i < self.players.len()
            invariant
                o == self.rows(),
                i <= self.players@.len(),
                flags@.len() == i,
                forall|k: int| 0 <= k < i ==> flags@[k] == superseded(o, k),
            decreases self.players.len() - i,
        {
            let f = self.is_superseded(i);
            flags.push(f);
            i = i + 1;
        }
        let mut n: usize = 0;
        let mut i: usize = 0;
        while i < self.players.len()
            invariant
                o == old(self).rows(),
                i <= self.players@.len(),
                n <= i,
                n == count_superseded(o, i as int),
                flags@.len() == o.len(),
                self.rows().len() == o.len(),
                self.system_rows() == old(self).system_rows(),
                forall|k: int| 0 <= k < o.len() ==> flags@[k] == superseded(o, k),
                forall|k: int| 0 <= k < i ==> #[trigger] self.rows()[k] == if superseded(o, k) {
                    closed_at(o[k], ts@)
                } else {
                    o[k]
                },
                forall|k: int| i <= k < o.len() ==> #[trigger] self.rows()[k] == o[k],
            decreases self.players.len() - i,
        {
            if flags[i] {
                self.close_row(i, ts);
                n = n + 1;
            }
            i = i + 1;
        }
        n
    }

    /// The open rows that joined at or after `since` where it is given, in
    /// ascending order of join time.
    pub fn active_by_time(&self, since: Option<&[u8]>) -> (r: Vec<JoinRow>)
        ensures
            row_views(r@) == by_join_time(
                active_since(
                    self.rows(),
                    match since {
                        Some(s) => Some(s@),
                        None => None,
                    },
                ),
            ),
            forall|a: int, b: int|
                0 <= a < b < r@.len() ==> !lex_lt(r@[b].joined_at@, r@[a].joined_at@),
    {
        let act = self.active(since);
        let ghost av = row_views(act@);
        let mut keys: Vec<Vec<u8>> = Vec::new();
        let mut i: usize = 0;
        while i < act.len()
            invariant
                i <= act@.len(),
                av == row_views(act@),
                views(keys@) == joined_keys(av).subrange(0, i as int),
            decreases act.len() - i,
        {
            let ghost before = keys@;
            keys.push(dup(&act[i].joined_at));
            assert(views(keys@) =~= views(before).push(av[i as int].joined));
            assert(joined_keys(av).subrange(0, i + 1) =~= joined_keys(av).subrange(0, i as int).push(av[i as int].joined));
            i = i + 1;
        }
        assert(views(keys@) =~= joined_keys(av));
        let order = crate::sort::sort_indices(&keys);
        let ghost o = crate::sort::as_ints(order@);
        let mut out: Vec<JoinRow> = Vec::new();
        let mut k: usize = 0;
        while k < order.len()
            invariant
                k <= order@.len(),
                av == row_views(act@),
                o == crate::sort::as_ints(order@),
                crate::sort::permutes(o, act@.len() as int),
                crate::sort::ascending(o, joined_keys(av)),
                row_views(out@) == Seq::new(k as nat, |q: int| av[o[q]]),
            decreases order.len() - k,
        {
            assert(o[k as int] == order@[k as int] as int);
            assert(0 <= o[k as int] < act@.len());
            let ghost before = out@;
            let c = act[order[k]].copy();
            assert(c.view() == av[o[k as int]]);
            out.push(c);
            assert(row_views(out@) =~= row_views(before).push(c.view()));
            assert(row_views(out@) =~= Seq::new((k + 1) as nat, |q: int| av[o[q]]));
            k = k + 1;
        }
        proof {
            assert forall|a: int, b: int| 0 <= a < b < out@.len() implies !lex_lt(
                out@[b].joined_at@,
                out@[a].joined_at@,
            ) by {
                assert(row_views(out@)[a] == out@[a].view());
                assert(row_views(out@)[b] == out@[b].view());
                assert(joined_keys(av)[o[a]] == av[o[a]].joined);
                assert(joined_keys(av)[o[b]] == av[o[b]].joined);
            }
        }
        out
    }

    /// The open rows, in table order, that joined at or after `since` where
    /// it is given.
    pub fn active(&self, since: Option<&[u8]>) -> (r: Vec<JoinRow>)
        ensures
            row_views(r@) == active_since(
                self.rows(),
                match since {
                    Some(s) => Some(s@),
                    None => None,
                },
            ),
    {
        let ghost sv: Option<Seq<u8>> = match since {
            Some(s) => Some(s@),
            None => None,
        };
        let mut out: Vec<JoinRow> = Vec::new();
        let mut i: usize = 0;
        while i < self.players.len()
            invariant
                i <= self.players@.len(),
                sv == match since {
                    Some(s) => Some(s@),
                    None => None::<Seq<u8>>,
                },
                row_views(out@) == active_since(self.rows().subrange(0, i as int), sv),
            decreases self.players.len() - i,
        {
            let r = &self.players[i];
            proof {
                let pre = self.rows().subrange(0, i + 1);
                assert(pre.drop_last() =~= self.rows().subrange(0, i as int));
                assert(pre.last() == r.view());
            }
            let keep = r.left_at.is_none() && match since {
                Some(s) => !less(r.joined_at.as_slice(), s),
                None => true,
            };
            if keep {
                let ghost before = out@;
                out.push(r.copy());
                assert(row_views(out@) =~= row_views(before).push(r.view()));
            }
            i = i + 1;
        }
        assert(self.rows().subrange(0, self.players@.len() as int) =~= self.rows());
        out
    }
}

pub proof fn lemma_lex_irrefl(a: Seq<u8>)
    ensures
        !lex_lt(a, a),
{
    lemma_lex_irrefl_from(a, 0);
}

proof fn lemma_lex_irrefl_from(a: Seq<u8>, i: int)
    requires
        0 <= i <= a.len(),
    ensures
        !crate::order::lex_lt_from(a, a, i),
    decreases a.len() - i,
{
    if i < a.len() {
        lemma_lex_irrefl_from(a, i + 1);
    }
}

/// The row that `scan_latest` picks is an open row of the key.
pub proof fn lemma_scan_latest(rows: Seq<RowView>, key: Seq<u8>, by_name: bool, n: int)
    requires
        0 <= n <= rows.len(),
    ensures
        scan_latest(rows, key, by_name, n) matches Some(x) ==> 0 <= x < n && is_open(rows[x])
            && key_of(rows[x], by_name) == key,
    decreases n,
{
    if n > 0 {
        lemma_scan_latest(rows, key, by_name, n - 1);
    }
}

/// Closing every open row at a time no earlier than any join keeps the
/// occupant set well formed.
pub proof fn lemma_purged_wf(rows: Seq<RowView>, ts: Seq<u8>)
    requires
        rows_wf(rows),
        not_before_any(rows, ts),
    ensures
        rows_wf(purged(rows, ts)),
{
    let p = purged(rows, ts);
    assert forall|a: int| 0 <= a < p.len() implies ((#[trigger] p[a]).left matches Some(l) ==> lex_ge(
        l,
        p[a].joined,
    )) by {
        assert(lex_ge(ts, rows[a].joined));
    }
    assert forall|a: int, b: int|
        0 <= a < p.len() && 0 <= b < p.len() && a != b && is_open(#[trigger] p[a]) && is_open(
            #[trigger] p[b],
        ) implies p[a].user != p[b].user by {
        assert(is_open(rows[a]) && is_open(rows[b]));
    }
}

/// Closing a user's latest open row at a time no earlier than any join keeps
/// the occupant set well formed.
pub proof fn lemma_closed_latest_wf(rows: Seq<RowView>, key: Seq<u8>, by_name: bool, ts: Seq<u8>)
    requires
        rows_wf(rows),
        not_before_any(rows, ts),
    ensures
        rows_wf(closed_latest(rows, key, by_name, ts)),
{
    lemma_scan_latest(rows, key, by_name, rows.len() as int);
    if let Some(i) = latest_index(rows, key, by_name) {
        let n = closed_latest(rows, key, by_name, ts);
        assert forall|a: int| 0 <= a < n.len() implies ((#[trigger] n[a]).left matches Some(l)
            ==> lex_ge(l, n[a].joined)) by {
            if a == i {
                assert(lex_ge(ts, rows[a].joined));
            }
        }
        assert forall|a: int, b: int|
            0 <= a < n.len() && 0 <= b < n.len() && a != b && is_open(#[trigger] n[a]) && is_open(
                #[trigger] n[b],
            ) implies n[a].user != n[b].user by {
            assert(is_open(rows[a]) && is_open(rows[b]));
        }
    }
}

/// Recording a join of a user who has no open row keeps the occupant set
/// well formed.
pub proof fn lemma_joined_wf(rows: Seq<RowView>, user: Seq<u8>, name: Seq<u8>, ts: Seq<u8>)
    requires
        rows_wf(rows),
        !has_open(rows, user),
    ensures
        rows_wf(joined_rows(rows, user, name, ts)),
{
    let n = joined_rows(rows, user, name, ts);
    if !has_key(rows, user, ts) {
        assert forall|a: int, b: int|
            0 <= a < n.len() && 0 <= b < n.len() && a != b && is_open(#[trigger] n[a]) && is_open(
                #[trigger] n[b],
            ) implies n[a].user != n[b].user by {
            if a == rows.len() {
                assert(is_open(rows[b]) && rows[b].user == n[b].user);
            } else if b == rows.len() {
                assert(is_open(rows[a]) && rows[a].user == n[a].user);
            } else {
                assert(n[a] == rows[a] && n[b] == rows[b]);
            }
        }
        assert forall|a: int| 0 <= a < n.len() implies ((#[trigger] n[a]).left matches Some(l)
            ==> lex_ge(l, n[a].joined)) by {
            if a < rows.len() {
                assert(n[a] == rows[a]);
            }
        }
    }
}

/// Every row that `active_since` returns is open and, where `since` is
/// given, joined at or after it.
pub proof fn lemma_active_since(rows: Seq<RowView>, since: Option<Seq<u8>>)
    ensures
        forall|k: int|
            0 <= k < active_since(rows, since).len() ==> is_open(#[trigger] active_since(rows, since)[k])
                && (since matches Some(s) ==> lex_ge(active_since(rows, since)[k].joined, s)),
    decreases rows.len(),
{
    if rows.len() > 0 {
        lemma_active_since(rows.drop_last(), since);
    }
}

} // verus!
