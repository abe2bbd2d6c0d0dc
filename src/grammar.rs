//! The grammar of the client's log lines: timestamps, player joins and
//! leaves, instance and room changes, session-end markers, moderation
//! actions and avatar switches.
use vstd::prelude::*;
use vstd::string::StringSliceAdditionalSpecFns;
use crate::bytes::{
    occurs_at, first_at, first_byte, trim, contains_seq, find_from, find_byte,
    matches_at, copy_range, trimmed_range, opt_view,
};
use crate::scan::{Class, run, run_len};

verus! {

pub open spec fn kw_joined() -> Seq<u8> { "OnPlayerJoined".spec_bytes() }
pub open spec fn kw_left() -> Seq<u8> { "OnPlayerLeft".spec_bytes() }
pub open spec fn kw_uid() -> Seq<u8> { "(usr_".spec_bytes() }
pub open spec fn kw_destroying() -> Seq<u8> { "Destroying ".spec_bytes() }
pub open spec fn kw_left_room() -> Seq<u8> { "Successfully left room".spec_bytes() }
pub open spec fn kw_stopping() -> Seq<u8> { "VRCNP: Stopping server".spec_bytes() }
pub open spec fn kw_joined_room() -> Seq<u8> { "Successfully joined room".spec_bytes() }
pub open spec fn kw_app() -> Seq<u8> { "VRCApplication:".spec_bytes() }
pub open spec fn kw_quit() -> Seq<u8> { "HandleApplicationQuit".spec_bytes() }
pub open spec fn kw_on_left_room() -> Seq<u8> { "[Behaviour] OnLeftRoom".spec_bytes() }

// ---------------------------------------------------------------- timestamps

/// Where a `YYYY.MM.DD<ws>HH:MM:SS` stamp that starts at `i` ends.
pub open spec fn stamp_end(s: Seq<u8>, i: int) -> Option<int> {
    let w = run(s, i + 10, Class::Space);
    if 0 <= i && i + 10 <= s.len() && run(s, i, Class::Digit) >= 4 && s[i + 4] == 46u8 && run(
        s,
        i + 5,
        Class::Digit,
    ) >= 2 && s[i + 7] == 46u8 && run(s, i + 8, Class::Digit) >= 2 && w > 0 && i + 18 + w
        <= s.len() && run(s, i + 10 + w, Class::Digit) >= 2 && s[i + 12 + w] == 58u8 && run(
        s,
        i + 13 + w,
        Class::Digit,
    ) >= 2 && s[i + 15 + w] == 58u8 && run(s, i + 16 + w, Class::Digit) >= 2 {
        Some(i + 18 + w)
    } else {
        None
    }
}

/// The first stamp, at or after `p`, that follows a `]` and whitespace.
pub open spec fn bracket_stamp(s: Seq<u8>, p: int) -> Option<(int, int)>
    decreases s.len() - p,
{
    if p < 0 || p >= s.len() {
        None
    } else if s[p] == 93u8 && run(s, p + 1, Class::Space) > 0 && stamp_end(
        s,
        p + 1 + run(s, p + 1, Class::Space),
    ) is Some {
        Some((p + 1 + run(s, p + 1, Class::Space), stamp_end(s, p + 1 + run(s, p + 1, Class::Space))->0))
    } else {
        bracket_stamp(s, p + 1)
    }
}

/// The timestamp of a line: at its start, or else after the first bracketed
/// tag that is followed by one.
pub open spec fn timestamp_of(s: Seq<u8>) -> Option<Seq<u8>> {
    match stamp_end(s, 0) {
        Some(e) => Some(s.subrange(0, e)),
        None => match bracket_stamp(s, 0) {
            Some(p) => Some(s.subrange(p.0, p.1)),
            None => None,
        },
    }
}

fn stamp_at(s: &[u8], i: usize) -> (r: Option<usize>)
    ensures
        match r {
            Some(e) => stamp_end(s@, i as int) == Some(e as int) && e <= s@.len(),
            None => stamp_end(s@, i as int) is None,
        },
{
    let _len = s.len();
    if i > s.len() || s.len() - i < 10 {
        return None;
    }
    if run_len(s, i, Class::Digit) < 4 || s[i + 4] != 46u8 || run_len(s, i + 5, Class::Digit) < 2
        || s[i + 7] != 46u8 || run_len(s, i + 8, Class::Digit) < 2 {
        return None;
    }
    let w = run_len(s, i + 10, Class::Space);
    if w == 0 || s.len() - (i + 10 + w) < 8 {
        return None;
    }
    let t = i + 10 + w;
    if run_len(s, t, Class::Digit) < 2 || s[t + 2] != 58u8 || run_len(s, t + 3, Class::Digit) < 2
        || s[t + 5] != 58u8 || run_len(s, t + 6, Class::Digit) < 2 {
        return None;
    }
    Some(t + 8)
}

/// The line's timestamp, if it carries one.
pub fn extract_timestamp(line: &[u8]) -> (r: Option<Vec<u8>>)
    ensures
        match r {
            Some(t) => timestamp_of(line@) == Some(t@),
            None => timestamp_of(line@) is None,
        },
{
    let _len = line.len();
    if let Some(e) = stamp_at(line, 0) {
        return Some(copy_range(line, 0, e));
    }
    let mut p: usize = 0;
    while p < line.len()
        invariant
            p <= line@.len(),
            bracket_stamp(line@, 0) == bracket_stamp(line@, p as int),
            stamp_end(line@, 0) is None,
        decreases line.len() - p,
    {
        if line[p] == 93u8 {
            let w = run_len(line, p + 1, Class::Space);
            if w > 0 {
                if let Some(e) = stamp_at(line, p + 1 + w) {
                    assert(bracket_stamp(line@, p as int) == Some(((p + 1 + w) as int, e as int)));
                    return Some(copy_range(line, p + 1 + w, e));
                }
            }
        }
        p = p + 1;
    }
    None
}

// ---------------------------------------------------------------- players

/// A `(usr_<36 hex or dash>)` group opens at `p`.
pub open spec fn uid_at(s: Seq<u8>, p: int) -> bool {
    occurs_at(s, kw_uid(), p) && run(s, p + 5, Class::Hex) >= 36 && p + 41 < s.len() && s[p + 41]
        == 41u8
}

/// `<name> (usr_…)` read from `q`: the trimmed name and the user id.
pub open spec fn player_from(s: Seq<u8>, q: int) -> Option<(Seq<u8>, Seq<u8>)> {
    match first_byte(s, 40u8, q) {
        Some(p) => if p > q && uid_at(s, p) {
            Some((trim(s.subrange(q, p)), s.subrange(p + 1, p + 41)))
        } else {
            None
        },
        None => None,
    }
}

/// Past an optional `[tag]` and the whitespace after it.
pub open spec fn tag_end(s: Seq<u8>, q: int) -> int {
    if 0 <= q < s.len() && s[q] == 91u8 {
        match first_byte(s, 93u8, q + 1) {
            Some(c) => if c > q + 1 {
                c + 1 + run(s, c + 1, Class::Space)
            } else {
                q
            },
            None => q,
        }
    } else {
        q
    }
}

/// `<kw> [tag] <name> (usr_…)`; the tag only where `tagged`.
pub open spec fn player_after(s: Seq<u8>, kw: Seq<u8>, tagged: bool) -> Option<(Seq<u8>, Seq<u8>)> {
    match first_at(s, kw, 0) {
        Some(k) => {
            let w = run(s, k + kw.len(), Class::Space);
            if w > 0 {
                let q = k + kw.len() + w;
                player_from(s, if tagged { tag_end(s, q) } else { q })
            } else {
                None
            }
        },
        None => None,
    }
}

/// A player-join line: `OnPlayerJoined [tag] <name> (usr_…)`.
pub open spec fn joined_of(s: Seq<u8>) -> Option<(Seq<u8>, Seq<u8>)> {
    player_after(s, kw_joined(), true)
}

/// A player-leave line: `OnPlayerLeft <name> (usr_…)`.
pub open spec fn left_of(s: Seq<u8>) -> Option<(Seq<u8>, Seq<u8>)> {
    player_after(s, kw_left(), false)
}

fn uid_check(s: &[u8], p: usize) -> (r: bool)
    requires
        p <= s@.len(),
    ensures
        r == uid_at(s@, p as int),
{
    let _len = s.len();
    let kw = "(usr_".as_bytes();
    if !matches_at(s, kw, p) {
        return false;
    }
    proof {
        reveal_strlit("(usr_");
        vstd::string::is_ascii_spec_bytes("(usr_");
    }
    assert(kw@.len() == 5);
    if run_len(s, p + 5, Class::Hex) < 36 {
        return false;
    }
    p + 41 < s.len() && s[p + 41] == 41u8
}

fn player_read(s: &[u8], q: usize) -> (r: Option<(Vec<u8>, Vec<u8>)>)
    requires
        q <= s@.len(),
    ensures
        match r {
            Some(v) => player_from(s@, q as int) == Some((v.0@, v.1@)),
            None => player_from(s@, q as int) is None,
        },
{
    let _len = s.len();
    match find_byte(s, 40u8, q) {
        Some(p) => {
            if p > q && uid_check(s, p) {
                Some((trimmed_range(s, q, p), copy_range(s, p + 1, p + 41)))
            } else {
                None
            }
        },
        None => None,
    }
}

fn tag_skip(s: &[u8], q: usize) -> (r: usize)
    requires
        q <= s@.len(),
    ensures
        r == tag_end(s@, q as int),
        r <= s@.len(),
{
    let _len = s.len();
    if q < s.len() && s[q] == 91u8 {
        match find_byte(s, 93u8, q + 1) {
            Some(c) => {
                if c > q + 1 {
                    c + 1 + run_len(s, c + 1, Class::Space)
                } else {
                    q
                }
            },
            None => q,
        }
    } else {
        q
    }
}

fn player_line(s: &[u8], kw: &[u8], tagged: bool) -> (r: Option<(Vec<u8>, Vec<u8>)>)
    ensures
        match r {
            Some(v) => player_after(s@, kw@, tagged) == Some((v.0@, v.1@)),
            None => player_after(s@, kw@, tagged) is None,
        },
{
    let _len = s.len();
    match find_from(s, kw, 0) {
        Some(k) => {
            let w = run_len(s, k + kw.len(), Class::Space);
            if w > 0 {
                let q = k + kw.len() + w;
                let q2 = if tagged { tag_skip(s, q) } else { q };
                player_read(s, q2)
            } else {
                None
            }
        },
        None => None,
    }
}

/// The name and user id of a player-join line.
pub fn parse_joined(line: &[u8]) -> (r: Option<(Vec<u8>, Vec<u8>)>)
    ensures
        match r {
            Some(v) => joined_of(line@) == Some((v.0@, v.1@)),
            None => joined_of(line@) is None,
        },
{
    player_line(line, "OnPlayerJoined".as_bytes(), true)
}

/// The name and user id of a player-leave line.
pub fn parse_left(line: &[u8]) -> (r: Option<(Vec<u8>, Vec<u8>)>)
    ensures
        match r {
            Some(v) => left_of(line@) == Some((v.0@, v.1@)),
            None => left_of(line@) is None,
        },
{
    player_line(line, "OnPlayerLeft".as_bytes(), false)
}

/// The name of a `Destroying <name>` line, trimmed; `None` where it is blank.
pub open spec fn destroying_of(s: Seq<u8>) -> Option<Seq<u8>> {
    match first_at(s, kw_destroying(), 0) {
        Some(k) => {
            let n = trim(s.subrange(k + kw_destroying().len(), s.len() as int));
            if n.len() > 0 {
                Some(n)
            } else {
                None
            }
        },
        None => None,
    }
}

pub fn parse_destroying(line: &[u8]) -> (r: Option<Vec<u8>>)
    ensures
        match r {
            Some(v) => destroying_of(line@) == Some(v@),
            None => destroying_of(line@) is None,
        },
{
    let _len = line.len();
    let kw = "Destroying ".as_bytes();
    match find_from(line, kw, 0) {
        Some(k) => {
            let n = trimmed_range(line, k + kw.len(), line.len());
            if n.len() > 0 {
                Some(n)
            } else {
                None
            }
        },
        None => None,
    }
}

// ---------------------------------------------------------------- markers

/// A line that ends the session: leaving or (re)joining a room, the network
/// server stopping, or the application quitting.
pub open spec fn is_session_end(s: Seq<u8>) -> bool {
    contains_seq(s, kw_left_room()) || contains_seq(s, kw_stopping()) || contains_seq(
        s,
        kw_joined_room(),
    ) || match first_at(s, kw_app(), 0) {
        Some(k) => occurs_at(
            s,
            kw_quit(),
            k + kw_app().len() + run(s, k + kw_app().len(), Class::Space),
        ),
        None => false,
    }
}

pub fn session_end(line: &[u8]) -> (r: bool)
    ensures
        r == is_session_end(line@),
{
    let _len = line.len();
    if find_from(line, "Successfully left room".as_bytes(), 0).is_some() {
        return true;
    }
    if find_from(line, "VRCNP: Stopping server".as_bytes(), 0).is_some() {
        return true;
    }
    if find_from(line, "Successfully joined room".as_bytes(), 0).is_some() {
        return true;
    }
    let app = "VRCApplication:".as_bytes();
    match find_from(line, app, 0) {
        Some(k) => {
            let j = k + app.len() + run_len(line, k + app.len(), Class::Space);
            matches_at(line, "HandleApplicationQuit".as_bytes(), j)
        },
        None => false,
    }
}

/// A "successfully joined room" line, one of the session anchors.
pub fn joined_room(line: &[u8]) -> (r: bool)
    ensures
        r == contains_seq(line@, kw_joined_room()),
{
    find_from(line, "Successfully joined room".as_bytes(), 0).is_some()
}

/// A line that says the user left the room.
pub fn left_room(line: &[u8]) -> (r: bool)
    ensures
        r == contains_seq(line@, kw_on_left_room()),
{
    find_from(line, "[Behaviour] OnLeftRoom".as_bytes(), 0).is_some()
}

// ---------------------------------------------------------------- instance

pub open spec fn kw_joining() -> Seq<u8> { "Joining wrld_".spec_bytes() }
pub open spec fn kw_region() -> Seq<u8> { "~region(".spec_bytes() }
pub open spec fn kw_room() -> Seq<u8> { "[Behaviour] Joining or Creating Room:".spec_bytes() }

/// An instance-join line: the world id, the instance token, the region.
pub struct InstanceLine {
    pub world_id: Vec<u8>,
    pub instance_id: Vec<u8>,
    pub region: Option<Vec<u8>>,
}

/// `~region(<r>)` right at `e`, with `r` not empty.
pub open spec fn region_at(s: Seq<u8>, e: int) -> Option<Seq<u8>> {
    if occurs_at(s, kw_region(), e) {
        match first_byte(s, 41u8, e + 8) {
            Some(r) => if r > e + 8 {
                Some(s.subrange(e + 8, r))
            } else {
                None
            },
            None => None,
        }
    } else {
        None
    }
}

/// `Joining wrld_<36 hex or dash>:<token>[~region(<r>)]`.
pub open spec fn instance_of(s: Seq<u8>) -> Option<(Seq<u8>, Seq<u8>, Option<Seq<u8>>)> {
    match first_at(s, kw_joining(), 0) {
        Some(k) => {
            let c = k + 49;
            if run(s, k + 13, Class::Hex) >= 36 && c < s.len() && s[c] == 58u8 && run(
                s,
                c + 1,
                Class::Token,
            ) > 0 {
                let e = c + 1 + run(s, c + 1, Class::Token);
                Some((s.subrange(k + 8, c), s.subrange(c + 1, e), region_at(s, e)))
            } else {
                None
            }
        },
        None => None,
    }
}

fn region_read(s: &[u8], e: usize) -> (r: Option<Vec<u8>>)
    requires
        e <= s@.len(),
    ensures
        opt_view(r) == region_at(s@, e as int),
{
    let _len = s.len();
    let kw = "~region(".as_bytes();
    proof {
        reveal_strlit("~region(");
        vstd::string::is_ascii_spec_bytes("~region(");
    }
    assert(kw@.len() == 8);
    if !matches_at(s, kw, e) {
        return None;
    }
    match find_byte(s, 41u8, e + 8) {
        Some(r) => {
            if r > e + 8 {
                Some(copy_range(s, e + 8, r))
            } else {
                None
            }
        },
        None => None,
    }
}

/// The parts of an instance-join line.
pub fn parse_instance(line: &[u8]) -> (r: Option<InstanceLine>)
    ensures
        match r {
            Some(v) => instance_of(line@) == Some((v.world_id@, v.instance_id@, opt_view(v.region))),
            None => instance_of(line@) is None,
        },
{
    let len = line.len();
    let kw = "Joining wrld_".as_bytes();
    proof {
        reveal_strlit("Joining wrld_");
        vstd::string::is_ascii_spec_bytes("Joining wrld_");
    }
    assert(kw@.len() == 13);
    match find_from(line, kw, 0) {
        Some(k) => {
            if run_len(line, k + 13, Class::Hex) < 36 || len - k <= 49 || line[k + 49] != 58u8 {
                return None;
            }
            let c = k + 49;
            let t = run_len(line, c + 1, Class::Token);
            if t == 0 {
                return None;
            }
            let e = c + 1 + t;
            Some(
                InstanceLine {
                    world_id: copy_range(line, k + 8, c),
                    instance_id: copy_range(line, c + 1, e),
                    region: region_read(line, e),
                },
            )
        },
        None => None,
    }
}

/// The room name of a `Joining or Creating Room:` line, trimmed and not blank.
pub open spec fn room_of(s: Seq<u8>) -> Option<Seq<u8>> {
    match first_at(s, kw_room(), 0) {
        Some(k) => {
            let n = trim(s.subrange(k + kw_room().len(), s.len() as int));
            if n.len() > 0 {
                Some(n)
            } else {
                None
            }
        },
        None => None,
    }
}

pub fn parse_room(line: &[u8]) -> (r: Option<Vec<u8>>)
    ensures
        opt_view(r) == room_of(line@),
{
    let _len = line.len();
    let kw = "[Behaviour] Joining or Creating Room:".as_bytes();
    match find_from(line, kw, 0) {
        Some(k) => {
            let n = trimmed_range(line, k + kw.len(), line.len());
            if n.len() > 0 {
                Some(n)
            } else {
                None
            }
        },
        None => None,
    }
}

// ---------------------------------------------------------------- moderation

pub open spec fn kw_admin() -> Seq<u8> { "Admin \"".spec_bytes() }
pub open spec fn kw_banned() -> Seq<u8> { "\" banned player \"".spec_bytes() }
pub open spec fn kw_warned() -> Seq<u8> { "\" warned player \"".spec_bytes() }
pub open spec fn kw_reason() -> Seq<u8> { "\" for the following reason: \"".spec_bytes() }

/// A moderation line: who acted, on whom, why, and whether it was a ban
/// (else a warning).
pub struct ModerationLine {
    pub admin: Vec<u8>,
    pub target: Vec<u8>,
    pub reason: Vec<u8>,
    pub banned: bool,
}

/// The closing quote of a quoted text that starts at `a`, the text not empty.
pub open spec fn quote_end(s: Seq<u8>, a: int) -> Option<int> {
    match first_byte(s, 34u8, a) {
        Some(q) => if q > a {
            Some(q)
        } else {
            None
        },
        None => None,
    }
}

/// `Admin "<a>" banned|warned player "<t>" for the following reason: "<r>"`.
pub open spec fn moderation_of(s: Seq<u8>) -> Option<(Seq<u8>, Seq<u8>, Seq<u8>, bool)> {
    match first_at(s, kw_admin(), 0) {
        Some(k) => {
            let a0 = k + kw_admin().len();
            match quote_end(s, a0) {
                Some(qa) => {
                    let banned = occurs_at(s, kw_banned(), qa);
                    if banned || occurs_at(s, kw_warned(), qa) {
                        let t0 = qa + kw_banned().len();
                        match quote_end(s, t0) {
                            Some(qt) => if occurs_at(s, kw_reason(), qt) {
                                let r0 = qt + kw_reason().len();
                                match quote_end(s, r0) {
                                    Some(qr) => Some(
                                        (
                                            s.subrange(a0, qa),
                                            s.subrange(t0, qt),
                                            s.subrange(r0, qr),
                                            banned,
                                        ),
                                    ),
                                    None => None,
                                }
                            } else {
                                None
                            },
                            None => None,
                        }
                    } else {
                        None
                    }
                },
                None => None,
            }
        },
        None => None,
    }
}

fn quote_find(s: &[u8], a: usize) -> (r: Option<usize>)
    ensures
        match r {
            Some(q) => quote_end(s@, a as int) == Some(q as int) && q < s@.len(),
            None => quote_end(s@, a as int) is None,
        },
{
    match find_byte(s, 34u8, a) {
        Some(q) => {
            if q > a {
                Some(q)
            } else {
                None
            }
        },
        None => None,
    }
}

pub fn parse_moderation(line: &[u8]) -> (r: Option<ModerationLine>)
    ensures
        match r {
            Some(v) => moderation_of(line@) == Some((v.admin@, v.target@, v.reason@, v.banned)),
            None => moderation_of(line@) is None,
        },
{
    let _len = line.len();
    let kw = "Admin \"".as_bytes();
    let kb = "\" banned player \"".as_bytes();
    let kwn = "\" warned player \"".as_bytes();
    let kr = "\" for the following reason: \"".as_bytes();
    proof {
        reveal_strlit("\" banned player \"");
        reveal_strlit("\" warned player \"");
        vstd::string::is_ascii_spec_bytes("\" banned player \"");
        vstd::string::is_ascii_spec_bytes("\" warned player \"");
    }
    assert(kb@.len() == kwn@.len());
    let k = match find_from(line, kw, 0) {
        Some(k) => k,
        None => return None,
    };
    let a0 = k + kw.len();
    let qa = match quote_find(line, a0) {
        Some(q) => q,
        None => return None,
    };
    let banned = matches_at(line, kb, qa);
    if !banned && !matches_at(line, kwn, qa) {
        return None;
    }
    let t0 = qa + kb.len();
    let qt = match quote_find(line, t0) {
        Some(q) => q,
        None => return None,
    };
    if !matches_at(line, kr, qt) {
        return None;
    }
    let r0 = qt + kr.len();
    let qr = match quote_find(line, r0) {
        Some(q) => q,
        None => return None,
    };
    Some(
        ModerationLine {
            admin: copy_range(line, a0, qa),
            target: copy_range(line, t0, qt),
            reason: copy_range(line, r0, qr),
            banned,
        },
    )
}

// ---------------------------------------------------------------- avatars

pub open spec fn kw_switching() -> Seq<u8> { "[Behaviour] Switching ".spec_bytes() }
pub open spec fn kw_to_avatar() -> Seq<u8> { " to avatar ".spec_bytes() }

/// `[Behaviour] Switching <owner> to avatar <name>`, both parts trimmed.
pub open spec fn switch_of(s: Seq<u8>) -> Option<(Seq<u8>, Seq<u8>)> {
    match first_at(s, kw_switching(), 0) {
        Some(k) => {
            let o = k + kw_switching().len();
            match first_at(s, kw_to_avatar(), o) {
                Some(m) => if m > o {
                    Some(
                        (
                            trim(s.subrange(o, m)),
                            trim(s.subrange(m + kw_to_avatar().len(), s.len() as int)),
                        ),
                    )
                } else {
                    None
                },
                None => None,
            }
        },
        None => None,
    }
}

pub fn parse_switch(line: &[u8]) -> (r: Option<(Vec<u8>, Vec<u8>)>)
    ensures
        match r {
            Some(v) => switch_of(line@) == Some((v.0@, v.1@)),
            None => switch_of(line@) is None,
        },
{
    let _len = line.len();
    let kw = "[Behaviour] Switching ".as_bytes();
    let kt = " to avatar ".as_bytes();
    let k = match find_from(line, kw, 0) {
        Some(k) => k,
        None => return None,
    };
    let o = k + kw.len();
    match find_from(line, kt, o) {
        Some(m) => {
            if m > o {
                Some((trimmed_range(line, o, m), trimmed_range(line, m + kt.len(), line.len())))
            } else {
                None
            }
        },
        None => None,
    }
}

pub open spec fn kw_authenticated() -> Seq<u8> { "User Authenticated:".spec_bytes() }

/// What a `User Authenticated:` line says after the colon, without trailing
/// whitespace; `None` where that is empty.
pub open spec fn auth_fragment_of(s: Seq<u8>) -> Option<Seq<u8>> {
    match first_at(s, kw_authenticated(), 0) {
        Some(k) => {
            let f = crate::bytes::trim_end(s.subrange(k + kw_authenticated().len(), s.len() as int));
            if f.len() > 0 {
                Some(f)
            } else {
                None
            }
        },
        None => None,
    }
}

pub fn auth_fragment(line: &[u8]) -> (r: Option<Vec<u8>>)
    ensures
        opt_view(r) == auth_fragment_of(line@),
{
    let len = line.len();
    let kw = "User Authenticated:".as_bytes();
    let k = match find_from(line, kw, 0) {
        Some(k) => k,
        None => return None,
    };
    let a = k + kw.len();
    let mut e = len;
    while e > a && crate::bytes::is_ws_byte(line[e - 1])
        invariant
            a <= e <= len == line@.len(),
            crate::bytes::trim_end(line@.subrange(a as int, len as int)) == crate::bytes::trim_end(
                line@.subrange(a as int, e as int),
            ),
        decreases e - a,
    {
        assert(line@.subrange(a as int, e as int).drop_last() =~= line@.subrange(a as int, e - 1));
        e = e - 1;
    }
    proof {
        let t = line@.subrange(a as int, e as int);
        if t.len() > 0 {
            assert(t.last() == line@[e - 1]);
        }
    }
    if e == a {
        return None;
    }
    Some(copy_range(line, a, e))
}

} // verus!
