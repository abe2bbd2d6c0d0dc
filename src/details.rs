//! Where the enrichment worker files what it learns: the key of an avatar's
//! details, and the queue of lookups still to run.
use vstd::prelude::*;
use crate::avatar::{ctrim, normalized, normalize_avatar_name, chars_of, ctrimmed, string_of, chars_equal};
use crate::api::{Lookup, LookupView, lookup_views};

verus! {

/// The key under which a security-check result for `name` by `owner` is
/// stored: the normalized name, the owner (`unknown_owner` where blank),
/// and the trimmed raw name where it differs, whose old row is dropped.
/// `None` where the name is blank before or after normalization.
pub open spec fn details_key_of(name: Seq<char>, owner: Seq<char>) -> Option<(Seq<char>, Seq<char>, Option<Seq<char>>)> {
    let t = ctrim(name);
    let n = normalized(name);
    if t.len() == 0 || n.len() == 0 {
        None
    } else {
        Some(
            (
                n,
                if ctrim(owner).len() == 0 {
                    "unknown_owner"@
                } else {
                    owner
                },
                if t != n {
                    Some(t)
                } else {
                    None
                },
            ),
        )
    }
}

/// The storage key of an avatar's details.
pub struct DetailsKey {
    pub avatar_name: String,
    pub owner_id: String,
    /// The raw name whose row the normalized key replaces.
    pub stale_name: Option<String>,
}

pub fn details_key(name: &str, owner: &str) -> (r: Option<DetailsKey>)
    ensures
        match r {
            Some(k) => details_key_of(name@, owner@) == Some(
                (
                    k.avatar_name@,
                    k.owner_id@,
                    match k.stale_name {
                        Some(s) => Some(s@),
                        None => None,
                    },
                ),
            ),
            None => details_key_of(name@, owner@) is None,
        },
{
    let raw = chars_of(name);
    let t = ctrimmed(raw.as_slice());
    let n = normalize_avatar_name(name);
    let nc = chars_of(n.as_str());
    if t.len() == 0 || nc.len() == 0 {
        return None;
    }
    let oc = chars_of(owner);
    let ot = ctrimmed(oc.as_slice());
    let owner_id = if ot.len() == 0 {
        String::from_str("unknown_owner")
    } else {
        String::from_str(owner)
    };
    let stale_name = if chars_equal(t.as_slice(), nc.as_slice()) {
        None
    } else {
        Some(string_of(t.as_slice()))
    };
    Some(DetailsKey { avatar_name: n, owner_id, stale_name })
}

/// Whether a lookup goes back in the queue after an attempt: unless the
/// request was sent, answered with a success status, its answer parsed, and
/// the answer reported success.
pub fn needs_retry(sent: bool, status_ok: bool, parsed: bool, accepted: bool) -> (r: bool)
    ensures
        r == !(sent && status_ok && parsed && accepted),
{
    !(sent && status_ok && parsed && accepted)
}

/// The lookups waiting to run, first in first out. A failed lookup goes back
/// at the tail.
pub struct JobQueue {
    jobs: Vec<Lookup>,
}

impl JobQueue {
    pub closed spec fn view(&self) -> Seq<LookupView> {
        lookup_views(self.jobs@)
    }

    pub fn new() -> (r: JobQueue)
        ensures
            r.view() == Seq::<LookupView>::empty(),
    {
        let r = JobQueue { jobs: Vec::new() };
        assert(r.view() =~= Seq::<LookupView>::empty());
        r
    }

    pub fn len(&self) -> (r: usize)
        ensures
            r == self.view().len(),
    {
        self.jobs.len()
    }

    /// Queues a lookup at the tail (a new one, or one to retry).
    pub fn push(&mut self, job: Lookup)
        ensures
            final(self).view() == old(self).view().push(job.view()),
    {
        self.jobs.push(job);
        assert(self.view() =~= old(self).view().push(job.view()));
    }

    /// Takes the lookup at the head.
    pub fn pop(&mut self) -> (r: Option<Lookup>)
        ensures
            match r {
                Some(j) => old(self).view().len() > 0 && j.view() == old(self).view()[0]
                    && final(self).view() == old(self).view().drop_first(),
                None => old(self).view().len() == 0 && final(self).view() == old(self).view(),
            },
    {
        if self.jobs.len() == 0 {
            return None;
        }
        let j = self.jobs.remove(0);
        assert(self.view() =~= old(self).view().drop_first());
        Some(j)
    }
}

} // verus!
