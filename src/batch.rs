//! The watchlist batch: user ids seen joining, gathered until a quiet
//! period has passed, then checked against the group watchlists at once.
use vstd::prelude::*;
use crate::bytes::{copy_range, same};
use crate::assembler::views;

verus! {

/// A debounced set of user ids. Each addition hands out a ticket; only the
/// newest ticket may take the batch, so a flush scheduled before the last
/// addition finds nothing to do.
pub struct BatcherState {
    pending: Vec<Vec<u8>>,
    generation: u64,
}

/// `ids` with `id` added where it is not there yet.
pub open spec fn with_id(ids: Seq<Seq<u8>>, id: Seq<u8>) -> Seq<Seq<u8>> {
    if ids.contains(id) {
        ids
    } else {
        ids.push(id)
    }
}

impl BatcherState {
    pub closed spec fn ids(&self) -> Seq<Seq<u8>> {
        views(self.pending@)
    }

    pub closed spec fn ticket(&self) -> u64 {
        self.generation
    }

    pub fn new() -> (r: BatcherState)
        ensures
            r.ids() == Seq::<Seq<u8>>::empty(),
            r.ticket() == 0,
    {
        let r = BatcherState { pending: Vec::new(), generation: 0 };
        assert(r.ids() =~= Seq::<Seq<u8>>::empty());
        r
    }

    /// Adds a user id and restarts the quiet period; returns the ticket of
    /// the flush to schedule.
    pub fn add_user(&mut self, id: &[u8]) -> (r: u64)
        requires
            old(self).ticket() < u64::MAX,
        ensures
            final(self).ids() == with_id(old(self).ids(), id@),
            r == final(self).ticket(),
            final(self).ticket() == old(self).ticket() + 1,
    {
        let mut i: usize = 0;
        let mut found = false;
        while i < self.pending.len()
            invariant
                i <= self.pending@.len(),
                found ==> self.ids().contains(id@),
                !found ==> forall|k: int| 0 <= k < i ==> self.ids()[k] != id@,
            decreases self.pending.len() - i,
        {
            if !found && same(self.pending[i].as_slice(), id) {
                assert(self.ids()[i as int] == id@);
                found = true;
            }
            i = i + 1;
        }
        if !found {
            assert(!self.ids().contains(id@));
            let v = copy_range(id, 0, id.len());
            assert(id@.subrange(0, id@.len() as int) =~= id@);
            self.pending.push(v);
            assert(self.ids() =~= old(self).ids().push(id@));
        }
        self.generation = self.generation + 1;
        self.generation
    }

    /// The flush with `ticket`: where no addition came after it, hands out
    /// the gathered ids and starts an empty batch; else `None`.
    pub fn flush(&mut self, ticket: u64) -> (r: Option<Vec<Vec<u8>>>)
        ensures
            match r {
                Some(v) => ticket == old(self).ticket() && views(v@) == old(self).ids()
                    && final(self).ids() == Seq::<Seq<u8>>::empty(),
                None => ticket != old(self).ticket() && *final(self) == *old(self),
            },
            final(self).ticket() == old(self).ticket(),
    {
        if ticket != self.generation {
            return None;
        }
        let mut taken: Vec<Vec<u8>> = Vec::new();
        std::mem::swap(&mut taken, &mut self.pending);
        assert(self.ids() =~= Seq::<Seq<u8>>::empty());
        Some(taken)
    }
}

/// Whether a flushed batch is sent: it holds ids and some group access
/// token is stored.
pub fn should_send(ids: usize, tokens: usize) -> (r: bool)
    ensures
        r == (ids > 0 && tokens > 0),
{
    ids > 0 && tokens > 0
}

/// A group's access token, as stored.
pub struct GroupAccessToken {
    pub group_id: String,
    pub group_name: String,
    pub access_token: String,
}

/// A watchlist match that the group service reported.
pub struct GroupMatch {
    pub user_id: String,
    pub group_id: String,
    pub group_name: Option<String>,
    pub watchlist: bool,
    pub notes: Option<String>,
    pub notifications: bool,
}

/// Moderation counts that the group service reported for a user.
pub struct GroupAggregate {
    pub user_id: String,
    pub warns: i64,
    pub kicks: i64,
    pub bans: i64,
}

/// The group service's answer to a watchlist batch.
pub struct CheckUserResponse {
    pub matches: Vec<GroupMatch>,
    pub aggregates: Vec<GroupAggregate>,
}

/// Some match of the answer is for `user` and asks for a notification.
pub open spec fn notifies(matches: Seq<GroupMatch>, user: Seq<char>) -> bool {
    exists|i: int| 0 <= i < matches.len() && (#[trigger] matches[i]).user_id@ == user && matches[i].notifications
}

/// Whether the group service asked to be told when `user` joins.
pub fn group_notifies(resp: &CheckUserResponse, user: &str) -> (r: bool)
    ensures
        r == notifies(resp.matches@, user@),
{
    let u = crate::avatar::chars_of(user);
    let mut i: usize = 0;
    while i < resp.matches.len()
        invariant
            i <= resp.matches@.len(),
            u@ == user@,
            forall|k: int| 0 <= k < i ==> !((#[trigger] resp.matches@[k]).user_id@ == user@
                && resp.matches@[k].notifications),
        decreases resp.matches.len() - i,
    {
        let m = &resp.matches[i];
        if m.notifications {
            let c = crate::avatar::chars_of(m.user_id.as_str());
            if c.len() == u.len() && crate::avatar::chars_equal(c.as_slice(), u.as_slice()) {
                return true;
            }
        }
        i = i + 1;
    }
    false
}

} // verus!
