//! The log search: a case-insensitive line search, run in batches, that a
//! newer search cancels.
use vstd::prelude::*;
use crate::avatar::{cfirst, chars_of, cfind};

verus! {

/// The lower-case form of a text, as `str::to_lowercase` gives it.
pub uninterp spec fn lower_of(s: Seq<char>) -> Seq<char>;

/// Relies on `str::to_lowercase`: the result depends on the text alone, and
/// an empty text stays empty.
#[verifier::external_body]
pub(crate) fn lowercase(s: &str) -> (r: String)
    ensures
        r@ == lower_of(s@),
        s@.len() == 0 ==> r@.len() == 0,
{
    s.to_lowercase()
}

/// `needle` occurs in `hay`.
pub open spec fn has_text(hay: Seq<char>, needle: Seq<char>) -> bool {
    cfirst(hay, needle, 0) is Some
}

/// Whether an already lower-cased line holds an already lower-cased needle.
pub fn matches_lowered(line: &str, needle: &str) -> (r: bool)
    ensures
        r == has_text(line@, needle@),
{
    let h = chars_of(line);
    let n = chars_of(needle);
    cfind(h.as_slice(), n.as_slice()).is_some()
}

/// Whether `line` holds `query`, ignoring case.
pub fn line_matches(line: &str, query: &str) -> (r: bool)
    ensures
        r == has_text(lower_of(line@), lower_of(query@)),
{
    let l = lowercase(line);
    let q = lowercase(query);
    matches_lowered(l.as_str(), q.as_str())
}

/// The indices in `[from, to)` of the lines that hold `query`, ignoring
/// case, in ascending order.
pub open spec fn matching(lines: Seq<Seq<char>>, query: Seq<char>, from: int, to: int) -> Seq<usize>
    decreases to - from,
{
    if to <= from {
        Seq::empty()
    } else {
        let prev = matching(lines, query, from, to - 1);
        if has_text(lower_of(lines[to - 1]), lower_of(query)) {
            prev.push((to - 1) as usize)
        } else {
            prev
        }
    }
}

pub open spec fn string_views(v: Seq<String>) -> Seq<Seq<char>> {
    v.map_values(|s: String| s@)
}

/// One batch of the search: the matching lines among `lines[from..to]`.
pub fn search_batch(lines: &Vec<String>, query: &str, from: usize, to: usize) -> (r: Vec<usize>)
    requires
        from <= to <= lines@.len(),
    ensures
        r@ == matching(string_views(lines@), query@, from as int, to as int),
{
    let ghost ls = string_views(lines@);
    let mut out: Vec<usize> = Vec::new();
    let mut i = from;
    while i < to
        invariant
            from <= i <= to <= lines@.len(),
            ls == string_views(lines@),
            out@ == matching(ls, query@, from as int, i as int),
        decreases to - i,
    {
        assert(ls[i as int] == lines@[i as int]@);
        if line_matches(lines[i].as_str(), query) {
            out.push(i);
        }
        i = i + 1;
    }
    out
}

/// The lines searched per batch.
pub const SEARCH_BATCH: usize = 1000;

/// The share of `total` lines that `done` lines are, in percent, rounded to
/// the nearest integer (halves up).
pub fn progress_percent(done: u64, total: u64) -> (r: u64)
    requires
        0 < total,
        done <= total,
    ensures
        r == (200 * done + total) / (2 * total),
{
    let d = done as u128;
    let t = total as u128;
    assert(200 * d + t <= 201 * t) by (nonlinear_arith)
        requires
            d <= t,
    ;
    let q = (200 * d + t) / (2 * t);
    assert(q <= 100) by (nonlinear_arith)
        requires
            q == (200 * d + t) / (2 * t),
            d <= t,
            0 < t,
    ;
    q as u64
}

/// The token of the search that is current; a search with any other token
/// stops at its next batch.
pub struct SearchState {
    current: i32,
}

/// The token to cancel when `token` becomes current in place of `previous`
/// (`0`: none was running).
pub open spec fn displaced(previous: i32, token: i32) -> Option<i32> {
    if previous != 0 && previous != token {
        Some(previous)
    } else {
        None
    }
}

impl SearchState {
    pub closed spec fn token(&self) -> i32 {
        self.current
    }

    pub fn new() -> (r: SearchState)
        ensures
            r.token() == 0,
    {
        SearchState { current: 0 }
    }

    /// Makes `token` current; returns the token of the search it displaces.
    pub fn begin(&mut self, token: i32) -> (r: Option<i32>)
        ensures
            final(self).token() == token,
            r == displaced(old(self).token(), token),
    {
        let previous = self.current;
        self.current = token;
        if previous != 0 && previous != token {
            Some(previous)
        } else {
            None
        }
    }

    /// The current token.
    pub fn current(&self) -> (r: i32)
        ensures
            r == self.token(),
    {
        self.current
    }

    /// Whether the search with `token` may run its next batch.
    pub fn is_current(&self, token: i32) -> (r: bool)
        ensures
            r == (self.token() == token),
    {
        self.current == token
    }
}

/// Cancellation: once a newer token is current, a search with an older token
/// is no longer current (it emits no further progress and stops cancelled),
/// and where it was the one running it is named for cancellation.
pub proof fn lemma_newer_cancels(previous: i32, older: i32, newer: i32)
    requires
        older != newer,
    ensures
        !(newer == older),
        previous == older && older != 0 ==> displaced(previous, newer) == Some(older),
{
}

/// What a running search does next.
pub enum SearchStep {
    /// A newer search is current: stop with a cancelled error, emitting nothing.
    Cancelled,
    /// Search `lines[from..to]`, then report `progress` percent.
    Batch { from: usize, to: usize, progress: u64 },
    /// Every line was searched.
    Done,
}

/// The next step of the search with `token` that has searched `from` of
/// `total` lines, while `current` is the current token.
pub fn search_step(current: i32, token: i32, from: usize, total: usize) -> (r: SearchStep)
    ensures
        current != token ==> r is Cancelled,
        current == token && from >= total ==> r is Done,
        current == token && from < total ==> r == (SearchStep::Batch {
            from,
            to: if total - from > SEARCH_BATCH {
                (from + SEARCH_BATCH) as usize
            } else {
                total
            },
            progress: ((200 * from + total) / (2 * total)) as u64,
        }),
{
    if current != token {
        return SearchStep::Cancelled;
    }
    if from >= total {
        return SearchStep::Done;
    }
    let to = if total - from > SEARCH_BATCH {
        from + SEARCH_BATCH
    } else {
        total
    };
    SearchStep::Batch { from, to, progress: progress_percent(from as u64, total as u64) }
}

/// The part of a file of `size` bytes that a chunked read from `offset` of
/// at most `max_bytes` covers: the offset clamped to the file, and as many
/// bytes as fit before its end.
pub fn chunk_range(offset: u64, max_bytes: u32, size: u64) -> (r: (u64, u64))
    ensures
        r.0 == if offset < size {
            offset
        } else {
            size
        },
        r.1 == if (max_bytes as u64) < size - r.0 {
            max_bytes as u64
        } else {
            (size - r.0) as u64
        },
{
    let start = if offset < size {
        offset
    } else {
        size
    };
    let room = size - start;
    let len = if (max_bytes as u64) < room {
        max_bytes as u64
    } else {
        room
    };
    (start, len)
}

/// Whether a chunked read that ended at `end` reached the end of the file.
pub fn chunk_eof(end: u64, size: u64) -> (r: bool)
    ensures
        r == (end >= size),
{
    end >= size
}

} // verus!
