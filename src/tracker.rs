//! Following the current log file: which file is current, when a new one
//! calls for a purge, where the read cursor stands, and the lines that the
//! bytes read complete.
use vstd::prelude::*;
use vstd::string::StringSliceAdditionalSpecFns;
use crate::assembler::{LineAssembler, assemble, views};
use crate::bytes::{occurs_at, first_byte, matches_at, find_byte, copy_range, same};

verus! {

pub open spec fn kw_log_prefix() -> Seq<u8> { "output_log_".spec_bytes() }
pub open spec fn kw_log_suffix() -> Seq<u8> { ".txt".spec_bytes() }

/// A file name of the client's session logs: `output_log_*.txt`.
pub open spec fn is_log_name(n: Seq<u8>) -> bool {
    occurs_at(n, kw_log_prefix(), 0) && n.len() >= kw_log_suffix().len() && occurs_at(
        n,
        kw_log_suffix(),
        n.len() - kw_log_suffix().len(),
    )
}

pub fn is_log_file_name(name: &[u8]) -> (r: bool)
    ensures
        r == is_log_name(name@),
{
    let suffix = ".txt".as_bytes();
    matches_at(name, "output_log_".as_bytes(), 0) && name.len() >= suffix.len() && matches_at(
        name,
        suffix,
        name.len() - suffix.len(),
    )
}

/// The log file to follow among directory entries (names with their
/// modification times): a log-named entry modified last, the first of
/// several such.
pub fn pick_latest(names: &Vec<Vec<u8>>, mtimes: &Vec<u64>) -> (r: Option<usize>)
    requires
        names@.len() == mtimes@.len(),
    ensures
        match r {
            Some(i) => i < names@.len() && is_log_name(names@[i as int]@) && forall|j: int|
                0 <= j < names@.len() && is_log_name(#[trigger] names@[j]@) ==> mtimes@[j]
                    <= mtimes@[i as int] && (j < i ==> mtimes@[j] < mtimes@[i as int]),
            None => forall|j: int| 0 <= j < names@.len() ==> !is_log_name(#[trigger] names@[j]@),
        },
{
    let mut best: Option<usize> = None;
    let mut i: usize = 0;
    while i < names.len()
        invariant
            names@.len() == mtimes@.len(),
            i <= names@.len(),
            match best {
                Some(b) => b < i && is_log_name(names@[b as int]@) && forall|j: int|
                    0 <= j < i && is_log_name(#[trigger] names@[j]@) ==> mtimes@[j] <= mtimes@[b as int]
                        && (j < b ==> mtimes@[j] < mtimes@[b as int]),
                None => forall|j: int| 0 <= j < i ==> !is_log_name(#[trigger] names@[j]@),
            },
        decreases names.len() - i,
    {
        if is_log_file_name(names[i].as_slice()) {
            match best {
                None => {
                    best = Some(i);
                },
                Some(b) => {
                    if mtimes[i] > mtimes[b] {
                        best = Some(i);
                    }
                },
            }
        }
        i = i + 1;
    }
    best
}

/// Whether opening the log `name` calls for a purge of open rows: the last
/// run followed another file (or none is recorded).
pub fn rotation_needs_purge(prev: Option<&[u8]>, name: &[u8]) -> (r: bool)
    ensures
        r == match prev {
            Some(p) => p@ != name@,
            None => true,
        },
{
    match prev {
        Some(p) => !same(p, name),
        None => true,
    }
}

/// How many bytes at the end of the file the cold-start scan reads.
pub const SCAN_WINDOW: u64 = 4 * 1024 * 1024;

/// Where the cold-start scan starts in a file of `len` bytes.
pub fn scan_start(len: u64) -> (r: u64)
    ensures
        r == if len > SCAN_WINDOW {
            len - SCAN_WINDOW
        } else {
            0
        },
{
    if len > SCAN_WINDOW {
        len - SCAN_WINDOW
    } else {
        0
    }
}

/// The part of a scanned window that holds whole lines: all of it, or, where
/// the window starts inside a line, what follows that line's newline.
pub open spec fn window_body(w: Seq<u8>, mid: bool) -> Seq<u8> {
    if mid {
        match first_byte(w, 10u8, 0) {
            Some(p) => w.subrange(p + 1, w.len() as int),
            None => w,
        }
    } else {
        w
    }
}

/// The lines of a scanned window: every terminated line, then what follows
/// the last newline.
pub open spec fn window_split(w: Seq<u8>, mid: bool) -> Seq<Seq<u8>> {
    let a = assemble(Seq::empty(), window_body(w, mid));
    a.0.push(a.1)
}

/// Splits the window that the cold-start scan read into lines.
pub fn window_lines(window: &[u8], mid: bool) -> (r: Vec<Vec<u8>>)
    ensures
        views(r@) == window_split(window@, mid),
{
    let len = window.len();
    let body = if mid {
        match find_byte(window, 10u8, 0) {
            Some(p) => copy_range(window, p + 1, len),
            None => copy_range(window, 0, len),
        }
    } else {
        copy_range(window, 0, len)
    };
    assert(window@.subrange(0, len as int) =~= window@);
    let mut joiner = LineAssembler::new();
    let mut lines = joiner.feed(body.as_slice());
    let ghost before = lines@;
    let tail = joiner.take_pending();
    lines.push(tail);
    assert(views(lines@) =~= views(before).push(tail@));
    lines
}

/// The read position in the current file and the unterminated tail read so far.
pub struct Tracker {
    cursor: u64,
    assembler: LineAssembler,
}

impl Tracker {
    pub closed spec fn cursor(&self) -> u64 {
        self.cursor
    }

    pub closed spec fn pending(&self) -> Seq<u8> {
        self.assembler.pending_view()
    }

    /// No file open yet.
    pub fn new() -> (r: Tracker)
        ensures
            r.cursor() == 0,
            r.pending() == Seq::<u8>::empty(),
    {
        Tracker { cursor: 0, assembler: LineAssembler::new() }
    }

    pub fn position(&self) -> (r: u64)
        ensures
            r == self.cursor(),
    {
        self.cursor
    }

    /// A freshly opened file: live reading starts at its end as it was when
    /// scanned, so that nothing written before is delivered again.
    pub fn open_at(&mut self, len: u64)
        ensures
            final(self).cursor() == len,
            final(self).pending() == Seq::<u8>::empty(),
    {
        self.cursor = len;
        self.assembler.clear();
    }

    /// Looks at the file's length: where it fell below the cursor the file
    /// was truncated, and reading starts over at 0 with nothing pending.
    /// Returns whether that happened.
    pub fn observe_len(&mut self, len: u64) -> (r: bool)
        ensures
            r == (len < old(self).cursor()),
            r ==> final(self).cursor() == 0 && final(self).pending() == Seq::<u8>::empty(),
            !r ==> *final(self) == *old(self),
    {
        if len < self.cursor {
            self.cursor = 0;
            self.assembler.clear();
            true
        } else {
            false
        }
    }

    /// How many bytes past the cursor a file of `len` bytes holds.
    pub fn unread(&self, len: u64) -> (r: u64)
        ensures
            r == if len > self.cursor() {
                len - self.cursor()
            } else {
                0
            },
    {
        if len > self.cursor {
            len - self.cursor
        } else {
            0
        }
    }

    /// Takes the bytes read at the cursor up to the end of the `cap`-th line
    /// they complete (all of them where they complete fewer); returns those
    /// lines. The cursor moves past what was taken, so the next read resumes
    /// right after the last line delivered.
    pub fn consume_limited(&mut self, bytes: &[u8], cap: usize) -> (lines: Vec<Vec<u8>>)
        requires
            old(self).cursor() + bytes@.len() <= u64::MAX,
        ensures
            ({
                let used = final(self).cursor() - old(self).cursor();
                &&& 0 <= used <= bytes@.len()
                &&& views(lines@) == assemble(old(self).pending(), bytes@.subrange(0, used)).0
                &&& final(self).pending() == assemble(old(self).pending(), bytes@.subrange(0, used)).1
                &&& lines@.len() <= cap
                &&& used < bytes@.len() ==> lines@.len() == cap
            }),
    {
        let (lines, used) = self.assembler.feed_limited(bytes, cap);
        self.cursor = self.cursor + used as u64;
        lines
    }

    /// Takes the bytes read at the cursor; returns the lines they complete.
    pub fn consume(&mut self, bytes: &[u8]) -> (lines: Vec<Vec<u8>>)
        requires
            old(self).cursor() + bytes@.len() <= u64::MAX,
        ensures
            final(self).cursor() == old(self).cursor() + bytes@.len(),
            views(lines@) == assemble(old(self).pending(), bytes@).0,
            final(self).pending() == assemble(old(self).pending(), bytes@).1,
    {
        self.cursor = self.cursor + bytes.len() as u64;
        self.assembler.feed(bytes)
    }
}

} // verus!
