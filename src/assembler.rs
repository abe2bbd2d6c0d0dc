//! Turns bytes appended to a log into whole lines, holding back an
//! unterminated tail until its newline arrives.
use vstd::prelude::*;

verus! {

/// A line as delivered: its bytes without the terminating `\n` and without
/// one trailing `\r`.
pub open spec fn strip_cr(l: Seq<u8>) -> Seq<u8> {
    if l.len() > 0 && l.last() == 13u8 {
        l.drop_last()
    } else {
        l
    }
}

/// Reading `s` with `pending` already buffered: the lines completed, in
/// order, and the bytes still waiting for their newline.
pub open spec fn assemble(pending: Seq<u8>, s: Seq<u8>) -> (Seq<Seq<u8>>, Seq<u8>)
    decreases s.len(),
{
    if s.len() == 0 {
        (Seq::empty(), pending)
    } else {
        let prev = assemble(pending, s.drop_last());
        if s.last() == 10u8 {
            (prev.0.push(strip_cr(prev.1)), Seq::empty())
        } else {
            (prev.0, prev.1.push(s.last()))
        }
    }
}

/// The views of a sequence of byte vectors.
pub open spec fn views(v: Seq<Vec<u8>>) -> Seq<Seq<u8>> {
    v.map_values(|l: Vec<u8>| l@)
}

/// Exactly-once delivery: reading `a` and then `b` delivers the lines that
/// reading `a ++ b` at once would deliver, in the same order, and keeps the
/// same unterminated tail; no line is lost, repeated or reordered however
/// the bytes are split across reads.
pub proof fn lemma_split_reads(pending: Seq<u8>, a: Seq<u8>, b: Seq<u8>)
    ensures
        assemble(pending, a + b).0 == assemble(pending, a).0 + assemble(assemble(pending, a).1, b).0,
        assemble(pending, a + b).1 == assemble(assemble(pending, a).1, b).1,
    decreases b.len(),
{
    if b.len() == 0 {
        assert(a + b =~= a);
        assert(assemble(pending, a).0 + Seq::<Seq<u8>>::empty() =~= assemble(pending, a).0);
    } else {
        assert((a + b).drop_last() =~= a + b.drop_last());
        assert((a + b).last() == b.last());
        lemma_split_reads(pending, a, b.drop_last());
        let x = assemble(pending, a).0;
        let y = assemble(assemble(pending, a).1, b.drop_last()).0;
        assert((x + y).push(strip_cr(assemble(assemble(pending, a).1, b.drop_last()).1))
            =~= x + y.push(strip_cr(assemble(assemble(pending, a).1, b.drop_last()).1)));
    }
}

/// The tail held back never contains a newline, so nothing withheld is a
/// complete line.
pub proof fn lemma_tail_unterminated(pending: Seq<u8>, s: Seq<u8>)
    requires
        !pending.contains(10u8),
    ensures
        !assemble(pending, s).1.contains(10u8),
    decreases s.len(),
{
    if s.len() > 0 {
        lemma_tail_unterminated(pending, s.drop_last());
        let p = assemble(pending, s.drop_last()).1;
        if s.last() != 10u8 {
            assert forall|i: int| 0 <= i < p.push(s.last()).len() implies p.push(s.last())[i] != 10u8 by {
                if i < p.len() {
                    assert(p.push(s.last())[i] == p[i]);
                }
            }
        }
    }
}

/// Line assembly state: the bytes after the last newline seen.
pub struct LineAssembler {
    pending: Vec<u8>,
}

impl LineAssembler {
    pub closed spec fn pending_view(&self) -> Seq<u8> {
        self.pending@
    }

    pub fn new() -> (r: LineAssembler)
        ensures
            r.pending_view() == Seq::<u8>::empty(),
    {
        LineAssembler { pending: Vec::new() }
    }

    /// Bytes waiting for their newline.
    pub fn pending_len(&self) -> (r: usize)
        ensures
            r == self.pending_view().len(),
    {
        self.pending.len()
    }

    /// Hands out the unterminated tail and holds nothing afterwards.
    pub fn take_pending(&mut self) -> (r: Vec<u8>)
        ensures
            r@ == old(self).pending_view(),
            final(self).pending_view() == Seq::<u8>::empty(),
    {
        let mut r: Vec<u8> = Vec::new();
        std::mem::swap(&mut r, &mut self.pending);
        r
    }

    /// Drops the unterminated tail (the file was truncated or replaced).
    pub fn clear(&mut self)
        ensures
            final(self).pending_view() == Seq::<u8>::empty(),
    {
        self.pending = Vec::new();
    }

    /// Appends `bytes` up to the end of the `cap`-th line that they complete,
    /// or all of them where they complete fewer; returns those lines and how
    /// many bytes were taken. The bytes not taken are to be offered again.
    pub fn feed_limited(&mut self, bytes: &[u8], cap: usize) -> (r: (Vec<Vec<u8>>, usize))
        ensures
            r.1 <= bytes@.len(),
            views(r.0@) == assemble(old(self).pending_view(), bytes@.subrange(0, r.1 as int)).0,
            final(self).pending_view() == assemble(old(self).pending_view(), bytes@.subrange(0, r.1 as int)).1,
            r.0@.len() <= cap,
            r.1 < bytes@.len() ==> r.0@.len() == cap,
    {
        let ghost start = self.pending@;
        let mut lines: Vec<Vec<u8>> = Vec::new();
        let mut i: usize = 0;
        while i < bytes.len() && lines.len() < cap
            invariant
                i <= bytes@.len(),
                lines@.len() <= cap,
                views(lines@) == assemble(start, bytes@.subrange(0, i as int)).0,
                self.pending@ == assemble(start, bytes@.subrange(0, i as int)).1,
            decreases bytes.len() - i,
        {
            let b = bytes[i];
            proof {
                let next = bytes@.subrange(0, i + 1);
                assert(next.drop_last() =~= bytes@.subrange(0, i as int));
                assert(next.last() == b);
            }
            if b == 10u8 {
                let mut line: Vec<u8> = Vec::new();
                std::mem::swap(&mut line, &mut self.pending);
                if line.len() > 0 && line[line.len() - 1] == 13u8 {
                    line.pop();
                }
                let ghost before = lines@;
                lines.push(line);
                assert(views(lines@) =~= views(before).push(line@));
            } else {
                self.pending.push(b);
            }
            i = i + 1;
        }
        (lines, i)
    }

    /// Appends `bytes` and returns every line that they complete.
    pub fn feed(&mut self, bytes: &[u8]) -> (lines: Vec<Vec<u8>>)
        ensures
            views(lines@) == assemble(old(self).pending_view(), bytes@).0,
            final(self).pending_view() == assemble(old(self).pending_view(), bytes@).1,
    {
        let ghost start = self.pending@;
        let mut lines: Vec<Vec<u8>> = Vec::new();
        let mut i: usize = 0;
        while i < bytes.len()
            invariant
                i <= bytes@.len(),
                views(lines@) == assemble(start, bytes@.subrange(0, i as int)).0,
                self.pending@ == assemble(start, bytes@.subrange(0, i as int)).1,
            decreases bytes.len() - i,
        {
            let b = bytes[i];
            proof {
                let next = bytes@.subrange(0, i + 1);
                assert(next.drop_last() =~= bytes@.subrange(0, i as int));
                assert(next.last() == b);
            }
            if b == 10u8 {
                let mut line: Vec<u8> = Vec::new();
                std::mem::swap(&mut line, &mut self.pending);
                if line.len() > 0 && line[line.len() - 1] == 13u8 {
                    line.pop();
                }
                let ghost before = lines@;
                lines.push(line);
                assert(views(lines@) =~= views(before).push(line@));
            } else {
                self.pending.push(b);
            }
            i = i + 1;
        }
        assert(bytes@.subrange(0, i as int) =~= bytes@);
        lines
    }
}

} // verus!
