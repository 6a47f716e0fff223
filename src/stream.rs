//! The extraction engine as state machines, one step per read. The caller reads
//! the stream (a line, or a block of bytes) and hands each piece in; the machine
//! answers with the bytes to write now. Memory is bounded by what the mode must
//! hold back: N lines, or two blocks of bytes.

use vstd::prelude::*;
use crate::window::all_but_last_bytes;

verus! {

/// The least block size of the backward byte window, whatever the count.
pub const BLOCK_FLOOR: usize = 32 * 1024;

/// Passes on the first `limit` lines of a stream.
pub struct FirstLines {
    remaining: usize,
    limit: Ghost<nat>,
    seen: Ghost<Seq<Seq<u8>>>,
}

impl FirstLines {
    /// The lines handed in so far, which are all written.
    pub closed spec fn lines_seen(&self) -> Seq<Seq<u8>> {
        self.seen@
    }

    /// How many lines are passed on in all.
    pub closed spec fn limit(&self) -> nat {
        self.limit@
    }

    pub closed spec fn wf(&self) -> bool {
        self.seen@.len() + self.remaining == self.limit@
    }

    pub fn new(line_count: usize) -> (r: Self)
        ensures
            r.wf(),
            r.limit() == line_count,
            r.lines_seen() == Seq::<Seq<u8>>::empty(),
    {
        FirstLines { remaining: line_count, limit: Ghost(line_count as nat), seen: Ghost(Seq::empty()) }
    }

    /// Whether another line is wanted; once not, reading can stop.
    pub fn wants_more(&self) -> (r: bool)
        requires
            self.wf(),
        ensures
            r == (self.lines_seen().len() < self.limit()),
            self.lines_seen().len() <= self.limit(),
    {
        self.remaining > 0
    }

    /// Takes the next line of the stream and gives it back to be written.
    pub fn push_line(&mut self, line: Vec<u8>) -> (out: Vec<u8>)
        requires
            old(self).wf(),
            old(self).lines_seen().len() < old(self).limit(),
        ensures
            final(self).wf(),
            final(self).limit() == old(self).limit(),
            final(self).lines_seen() == old(self).lines_seen().push(line@),
            out@ == line@,
    {
        self.remaining = self.remaining - 1;
        self.seen = Ghost(self.seen@.push(line@));
        line
    }
}

/// The lines of a sequence of lines that stay held back when the last `n` are
/// kept: the last `n`, or all when there are fewer.
pub open spec fn held_lines(seen: Seq<Seq<u8>>, n: nat) -> Seq<Seq<u8>> {
    if seen.len() <= n {
        seen
    } else {
        seen.subrange(seen.len() - n, seen.len() as int)
    }
}

/// The lines that have left the queue: all but the last `n`.
pub open spec fn released_lines(seen: Seq<Seq<u8>>, n: nat) -> Seq<Seq<u8>> {
    if seen.len() <= n {
        Seq::empty()
    } else {
        seen.take(seen.len() - n)
    }
}

/// Passes on all lines of a stream but the last `count`, holding at most
/// `count` lines back at any time.
pub struct LastLinesHeld {
    store: std::collections::VecDeque<Vec<u8>>,
    count: usize,
    seen: Ghost<Seq<Seq<u8>>>,
}

impl LastLinesHeld {
    /// The lines handed in so far.
    pub closed spec fn lines_seen(&self) -> Seq<Seq<u8>> {
        self.seen@
    }

    /// How many trailing lines are held back.
    pub closed spec fn count(&self) -> nat {
        self.count as nat
    }

    /// The lines held back now, oldest first.
    pub closed spec fn held(&self) -> Seq<Seq<u8>> {
        self.store@.map_values(|l: Vec<u8>| l@)
    }

    pub closed spec fn wf(&self) -> bool {
        self.held() == held_lines(self.seen@, self.count as nat)
    }

    pub fn new(count: usize) -> (r: Self)
        ensures
            r.wf(),
            r.count() == count,
            r.lines_seen() == Seq::<Seq<u8>>::empty(),
    {
        let r = LastLinesHeld {
            store: std::collections::VecDeque::new(),
            count,
            seen: Ghost(Seq::empty()),
        };
        assert(r.held() =~= Seq::<Seq<u8>>::empty());
        r
    }

    /// Takes the next line of the stream. Once `count` lines are held, the
    /// oldest of them leaves the queue to be written.
    pub fn push_line(&mut self, line: Vec<u8>) -> (out: Option<Vec<u8>>)
        requires
            old(self).wf(),
        ensures
            final(self).wf(),
            final(self).count() == old(self).count(),
            final(self).lines_seen() == old(self).lines_seen().push(line@),
            released_lines(final(self).lines_seen(), final(self).count()) == match out {
                Some(l) => released_lines(old(self).lines_seen(), old(self).count()).push(l@),
                None => released_lines(old(self).lines_seen(), old(self).count()),
            },
    {
        let ghost old_seen = self.seen@;
        let ghost n = self.count as nat;
        let ghost l = line@;
        let ghost old_held = self.held();
        self.store.push_back(line);
        self.seen = Ghost(old_seen.push(l));
        let ghost seen = self.seen@;
        assert(self.held() =~= old_held.push(l));
        let ghost pushed = self.held();
        if self.store.len() > self.count {
            let out = self.store.pop_front();
            proof {
                assert(old_seen.len() >= n);
                assert(pushed[0] == seen[seen.len() - n - 1]);
                assert(out matches Some(x) && x@ == pushed[0]);
                assert(self.held() =~= old_held.push(l).subrange(1, old_held.len() as int + 1));
                assert(self.held() =~= held_lines(seen, n));
                assert(seen.take(seen.len() - n) =~= released_lines(old_seen, n).push(
                    seen[seen.len() - n - 1],
                ));
            }
            out
        } else {
            proof {
                assert(old_seen.len() < n);
                assert(self.held() =~= held_lines(seen, n));
                assert(released_lines(seen, n) =~= released_lines(old_seen, n));
            }
            None
        }
    }
}

/// Passes on all bytes of a stream but the last `keep`, read in blocks of a
/// fixed size. The last full block is held back until the next one is full; a
/// short block ends the stream.
pub struct LastBytesHeld {
    prev: Vec<u8>,
    keep: usize,
    block: usize,
    seen: Ghost<Seq<u8>>,
}

impl LastBytesHeld {
    /// The bytes handed in so far.
    pub closed spec fn bytes_seen(&self) -> Seq<u8> {
        self.seen@
    }

    /// How many trailing bytes are held back.
    pub closed spec fn keep(&self) -> nat {
        self.keep as nat
    }

    /// The size of a full block.
    pub closed spec fn block(&self) -> nat {
        self.block as nat
    }

    /// How many of the bytes seen have been given back to be written.
    pub closed spec fn released_len(&self) -> nat {
        (self.seen@.len() - self.prev@.len()) as nat
    }

    pub closed spec fn wf(&self) -> bool {
        &&& self.block > 0
        &&& self.keep <= self.block
        &&& self.prev@.len() <= self.seen@.len()
        &&& self.prev@ == self.seen@.skip(self.seen@.len() - self.prev@.len())
        &&& (self.prev@.len() == 0 || self.prev@.len() == self.block)
        &&& (self.seen@.len() > self.prev@.len() ==> self.prev@.len() == self.block)
    }

    /// A window that holds back `keep` bytes, with blocks of the given size.
    pub fn with_block(keep: usize, block: usize) -> (r: Self)
        requires
            0 < block,
            keep <= block,
        ensures
            r.wf(),
            r.keep() == keep,
            r.block() == block,
            r.bytes_seen() == Seq::<u8>::empty(),
            r.released_len() == 0,
    {
        let r = LastBytesHeld { prev: Vec::new(), keep, block, seen: Ghost(Seq::empty()) };
        assert(r.seen@.skip(0) =~= r.prev@);
        r
    }

    /// A window that holds back `keep` bytes, with blocks of `keep` bytes but
    /// no fewer than the floor.
    pub fn new(keep: usize) -> (r: Self)
        ensures
            r.wf(),
            r.keep() == keep,
            r.block() == if keep > BLOCK_FLOOR { keep } else { BLOCK_FLOOR },
            r.bytes_seen() == Seq::<u8>::empty(),
            r.released_len() == 0,
    {
        let block = if keep > BLOCK_FLOOR { keep } else { BLOCK_FLOOR };
        Self::with_block(keep, block)
    }

    /// The size of a full block: how many bytes to ask of each read.
    pub fn block_size(&self) -> (r: usize)
        ensures
            r == self.block(),
    {
        self.block
    }

    /// The capacity to give a read buffer up front: the block size, or nothing
    /// where the block is past the floor, so that memory grows with what is
    /// actually read rather than with the count.
    pub fn buffer_capacity(&self) -> (r: usize)
        ensures
            r == if self.block() > BLOCK_FLOOR { 0 } else { self.block() },
    {
        if self.block > BLOCK_FLOOR {
            0
        } else {
            self.block
        }
    }

    /// Takes a full block; gives back the block held before it, to be written.
    pub fn push_full(&mut self, chunk: Vec<u8>) -> (out: Vec<u8>)
        requires
            old(self).wf(),
            chunk@.len() == old(self).block(),
        ensures
            final(self).wf(),
            final(self).keep() == old(self).keep(),
            final(self).block() == old(self).block(),
            final(self).bytes_seen() == old(self).bytes_seen() + chunk@,
            final(self).bytes_seen().take(final(self).released_len() as int) == old(
                self,
            ).bytes_seen().take(old(self).released_len() as int) + out@,
    {
        let ghost old_seen = self.seen@;
        let ghost old_prev = self.prev@;
        let mut c = chunk;
        std::mem::swap(&mut self.prev, &mut c);
        self.seen = Ghost(old_seen + self.prev@);
        proof {
            let s = self.seen@;
            assert(self.prev@ =~= s.skip(s.len() - self.prev@.len()));
            assert(s.take(s.len() - self.prev@.len()) =~= old_seen.take(
                old_seen.len() - old_prev.len(),
            ) + c@);
        }
        c
    }

    /// Takes the last, short block and gives back what of the held bytes is
    /// still to be written: all of the stream but its last `keep` bytes, after
    /// what was given back before.
    pub fn finish(self, last: Vec<u8>) -> (out: Vec<u8>)
        requires
            self.wf(),
            last@.len() < self.block(),
        ensures
            self.bytes_seen().take(self.released_len() as int) + out@ == all_but_last_bytes(
                self.bytes_seen() + last@,
                self.keep(),
            ),
    {
        let ghost seen = self.seen@;
        let ghost prev = self.prev@;
        let ghost w = prev + last@;
        let ghost t = seen + last@;
        let ghost e = seen.len() - prev.len();
        let keep = self.keep;
        let mut out = self.prev;
        let mut last = last;
        if keep < last.len() {
            let n = last.len() - keep;
            last.truncate(n);
            out.append(&mut last);
            proof {
                assert(t.take(e) + out@ =~= t.take(t.len() - keep));
            }
        } else {
            let short = keep - last.len();
            let pl = out.len();
            let cut = if short < pl { short } else { pl };
            out.truncate(pl - cut);
            proof {
                if short < pl {
                    assert(t.take(e) + out@ =~= t.take(t.len() - keep));
                } else if e > 0 {
                    assert(t.len() - keep == e);
                    assert(t.take(e) + out@ =~= t.take(t.len() - keep));
                } else {
                    assert(t.take(e) + out@ =~= Seq::<u8>::empty());
                }
            }
        }
        out
    }
}

} // verus!
