//! What each extraction mode selects from a whole stream, stated over byte sequences.

use vstd::prelude::*;

verus! {

/// The line delimiter, a linefeed byte.
pub const NEWLINE: u8 = 0x0a;

/// One past the end of the line that starts at offset `i` of `s`: just past the
/// first linefeed at or after `i`, or the end of `s` when no linefeed follows.
pub open spec fn line_end(s: Seq<u8>, i: int) -> int
    decreases s.len() - i,
{
    if i >= s.len() {
        s.len() as int
    } else if s[i] == NEWLINE {
        i + 1
    } else {
        line_end(s, i + 1)
    }
}

/// A line that starts inside the stream holds at least one byte and ends inside it.
pub proof fn lemma_line_end_bounds(s: Seq<u8>, i: int)
    requires
        0 <= i < s.len(),
    ensures
        i < line_end(s, i) <= s.len(),
    decreases s.len() - i,
{
    if s[i] != NEWLINE {
        if i + 1 < s.len() {
            lemma_line_end_bounds(s, i + 1);
        } else {
            assert(line_end(s, i + 1) == s.len());
        }
    }
}

/// The lines of `s` from offset `i` on, each with its delimiter; a last line
/// without a delimiter is a line too.
pub open spec fn lines_from(s: Seq<u8>, i: int) -> Seq<Seq<u8>>
    decreases s.len() - i,
{
    if i < 0 || i >= s.len() {
        Seq::empty()
    } else {
        proof {
            lemma_line_end_bounds(s, i);
        }
        seq![s.subrange(i, line_end(s, i))] + lines_from(s, line_end(s, i))
    }
}

/// The lines of a whole stream.
pub open spec fn lines_of(s: Seq<u8>) -> Seq<Seq<u8>> {
    lines_from(s, 0)
}

/// The bytes of a sequence of lines, one after the other.
pub open spec fn flatten(ls: Seq<Seq<u8>>) -> Seq<u8>
    decreases ls.len(),
{
    if ls.len() == 0 {
        Seq::empty()
    } else {
        flatten(ls.drop_last()) + ls.last()
    }
}

/// The first `n` lines of `s` (all of them when it has fewer).
pub open spec fn first_lines(s: Seq<u8>, n: nat) -> Seq<u8> {
    let ls = lines_of(s);
    if n >= ls.len() {
        flatten(ls)
    } else {
        flatten(ls.take(n as int))
    }
}

/// All lines of `s` but the last `n` (nothing when it has `n` or fewer).
pub open spec fn all_but_last_lines(s: Seq<u8>, n: nat) -> Seq<u8> {
    let ls = lines_of(s);
    if n >= ls.len() {
        Seq::empty()
    } else {
        flatten(ls.take(ls.len() - n))
    }
}

/// The first `n` bytes of `s` (all of them when it is shorter).
pub open spec fn first_bytes(s: Seq<u8>, n: nat) -> Seq<u8> {
    if n >= s.len() {
        s
    } else {
        s.take(n as int)
    }
}

/// All bytes of `s` but the last `n` (nothing when it holds `n` or fewer).
pub open spec fn all_but_last_bytes(s: Seq<u8>, n: nat) -> Seq<u8> {
    if n >= s.len() {
        Seq::empty()
    } else {
        s.take(s.len() - n)
    }
}

/// Appending one line to a sequence of lines appends its bytes.
pub proof fn lemma_flatten_push(ls: Seq<Seq<u8>>, l: Seq<u8>)
    ensures
        flatten(ls.push(l)) == flatten(ls) + l,
{
    assert(ls.push(l).drop_last() =~= ls);
}

/// The bytes of two sequences of lines are those of the first, then those of the second.
pub proof fn lemma_flatten_concat(a: Seq<Seq<u8>>, b: Seq<Seq<u8>>)
    ensures
        flatten(a + b) == flatten(a) + flatten(b),
    decreases b.len(),
{
    if b.len() == 0 {
        assert(a + b =~= a);
        assert(flatten(a) + flatten(b) =~= flatten(a));
    } else {
        assert((a + b).drop_last() =~= a + b.drop_last());
        lemma_flatten_concat(a, b.drop_last());
        assert(flatten(a + b) =~= flatten(a) + flatten(b));
    }
}

/// The lines from an offset on hold exactly the bytes from that offset on.
pub proof fn lemma_flatten_lines_from(s: Seq<u8>, i: int)
    requires
        0 <= i <= s.len(),
    ensures
        flatten(lines_from(s, i)) == s.skip(i),
    decreases s.len() - i,
{
    if i == s.len() {
        assert(s.skip(i) =~= Seq::<u8>::empty());
    } else {
        lemma_line_end_bounds(s, i);
        let e = line_end(s, i);
        let x = s.subrange(i, e);
        lemma_flatten_lines_from(s, e);
        lemma_flatten_concat(seq![x], lines_from(s, e));
        assert(seq![x].drop_last() =~= Seq::<Seq<u8>>::empty());
        assert(flatten(Seq::<Seq<u8>>::empty()) == Seq::<u8>::empty());
        assert(flatten(seq![x]) =~= x);
        assert(s.skip(i) =~= x + s.skip(e));
    }
}

} // verus!
