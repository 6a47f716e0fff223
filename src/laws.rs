//! Laws that relate the extraction windows to the stream and to each other.

use vstd::prelude::*;
use crate::window::{
    lines_of, flatten, first_lines, all_but_last_lines, first_bytes, all_but_last_bytes,
    lemma_flatten_concat, lemma_flatten_lines_from,
};

verus! {

/// Splitting a stream into lines loses and adds nothing: its lines, one after
/// the other, are the stream.
pub proof fn lemma_lines_rebuild_stream(s: Seq<u8>)
    ensures
        flatten(lines_of(s)) == s,
{
    lemma_flatten_lines_from(s, 0);
    assert(s.skip(0) =~= s);
}

/// The first `n` lines are byte for byte the start of the stream, delimiters
/// included.
pub proof fn lemma_first_lines_prefix(s: Seq<u8>, n: nat)
    ensures
        first_lines(s, n) == s.take(first_lines(s, n).len() as int),
        n >= lines_of(s).len() ==> first_lines(s, n) == s,
{
    let ls = lines_of(s);
    lemma_lines_rebuild_stream(s);
    if n < ls.len() {
        assert(ls =~= ls.take(n as int) + ls.skip(n as int));
        lemma_flatten_concat(ls.take(n as int), ls.skip(n as int));
        assert(s.take(first_lines(s, n).len() as int) =~= first_lines(s, n));
    } else {
        assert(s.take(s.len() as int) =~= s);
    }
}

/// All lines but the last `n` are byte for byte the start of the stream; with
/// `n` zero they are the whole stream, and with `n` at least the number of
/// lines they are empty.
pub proof fn lemma_all_but_last_lines_prefix(s: Seq<u8>, n: nat)
    ensures
        all_but_last_lines(s, n) == s.take(all_but_last_lines(s, n).len() as int),
        n == 0 ==> all_but_last_lines(s, n) == s,
        n >= lines_of(s).len() ==> all_but_last_lines(s, n) == Seq::<u8>::empty(),
{
    let ls = lines_of(s);
    lemma_lines_rebuild_stream(s);
    if n < ls.len() {
        let k = ls.len() - n;
        assert(ls =~= ls.take(k) + ls.skip(k));
        lemma_flatten_concat(ls.take(k), ls.skip(k));
        assert(s.take(all_but_last_lines(s, n).len() as int) =~= all_but_last_lines(s, n));
        if n == 0 {
            assert(ls.take(k) =~= ls);
        }
    } else {
        assert(s.take(0) =~= Seq::<u8>::empty());
        if n == 0 {
            assert(ls.len() == 0);
            assert(s.len() == 0) by {
                assert(flatten(ls) == Seq::<u8>::empty());
            }
            assert(s =~= Seq::<u8>::empty());
        }
    }
}

/// The first `k` bytes are the whole stream once `k` reaches its length; all
/// but the last `k` bytes are then empty.
pub proof fn lemma_byte_windows_saturate(s: Seq<u8>, k: nat)
    requires
        k >= s.len(),
    ensures
        first_bytes(s, k) == s,
        all_but_last_bytes(s, k) == Seq::<u8>::empty(),
{
}

/// The first `k` bytes followed by all but the last `k` bytes give the stream
/// back when `k` is at most its length, for every stream whose bytes repeat
/// with period `k` (the two windows then overlap in equal bytes); past its
/// length the first window is the whole stream and the second is empty.
pub proof fn lemma_byte_windows_round_trip(s: Seq<u8>, k: nat)
    requires
        k <= s.len() ==> forall|i: int| 0 <= i < s.len() - k ==> s[i + k] == #[trigger] s[i],
    ensures
        k <= s.len() ==> first_bytes(s, k) + all_but_last_bytes(s, k) == s,
        k > s.len() ==> first_bytes(s, k) == s && all_but_last_bytes(s, k) == Seq::<u8>::empty(),
{
    if k < s.len() {
        assert(first_bytes(s, k) + all_but_last_bytes(s, k) =~= s);
    } else if k == s.len() {
        assert(first_bytes(s, k) + all_but_last_bytes(s, k) =~= s);
    }
}

/// All but the last `k` bytes, followed by those last `k` bytes, are the stream:
/// the backward window drops exactly the trailing `k` bytes.
pub proof fn lemma_all_but_last_bytes_complement(s: Seq<u8>, k: nat)
    requires
        k <= s.len(),
    ensures
        all_but_last_bytes(s, k) + s.skip(s.len() - k) == s,
        all_but_last_bytes(s, k).len() == s.len() - k,
{
    assert(all_but_last_bytes(s, k) + s.skip(s.len() - k) =~= s);
}

} // verus!
