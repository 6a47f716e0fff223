//! The block that `yes` writes over and over: its operands joined by spaces and
//! ended by a linefeed (`y` alone without operands), repeated to fill a buffer
//! so that each write carries many copies.

use vstd::prelude::*;
use vstd::slice::slice_to_vec;
use crate::window::NEWLINE;

verus! {

/// The size of the buffer that short lines are repeated into.
pub const BUF_SIZE: usize = 16 * 1024;

/// The operands joined by single spaces.
pub open spec fn joined(ops: Seq<Seq<u8>>) -> Seq<u8>
    decreases ops.len(),
{
    if ops.len() == 0 {
        Seq::empty()
    } else if ops.len() == 1 {
        ops[0]
    } else {
        joined(ops.drop_last()) + seq![0x20u8] + ops.last()
    }
}

/// The line that `yes` repeats.
pub open spec fn yes_line(ops: Seq<Seq<u8>>) -> Seq<u8> {
    if ops.len() == 0 {
        seq![0x79u8, NEWLINE]
    } else {
        joined(ops) + seq![NEWLINE]
    }
}

/// `m` copies of `s`, one after the other.
pub open spec fn repeated(s: Seq<u8>, m: nat) -> Seq<u8>
    decreases m,
{
    if m == 0 {
        Seq::empty()
    } else {
        repeated(s, (m - 1) as nat) + s
    }
}

/// What is written at once: a line shorter than half the buffer as many times
/// as it fits in the buffer less one byte, a longer one as it is.
pub open spec fn block_of(s: Seq<u8>) -> Seq<u8> {
    if 0 < s.len() < BUF_SIZE / 2 {
        repeated(s, ((BUF_SIZE - 1) as nat / s.len()) as nat)
    } else {
        s
    }
}

/// The line that `yes` repeats, from its operands.
pub fn line_of(operands: &Vec<Vec<u8>>) -> (r: Vec<u8>)
    ensures
        r@ == yes_line(operands@.map_values(|v: Vec<u8>| v@)),
{
    let ghost ops = operands@.map_values(|v: Vec<u8>| v@);
    let mut r: Vec<u8> = Vec::new();
    if operands.len() == 0 {
        r.push(0x79);
        r.push(NEWLINE);
        assert(r@ =~= yes_line(ops));
        return r;
    }
    let mut i: usize = 0;
    while i < operands.len()
        invariant
            ops == operands@.map_values(|v: Vec<u8>| v@),
            i <= operands@.len(),
            r@ == joined(ops.take(i as int)),
        decreases operands@.len() - i,
    {
        if i > 0 {
            r.push(0x20);
        }
        let mut word = slice_to_vec(operands[i].as_slice());
        r.append(&mut word);
        proof {
            let t = ops.take(i + 1);
            assert(t.drop_last() =~= ops.take(i as int));
            if i == 0 {
                assert(ops.take(0) =~= Seq::<Seq<u8>>::empty());
                assert(r@ =~= joined(t));
            } else {
                assert(r@ =~= joined(t));
            }
        }
        i = i + 1;
    }
    assert(ops.take(i as int) =~= ops);
    r.push(NEWLINE);
    r
}

/// The buffer to write over and over for `input`: short input repeated, long
/// input as it is.
pub fn prepare_buffer(input: &[u8]) -> (r: Vec<u8>)
    ensures
        r@ == block_of(input@),
{
    let len = input.len();
    if len == 0 || len >= BUF_SIZE / 2 {
        return slice_to_vec(input);
    }
    let copies = (BUF_SIZE - 1) / len;
    let mut r: Vec<u8> = Vec::new();
    let mut k: usize = 0;
    assert(r@ =~= repeated(input@, 0));
    while k < copies
        invariant
            k <= copies,
            r@ == repeated(input@, k as nat),
        decreases copies - k,
    {
        let mut one = slice_to_vec(input);
        r.append(&mut one);
        k = k + 1;
    }
    r
}

/// The block that `yes` writes, again and again until a write fails.
pub fn run(operands: &Vec<Vec<u8>>) -> (r: Vec<u8>)
    ensures
        r@ == block_of(yes_line(operands@.map_values(|v: Vec<u8>| v@))),
{
    let line = line_of(operands);
    prepare_buffer(line.as_slice())
}

} // verus!
