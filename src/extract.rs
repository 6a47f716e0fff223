//! The four extraction modes run over a stream held in memory, by the same
//! state machines that serve streams read piece by piece.

use vstd::prelude::*;
use vstd::slice::slice_subrange;
use vstd::slice::slice_to_vec;
use crate::stream::{FirstLines, LastLinesHeld, LastBytesHeld, BLOCK_FLOOR, released_lines};
use crate::window::{
    NEWLINE, line_end, lines_from, lines_of, flatten, first_lines, all_but_last_lines,
    first_bytes, all_but_last_bytes, lemma_flatten_push,
};

verus! {

/// What to extract: a count of bytes or of lines, and whether it is the first
/// that many (`true`) or all but the last that many (`false`).
#[derive(Debug, Clone, Copy, PartialEq, Eq, Structural)]
pub enum Mode {
    Bytes(usize, bool),
    Lines(usize, bool),
}

/// The bytes of `s` that a mode selects.
pub open spec fn window(mode: Mode, s: Seq<u8>) -> Seq<u8> {
    match mode {
        Mode::Bytes(n, true) => first_bytes(s, n as nat),
        Mode::Bytes(n, false) => all_but_last_bytes(s, n as nat),
        Mode::Lines(n, true) => first_lines(s, n as nat),
        Mode::Lines(n, false) => all_but_last_lines(s, n as nat),
    }
}

/// One past the end of the line that starts at `start`.
pub fn next_line_end(input: &[u8], start: usize) -> (end: usize)
    requires
        start < input@.len(),
    ensures
        end == line_end(input@, start as int),
        start < end <= input@.len(),
{
    let mut j = start;
    while j < input.len() && input[j] != NEWLINE
        invariant
            start <= j <= input@.len(),
            line_end(input@, start as int) == line_end(input@, j as int),
        decreases input@.len() - j,
    {
        j = j + 1;
    }
    if j < input.len() {
        j + 1
    } else {
        j
    }
}

/// The bytes of `input` from `start` to `end`, as a vector of their own.
fn copy_range(input: &[u8], start: usize, end: usize) -> (r: Vec<u8>)
    requires
        start <= end <= input@.len(),
    ensures
        r@ == input@.subrange(start as int, end as int),
{
    slice_to_vec(slice_subrange(input, start, end))
}

/// Appends the first `line_count` lines of `input` to `output`.
pub fn write_lines_forward(output: &mut Vec<u8>, input: &[u8], line_count: usize)
    ensures
        final(output)@ == old(output)@ + first_lines(input@, line_count as nat),
{
    let ghost s = input@;
    let ghost out0 = output@;
    let mut m = FirstLines::new(line_count);
    let mut pos: usize = 0;
    assert(flatten(Seq::<Seq<u8>>::empty()) == Seq::<u8>::empty());
    assert(output@ =~= out0 + flatten(m.lines_seen()));
    loop
        invariant
            s == input@,
            m.wf(),
            m.limit() == line_count,
            pos <= s.len(),
            lines_of(s) == m.lines_seen() + lines_from(s, pos as int),
            output@ == out0 + flatten(m.lines_seen()),
        ensures
            output@ == out0 + first_lines(s, line_count as nat),
        decreases s.len() - pos,
    {
        let more = m.wants_more();
        if pos >= input.len() || !more {
            proof {
                let ls = lines_of(s);
                if pos >= s.len() {
                    assert(ls =~= m.lines_seen());
                } else if line_count >= ls.len() {
                    assert(ls =~= m.lines_seen());
                } else {
                    assert(ls.take(line_count as int) =~= m.lines_seen());
                }
            }
            break;
        }
        let end = next_line_end(input, pos);
        let line = copy_range(input, pos, end);
        let ghost before = m.lines_seen();
        let mut out = m.push_line(line);
        proof {
            assert(lines_from(s, pos as int) == seq![s.subrange(pos as int, end as int)]
                + lines_from(s, end as int));
            assert(lines_of(s) =~= m.lines_seen() + lines_from(s, end as int));
            lemma_flatten_push(before, out@);
        }
        output.append(&mut out);
        pos = end;
    }
}

/// Appends all lines of `input` but the last `line_count` to `output`.
pub fn write_lines_backward(output: &mut Vec<u8>, input: &[u8], line_count: usize)
    ensures
        final(output)@ == old(output)@ + all_but_last_lines(input@, line_count as nat),
{
    let ghost s = input@;
    let ghost out0 = output@;
    let mut q = LastLinesHeld::new(line_count);
    let mut pos: usize = 0;
    assert(released_lines(q.lines_seen(), line_count as nat) =~= Seq::<Seq<u8>>::empty());
    assert(output@ =~= out0 + flatten(released_lines(q.lines_seen(), line_count as nat)));
    while pos < input.len()
        invariant
            s == input@,
            q.wf(),
            q.count() == line_count,
            pos <= s.len(),
            lines_of(s) == q.lines_seen() + lines_from(s, pos as int),
            output@ == out0 + flatten(released_lines(q.lines_seen(), line_count as nat)),
        decreases s.len() - pos,
    {
        let end = next_line_end(input, pos);
        let line = copy_range(input, pos, end);
        let ghost before = released_lines(q.lines_seen(), line_count as nat);
        let out = q.push_line(line);
        proof {
            assert(lines_from(s, pos as int) == seq![s.subrange(pos as int, end as int)]
                + lines_from(s, end as int));
            assert(lines_of(s) =~= q.lines_seen() + lines_from(s, end as int));
        }
        match out {
            Some(l) => {
                let mut l = l;
                proof {
                    lemma_flatten_push(before, l@);
                }
                output.append(&mut l);
            },
            None => {},
        }
        pos = end;
    }
    assert(lines_of(s) =~= q.lines_seen());
}

/// Appends the first `bytes` bytes of `input` to `output`.
pub fn write_bytes_forward(output: &mut Vec<u8>, input: &[u8], bytes: usize)
    ensures
        final(output)@ == old(output)@ + first_bytes(input@, bytes as nat),
{
    let n = if bytes < input.len() {
        bytes
    } else {
        input.len()
    };
    let mut head = copy_range(input, 0, n);
    assert(head@ =~= first_bytes(input@, bytes as nat));
    output.append(&mut head);
}

/// Appends all bytes of `input` but the last `bytes` to `output`, reading it in
/// blocks as a stream would be read, with the block size that the window picks.
pub fn write_bytes_backward(output: &mut Vec<u8>, input: &[u8], bytes: usize)
    ensures
        final(output)@ == old(output)@ + all_but_last_bytes(input@, bytes as nat),
{
    let block = if bytes > BLOCK_FLOOR {
        bytes
    } else {
        BLOCK_FLOOR
    };
    write_bytes_backward_in_blocks(output, input, bytes, block);
}

/// Appends all bytes of `input` but the last `bytes` to `output`, reading it in
/// blocks of `block` bytes; what is written does not depend on the block size.
pub fn write_bytes_backward_in_blocks(output: &mut Vec<u8>, input: &[u8], bytes: usize, block: usize)
    requires
        0 < block,
        bytes <= block,
    ensures
        final(output)@ == old(output)@ + all_but_last_bytes(input@, bytes as nat),
{
    let ghost s = input@;
    let ghost out0 = output@;
    let mut w = LastBytesHeld::with_block(bytes, block);
    let mut pos: usize = 0;
    assert(s.take(0) =~= w.bytes_seen());
    assert(output@ =~= out0 + w.bytes_seen().take(w.released_len() as int));
    assert(block > 0);
    loop
        invariant_except_break
            w.wf(),
            w.keep() == bytes,
            w.block() == block,
            pos <= s.len(),
            w.bytes_seen() == s.take(pos as int),
            output@ == out0 + w.bytes_seen().take(w.released_len() as int),
        invariant
            s == input@,
            block > 0,
        ensures
            output@ == out0 + all_but_last_bytes(s, bytes as nat),
        decreases s.len() - pos,
    {
        let rest = input.len() - pos;
        if rest < block {
            let last = copy_range(input, pos, input.len());
            proof {
                assert(w.bytes_seen() + last@ =~= s);
            }
            let mut out = w.finish(last);
            output.append(&mut out);
            break;
        }
        let chunk = copy_range(input, pos, pos + block);
        let mut out = w.push_full(chunk);
        output.append(&mut out);
        pos = pos + block;
        assert(w.bytes_seen() =~= s.take(pos as int));
    }
}

/// The bytes of `input` that `mode` selects.
pub fn extract(mode: Mode, input: &[u8]) -> (r: Vec<u8>)
    ensures
        r@ == window(mode, input@),
{
    let mut out: Vec<u8> = Vec::new();
    match mode {
        Mode::Lines(n, true) => write_lines_forward(&mut out, input, n),
        Mode::Lines(n, false) => write_lines_backward(&mut out, input, n),
        Mode::Bytes(n, true) => write_bytes_forward(&mut out, input, n),
        Mode::Bytes(n, false) => write_bytes_backward(&mut out, input, n),
    }
    assert(out@ =~= window(mode, input@));
    out
}

} // verus!
