use mesabox::driver::{header_policy, shows_headers, HeaderPolicy, Session, display_name, is_default_input, select_mode};
use mesabox::extract::{
    extract, write_bytes_backward, write_bytes_backward_in_blocks, write_bytes_forward,
    write_lines_backward, write_lines_forward, Mode,
};
use mesabox::number::NumError;
use mesabox::stream::{FirstLines, LastBytesHeld, LastLinesHeld, BLOCK_FLOOR};

const FIVE: &[u8] = b"A\nB\nC\nD\nE\n";

#[test]
fn forward_lines_three_of_five() {
    let mut out = Vec::new();
    write_lines_forward(&mut out, FIVE, 3);
    assert_eq!(out, b"A\nB\nC\n".to_vec());
    assert_eq!(&out[..], &FIVE[..out.len()]);
}

#[test]
fn forward_lines_keeps_last_line_without_delimiter() {
    let mut out = Vec::new();
    write_lines_forward(&mut out, b"one\ntwo", 5);
    assert_eq!(out, b"one\ntwo".to_vec());
}

#[test]
fn forward_lines_zero_writes_nothing() {
    let mut out = Vec::new();
    write_lines_forward(&mut out, FIVE, 0);
    assert!(out.is_empty());
}

#[test]
fn backward_lines_all_but_two() {
    let mut out = Vec::new();
    write_lines_backward(&mut out, FIVE, 2);
    assert_eq!(out, b"A\nB\nC\n".to_vec());
}

#[test]
fn backward_lines_count_at_least_lines_is_empty() {
    for n in [5usize, 6, 100] {
        let mut out = Vec::new();
        write_lines_backward(&mut out, FIVE, n);
        assert!(out.is_empty());
    }
}

#[test]
fn backward_lines_zero_is_whole_input() {
    let mut out = Vec::new();
    write_lines_backward(&mut out, FIVE, 0);
    assert_eq!(out, FIVE.to_vec());
    let mut out = Vec::new();
    write_lines_backward(&mut out, b"x\ny", 0);
    assert_eq!(out, b"x\ny".to_vec());
}

#[test]
fn backward_lines_appends_to_existing_output() {
    let mut out = b">".to_vec();
    write_lines_backward(&mut out, b"a\nb\nc", 1);
    assert_eq!(out, b">a\nb\n".to_vec());
}

#[test]
fn forward_bytes_four() {
    let mut out = Vec::new();
    write_bytes_forward(&mut out, b"abcdef", 4);
    assert_eq!(out, b"abcd".to_vec());
    for k in [6usize, 7, usize::MAX] {
        let mut out = Vec::new();
        write_bytes_forward(&mut out, b"abcdef", k);
        assert_eq!(out, b"abcdef".to_vec());
    }
}

#[test]
fn backward_bytes_three() {
    let mut out = Vec::new();
    write_bytes_backward(&mut out, b"abcdefghij", 3);
    assert_eq!(out, b"abcdefg".to_vec());
    for k in [10usize, 11, usize::MAX] {
        let mut out = Vec::new();
        write_bytes_backward(&mut out, b"abcdefghij", k);
        assert!(out.is_empty());
    }
}

#[test]
fn backward_bytes_million_any_block_size() {
    let input: Vec<u8> = (0..1_000_000u32).map(|i| (i % 251) as u8).collect();
    let mut out = Vec::new();
    write_bytes_backward(&mut out, &input, 10);
    assert_eq!(out.len(), 999_990);
    assert_eq!(&out[..], &input[..999_990]);
    for block in [10usize, 11, 4096, BLOCK_FLOOR, 1_000_000, 2_000_000] {
        let mut out = Vec::new();
        write_bytes_backward_in_blocks(&mut out, &input, 10, block);
        assert_eq!(&out[..], &input[..999_990]);
    }
}

#[test]
fn backward_bytes_exact_multiple_of_block() {
    let input: Vec<u8> = (0..40u8).collect();
    let mut out = Vec::new();
    write_bytes_backward_in_blocks(&mut out, &input, 5, 8);
    assert_eq!(&out[..], &input[..35]);
    let mut out = Vec::new();
    write_bytes_backward_in_blocks(&mut out, &input, 8, 8);
    assert_eq!(&out[..], &input[..32]);
}

#[test]
fn round_trip_of_byte_windows() {
    let s = b"abababab";
    for k in [0usize, 2, 4, 6, 8] {
        let mut out = Vec::new();
        write_bytes_forward(&mut out, s, k);
        write_bytes_backward(&mut out, s, k);
        assert_eq!(out, s.to_vec());
    }
    let mut first = Vec::new();
    write_bytes_forward(&mut first, s, 9);
    assert_eq!(first, s.to_vec());
    let mut rest = Vec::new();
    write_bytes_backward(&mut rest, s, 9);
    assert!(rest.is_empty());
}

#[test]
fn extract_dispatches_on_mode() {
    assert_eq!(extract(Mode::Lines(3, true), FIVE), b"A\nB\nC\n".to_vec());
    assert_eq!(extract(Mode::Lines(2, false), FIVE), b"A\nB\nC\n".to_vec());
    assert_eq!(extract(Mode::Bytes(4, true), b"abcdef"), b"abcd".to_vec());
    assert_eq!(extract(Mode::Bytes(3, false), b"abcdefghij"), b"abcdefg".to_vec());
    assert!(extract(Mode::Lines(4, true), b"").is_empty());
}

#[test]
fn first_lines_machine_stops_wanting() {
    let mut m = FirstLines::new(2);
    assert!(m.wants_more());
    assert_eq!(m.push_line(b"a\n".to_vec()), b"a\n".to_vec());
    assert!(m.wants_more());
    m.push_line(b"b\n".to_vec());
    assert!(!m.wants_more());
}

#[test]
fn last_lines_queue_evicts_oldest() {
    let mut q = LastLinesHeld::new(2);
    assert_eq!(q.push_line(b"A\n".to_vec()), None);
    assert_eq!(q.push_line(b"B\n".to_vec()), None);
    assert_eq!(q.push_line(b"C\n".to_vec()), Some(b"A\n".to_vec()));
    assert_eq!(q.push_line(b"D\n".to_vec()), Some(b"B\n".to_vec()));
}

#[test]
fn last_bytes_window_swaps_blocks() {
    let mut w = LastBytesHeld::with_block(2, 4);
    assert_eq!(w.block_size(), 4);
    assert!(w.push_full(b"abcd".to_vec()).is_empty());
    assert_eq!(w.push_full(b"efgh".to_vec()), b"abcd".to_vec());
    assert_eq!(w.finish(b"i".to_vec()), b"efg".to_vec());
    let w = LastBytesHeld::new(3);
    assert_eq!(w.block_size(), BLOCK_FLOOR);
    assert_eq!(w.buffer_capacity(), BLOCK_FLOOR);
    let w = LastBytesHeld::new(BLOCK_FLOOR + 1);
    assert_eq!(w.block_size(), BLOCK_FLOOR + 1);
    assert_eq!(w.buffer_capacity(), 0);
}

#[test]
fn headers_two_sources() {
    let mut s = Session::new(Mode::Lines(10, true), header_policy(false, false), 2);
    assert_eq!(s.header(b"a"), b"==> a <==\n".to_vec());
    assert_eq!(s.header(b"b"), b"\n==> b <==\n".to_vec());
}

#[test]
fn headers_one_source_default_policy() {
    let mut s = Session::new(Mode::Lines(10, true), HeaderPolicy::Default, 1);
    assert!(s.header(b"a").is_empty());
    assert!(!shows_headers(HeaderPolicy::Default, 1));
    assert!(shows_headers(HeaderPolicy::Default, 2));
}

#[test]
fn headers_quiet_and_verbose() {
    assert_eq!(header_policy(true, false), HeaderPolicy::Never);
    assert_eq!(header_policy(false, true), HeaderPolicy::Always);
    assert_eq!(header_policy(true, true), HeaderPolicy::Always);
    let mut quiet = Session::new(Mode::Lines(10, true), header_policy(true, false), 3);
    assert!(quiet.header(b"a").is_empty());
    assert!(quiet.header(b"b").is_empty());
    let mut verbose = Session::new(Mode::Lines(10, true), header_policy(false, true), 1);
    assert_eq!(verbose.header(b"only"), b"==> only <==\n".to_vec());
}

#[test]
fn partial_failure_keeps_going() {
    let sources: [(&[u8], Option<&[u8]>); 3] =
        [(b"one", Some(b"1\n2\n")), (b"missing", None), (b"three", Some(b"3\n"))];
    let mut s = Session::new(Mode::Lines(10, true), HeaderPolicy::Default, sources.len());
    let mut out = Vec::new();
    let mut diagnostics = Vec::new();
    for (name, content) in sources.iter() {
        match content {
            Some(data) => {
                out.extend(s.header(name));
                out.extend(extract(s.mode(), data));
            }
            None => {
                diagnostics.push(name.to_vec());
                s.record_failure();
            }
        }
    }
    assert_eq!(out, b"==> one <==\n1\n2\n\n==> three <==\n3\n".to_vec());
    assert_eq!(diagnostics, vec![b"missing".to_vec()]);
    assert!(!s.succeeded());
}

#[test]
fn all_sources_ok_succeeds() {
    let s = Session::new(Mode::Bytes(1, true), HeaderPolicy::Never, 2);
    assert!(s.succeeded());
    assert_eq!(s.mode(), Mode::Bytes(1, true));
}

#[test]
fn default_input_name() {
    assert!(is_default_input(b"-"));
    assert!(!is_default_input(b"--"));
    assert_eq!(display_name(b"-"), b"standard input".to_vec());
    assert_eq!(display_name(b"file.txt"), b"file.txt".to_vec());
}

#[test]
fn mode_selection() {
    assert_eq!(select_mode(None, None), Ok(Mode::Lines(10, true)));
    assert_eq!(select_mode(Some("5"), Some("7")), Ok(Mode::Bytes(5, true)));
    assert_eq!(select_mode(None, Some("-2")), Ok(Mode::Lines(2, false)));
    assert_eq!(select_mode(Some("x"), None), Err(NumError::InvalidNumber));
}
