use mesabox::repeat::{line_of, prepare_buffer, run, BUF_SIZE};

#[test]
fn line_without_operands_is_y() {
    assert_eq!(line_of(&vec![]), b"y\n".to_vec());
}

#[test]
fn operands_are_joined_by_spaces() {
    let ops = vec![b"a".to_vec(), b"bc".to_vec(), b"d".to_vec()];
    assert_eq!(line_of(&ops), b"a bc d\n".to_vec());
}

#[test]
fn short_line_is_repeated() {
    let block = run(&vec![]);
    assert_eq!(block.len(), BUF_SIZE - 2);
    assert!(block.chunks(2).all(|c| c == b"y\n"));
    let block = prepare_buffer(b"abc\n");
    assert_eq!(block.len(), 4 * ((BUF_SIZE - 1) / 4));
}

#[test]
fn long_line_is_kept() {
    let long = vec![b'x'; BUF_SIZE / 2];
    assert_eq!(prepare_buffer(&long), long);
}
