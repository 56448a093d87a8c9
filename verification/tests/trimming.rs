use task_tester::slice_trim_ext::byte_is_whitespace;
use task_tester::{SliceTrimExt, Test};

#[test]
fn trim_strips_a_trailing_newline() {
    assert_eq!(b"42\n".as_slice().trim(), b"42".as_slice());
}

#[test]
fn trim_strips_both_ends() {
    assert_eq!(b" \t\r\n1 2\t3 \n\r\t ".as_slice().trim(), b"1 2\t3".as_slice());
}

#[test]
fn trim_keeps_inner_whitespace() {
    assert_eq!(b"a \n\r\t b".as_slice().trim(), b"a \n\r\t b".as_slice());
}

#[test]
fn trim_of_empty_is_empty() {
    let empty: &[u8] = b"";
    assert_eq!(empty.trim(), empty);
}

#[test]
fn trim_of_whitespace_is_empty() {
    let empty: &[u8] = b"";
    assert_eq!(b" \n\t\r \n".as_slice().trim(), empty);
}

#[test]
fn trim_of_one_byte() {
    assert_eq!(b"x".as_slice().trim(), b"x".as_slice());
    assert_eq!(b"\nx".as_slice().trim(), b"x".as_slice());
    assert_eq!(b"x\n".as_slice().trim(), b"x".as_slice());
}

#[test]
fn trim_leaves_other_control_bytes() {
    // Vertical tab, form feed and NUL are not whitespace here.
    assert_eq!(b"\x0b1\x0c".as_slice().trim(), b"\x0b1\x0c".as_slice());
    assert_eq!(b"\x001\x00".as_slice().trim(), b"\x001\x00".as_slice());
    assert_eq!(b"\xa01".as_slice().trim(), b"\xa01".as_slice());
}

#[test]
fn trim_returns_a_part_of_its_argument() {
    let bytes = b"  abc  ".to_vec();
    let trimmed = bytes.as_slice().trim();
    assert_eq!(trimmed.as_ptr(), bytes[2..].as_ptr());
    assert_eq!(trimmed.len(), 3);
}

#[test]
fn trim_is_idempotent() {
    let samples: Vec<&[u8]> = vec![
        b"",
        b" ",
        b"42\n",
        b"\n\n42",
        b" 4 2 ",
        b"\r\n\t x \t\r\n",
        b"no whitespace",
        b"\t\t\t",
    ];
    for s in samples {
        let once = s.trim();
        assert_eq!(once.trim(), once);
    }
}

#[test]
fn trim_ignores_padding() {
    let plain = b"1 2 3".to_vec();
    let mut padded = b" \r\n\t".to_vec();
    padded.extend_from_slice(&plain);
    padded.extend_from_slice(b"\n\n \t");
    assert_eq!(padded.as_slice().trim(), plain.as_slice().trim());
}

#[test]
fn whitespace_bytes_are_tab_space_lf_cr() {
    for c in 0..=255u8 {
        let expected = c == b'\t' || c == b' ' || c == b'\n' || c == b'\r';
        assert_eq!(byte_is_whitespace(c), expected, "byte {}", c);
    }
}

#[test]
fn comparison_ignores_trailing_newline() {
    assert!(Test::is_correct(b"42\n", b"42"));
    assert!(Test::is_correct(b"42", b"42\n"));
}

#[test]
fn comparison_is_exact_inside() {
    assert!(!Test::is_correct(b"42\n", b"420"));
    assert!(!Test::is_correct(b"4 2", b"42"));
    assert!(!Test::is_correct(b"1\n2", b"1\r\n2"));
    assert!(!Test::is_correct(b"1  2", b"1 2"));
    assert!(!Test::is_correct(b"5", b"5.0"));
    assert!(!Test::is_correct(b"abc", b"ABC"));
}

#[test]
fn comparison_of_blank_answers() {
    assert!(Test::is_correct(b"", b""));
    assert!(Test::is_correct(b"\n", b""));
    assert!(Test::is_correct(b" \t", b"\r\n"));
    assert!(!Test::is_correct(b"", b"0"));
}

#[test]
fn comparison_ignores_line_ending_at_the_edge() {
    assert!(Test::is_correct(b"1 2 3\r\n", b"1 2 3\n"));
    assert!(Test::is_correct(b"\n\n1 2 3", b"1 2 3  "));
}
