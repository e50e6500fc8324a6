use skyjo::util::{alphabet_to_num, num_to_alphabet, parse_position, parse_yes_no};

#[test]
fn letters_map_to_rows() {
    assert_eq!(num_to_alphabet(0), 'A');
    assert_eq!(num_to_alphabet(2), 'C');
    assert_eq!(num_to_alphabet(25), 'Z');
    assert_eq!(num_to_alphabet(26), ' ');
    assert_eq!(num_to_alphabet(1000), ' ');
    assert_eq!(alphabet_to_num('A'), 0);
    assert_eq!(alphabet_to_num('b'), 1);
    assert_eq!(alphabet_to_num('Z'), 25);
    assert_eq!(alphabet_to_num('z'), 25);
    assert_eq!(alphabet_to_num('1'), 26);
    assert_eq!(alphabet_to_num('['), 26);
    for i in 0..26 {
        assert_eq!(alphabet_to_num(num_to_alphabet(i)), i);
    }
}

#[test]
fn position_b10_needs_eleven_columns() {
    assert_eq!(parse_position("B10", 11), Some((10, 1)));
    assert_eq!(parse_position("B10", 10), None);
    assert_eq!(parse_position("b10", 12), Some((10, 1)));
}

#[test]
fn position_rejects_bad_rows_and_columns() {
    assert_eq!(parse_position("A3", 4), Some((3, 0)));
    assert_eq!(parse_position("c0", 4), Some((0, 2)));
    assert_eq!(parse_position("D1", 4), None);
    assert_eq!(parse_position("A4", 4), None);
    assert_eq!(parse_position("A", 4), None);
    assert_eq!(parse_position("", 4), None);
    assert_eq!(parse_position("Ax", 4), None);
    assert_eq!(parse_position("A1x", 4), None);
    assert_eq!(parse_position("1A", 4), None);
    assert_eq!(parse_position("A-1", 4), None);
    assert_eq!(parse_position("A007", 8), Some((7, 0)));
    assert_eq!(parse_position("A0", 0), None);
    assert_eq!(parse_position("A99999999999999999999999999", usize::MAX), None);
    assert_eq!(parse_position("A18446744073709551614", usize::MAX), Some((18446744073709551614, 0)));
}

#[test]
fn yes_no_words() {
    assert_eq!(parse_yes_no("yes"), Some(true));
    assert_eq!(parse_yes_no("y"), Some(true));
    assert_eq!(parse_yes_no("no"), Some(false));
    assert_eq!(parse_yes_no("n"), Some(false));
    assert_eq!(parse_yes_no(""), None);
    assert_eq!(parse_yes_no("Yes"), None);
    assert_eq!(parse_yes_no("ye"), None);
    assert_eq!(parse_yes_no("nope"), None);
    assert_eq!(parse_yes_no("yess"), None);
}
