use vstd::prelude::*;
use vstd::string::StringSliceAdditionalSpecFns;

verus! {

/// The row that a letter names, either case: `'A'` and `'a'` are `0`, `'Z'` and `'z'` are `25`;
/// any other character gives `26`.
pub open spec fn letter_row(c: char) -> nat {
    if 'A' <= c && c <= 'Z' {
        (c as u32 - 'A' as u32) as nat
    } else if 'a' <= c && c <= 'z' {
        (c as u32 - 'a' as u32) as nat
    } else {
        26
    }
}

/// Maps a row index to its letter: `0` is `'A'`, `25` is `'Z'`, anything else a space.
pub fn num_to_alphabet(i: usize) -> (r: char)
    ensures
        i < 26 ==> r as u32 == 'A' as u32 + i && letter_row(r) == i,
        i >= 26 ==> r == ' ',
{
    if i < 26 {
        ((65u8 + i as u8) as char)
    } else {
        ' '
    }
}

/// Maps a letter of either case to its row index; any other character gives `26`.
pub fn alphabet_to_num(c: char) -> (r: usize)
    ensures
        r == letter_row(c),
{
    if 'A' <= c && c <= 'Z' {
        (c as u32 - 'A' as u32) as usize
    } else if 'a' <= c && c <= 'z' {
        (c as u32 - 'a' as u32) as usize
    } else {
        26
    }
}

pub open spec fn is_digit(b: u8) -> bool {
    48 <= b && b <= 57
}

pub open spec fn all_digits(s: Seq<u8>) -> bool {
    forall|i: int| 0 <= i < s.len() ==> is_digit(#[trigger] s[i])
}

/// The number that a string of decimal digits denotes.
pub open spec fn digits_value(s: Seq<u8>) -> nat
    decreases s.len(),
{
    if s.len() == 0 {
        0
    } else {
        10 * digits_value(s.drop_last()) + (s.last() - 48) as nat
    }
}

/// What a position typed by a player means: the first byte is the row letter, the rest the
/// column number in decimal. It is valid when the row is at most 2 and the column is below
/// `columns`.
pub open spec fn position_of(s: Seq<u8>, columns: nat) -> Option<(usize, usize)> {
    if s.len() >= 2 && letter_row(s[0] as char) <= 2 && all_digits(s.subrange(1, s.len() as int))
        && digits_value(s.subrange(1, s.len() as int)) < columns {
        Some(
            (
                digits_value(s.subrange(1, s.len() as int)) as usize,
                letter_row(s[0] as char) as usize,
            ),
        )
    } else {
        None
    }
}

proof fn lemma_digits_value_grows(s: Seq<u8>, n: int)
    requires
        0 <= n <= s.len(),
        all_digits(s),
    ensures
        digits_value(s.subrange(0, n)) <= digits_value(s),
    decreases s.len() - n,
{
    if n < s.len() {
        lemma_digits_value_grows(s, n + 1);
        let t = s.subrange(0, n + 1);
        assert(t.drop_last() =~= s.subrange(0, n));
        assert(is_digit(s[n]));
    } else {
        assert(s.subrange(0, n) =~= s);
    }
}

/// Reads a board position `(column, row)` from what a player typed, such as `B10` for row 1,
/// column 10. `None` when the row letter is past `C`, the column is not a decimal number, or
/// the column is not below `columns`.
pub fn parse_position(input: &str, columns: usize) -> (r: Option<(usize, usize)>)
    ensures
        r == position_of(input.spec_bytes(), columns as nat),
{
    let b = input.as_bytes();
    let ghost s = input.spec_bytes();
    let n = b.len();
    if n < 2 {
        return None;
    }
    let row = alphabet_to_num(b[0] as char);
    if row > 2 {
        return None;
    }
    let ghost rest = s.subrange(1, n as int);
    if columns == 0 || !all_digits_from(b, 1) {
        return None;
    }
    let mut value: u128 = 0;
    let mut i: usize = 1;
    while i < n
        invariant
            s == input.spec_bytes(),
            b@ == s,
            n == s.len(),
            1 <= i <= n,
            rest == s.subrange(1, n as int),
            all_digits(rest),
            value == digits_value(s.subrange(1, i as int)),
            value < columns,
        decreases n - i,
    {
        let d = b[i];
        proof {
            assert(s.subrange(1, i + 1).drop_last() =~= s.subrange(1, i as int));
            assert(is_digit(rest[i - 1]));
            assert(s.subrange(1, i + 1).last() == d);
        }
        value = value * 10 + (d - 48) as u128;
        i = i + 1;
        assert(value == digits_value(s.subrange(1, i as int)));
        if value >= columns as u128 {
            proof {
                assert(rest.subrange(0, i - 1) =~= s.subrange(1, i as int));
                lemma_digits_value_grows(rest, i - 1);
            }
            return None;
        }
    }
    assert(s.subrange(1, i as int) =~= rest);
    Some((value as usize, row))
}

/// Whether every byte of `b` from index `i` on is a decimal digit.
fn all_digits_from(b: &[u8], i: usize) -> (r: bool)
    requires
        i <= b@.len(),
    ensures
        r == all_digits(b@.subrange(i as int, b@.len() as int)),
{
    let mut j = i;
    while j < b.len()
        invariant
            i <= j <= b@.len(),
            all_digits(b@.subrange(i as int, j as int)),
        decreases b@.len() - j,
    {
        if b[j] < 48 || b[j] > 57 {
            assert(b@.subrange(i as int, b@.len() as int)[j - i] == b[j as int]);
            return false;
        }
        j = j + 1;
    }
    assert(b@.subrange(i as int, j as int) =~= b@.subrange(i as int, b@.len() as int));
    true
}

/// What a yes/no answer means: `yes` or `y` is `true`, `no` or `n` is `false`; any other
/// word is no answer.
pub open spec fn yes_no_of(w: Seq<u8>) -> Option<bool> {
    if w == seq![121u8, 101u8, 115u8] || w == seq![121u8] {
        Some(true)
    } else if w == seq![110u8, 111u8] || w == seq![110u8] {
        Some(false)
    } else {
        None
    }
}

/// Reads a player's answer to a yes/no question from the word they typed.
pub fn parse_yes_no(word: &str) -> (r: Option<bool>)
    ensures
        r == yes_no_of(word.spec_bytes()),
{
    let b = word.as_bytes();
    let ghost w = word.spec_bytes();
    if b.len() == 3 && b[0] == 121 && b[1] == 101 && b[2] == 115 {
        assert(w =~= seq![121u8, 101u8, 115u8]);
        Some(true)
    } else if b.len() == 1 && b[0] == 121 {
        assert(w =~= seq![121u8]);
        Some(true)
    } else if b.len() == 2 && b[0] == 110 && b[1] == 111 {
        assert(w =~= seq![110u8, 111u8]);
        Some(false)
    } else if b.len() == 1 && b[0] == 110 {
        assert(w =~= seq![110u8]);
        Some(false)
    } else {
        proof {
            if w == seq![121u8, 101u8, 115u8] {
                assert(w[0] == 121u8 && w[1] == 101u8 && w[2] == 115u8);
            }
            if w == seq![121u8] {
                assert(w[0] == 121u8);
            }
            if w == seq![110u8, 111u8] {
                assert(w[0] == 110u8 && w[1] == 111u8);
            }
            if w == seq![110u8] {
                assert(w[0] == 110u8);
            }
        }
        None
    }
}

} // verus!
