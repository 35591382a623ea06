//! Hexadecimal digits and numerals, and ASCII upper-casing, as used by
//! the TLV decoder: every quantity in the stream (tag bytes, length
//! bytes) is written as a big-endian hex numeral.

use vstd::prelude::*;
use vstd::string::StrSliceExecFns;

verus! {

/// The characters that may appear in a hexadecimal numeral.
pub open spec fn is_hex_digit(c: char) -> bool {
    ('0' <= c && c <= '9') || ('a' <= c && c <= 'f') || ('A' <= c && c <= 'F')
}

/// Numeric value of one hexadecimal digit (meaningful only where
/// `is_hex_digit` holds).
pub open spec fn hex_digit_val(c: char) -> int {
    if '0' <= c && c <= '9' {
        c as int - '0' as int
    } else if 'a' <= c && c <= 'f' {
        c as int - 'a' as int + 10
    } else {
        c as int - 'A' as int + 10
    }
}

/// Every character of the sequence is a hex digit.
pub open spec fn all_hex(s: Seq<char>) -> bool {
    forall|j: int| 0 <= j < s.len() ==> is_hex_digit(#[trigger] s[j])
}

/// Value of a big-endian hexadecimal numeral.
pub open spec fn hex_seq_val(s: Seq<char>) -> int
    decreases s.len(),
{
    if s.len() == 0 {
        0
    } else {
        16 * hex_seq_val(s.drop_last()) + hex_digit_val(s.last())
    }
}

/// ASCII upper-casing of one character: a lowercase letter maps to its
/// uppercase form, every other character is unchanged.
pub open spec fn upper_char(c: char) -> char {
    if 'a' <= c && c <= 'z' {
        ((c as u32) - 32) as char
    } else {
        c
    }
}

/// ASCII upper-casing, applied to each character.
pub open spec fn upper_seq(s: Seq<char>) -> Seq<char> {
    s.map_values(|c: char| upper_char(c))
}

/// Extending a hex numeral by one digit multiplies its value by 16 and
/// adds the digit.
pub proof fn lemma_hex_seq_val_extend(s: Seq<char>, j: int)
    requires
        0 <= j < s.len(),
    ensures
        hex_seq_val(s.subrange(0, j + 1)) == 16 * hex_seq_val(s.subrange(0, j)) + hex_digit_val(
            s[j],
        ),
{
    let t = s.subrange(0, j + 1);
    assert(t.drop_last() =~= s.subrange(0, j));
    assert(t.last() == s[j]);
}

/// A two-digit hex numeral: sixteen times the first digit plus the
/// second.
pub proof fn lemma_hex_seq_val_pair(t: Seq<char>)
    requires
        t.len() == 2,
    ensures
        hex_seq_val(t) == 16 * hex_digit_val(t[0]) + hex_digit_val(t[1]),
{
    assert(t.drop_last() =~= seq![t[0]]);
    assert(seq![t[0]].drop_last() =~= Seq::<char>::empty());
    assert(hex_seq_val(Seq::<char>::empty()) == 0);
    assert(seq![t[0]].last() == t[0]);
    assert(hex_seq_val(seq![t[0]]) == 16 * hex_seq_val(seq![t[0]].drop_last()) + hex_digit_val(
        seq![t[0]].last(),
    ));
}

/// A two-digit hex numeral is below 256.
pub proof fn lemma_hex_pair_bound(t: Seq<char>)
    requires
        t.len() == 2,
        all_hex(t),
    ensures
        0 <= hex_seq_val(t) < 256,
{
    lemma_hex_seq_val_pair(t);
    assert(is_hex_digit(t[0]));
    assert(is_hex_digit(t[1]));
}

/// Value of one hexadecimal digit, or `None` where the character is not
/// one.
pub fn hex_digit_value(c: char) -> (r: Option<u8>)
    ensures
        r is Some <==> is_hex_digit(c),
        r is Some ==> r->Some_0 == hex_digit_val(c),
{
    match c {
        '0' => Some(0),
        '1' => Some(1),
        '2' => Some(2),
        '3' => Some(3),
        '4' => Some(4),
        '5' => Some(5),
        '6' => Some(6),
        '7' => Some(7),
        '8' => Some(8),
        '9' => Some(9),
        'a' | 'A' => Some(10),
        'b' | 'B' => Some(11),
        'c' | 'C' => Some(12),
        'd' | 'D' => Some(13),
        'e' | 'E' => Some(14),
        'f' | 'F' => Some(15),
        _ => None,
    }
}

/// ASCII upper-casing of one character.
pub fn upper_char_exec(c: char) -> (r: char)
    ensures
        r == upper_char(c),
{
    match c {
        'a' => 'A',
        'b' => 'B',
        'c' => 'C',
        'd' => 'D',
        'e' => 'E',
        'f' => 'F',
        'g' => 'G',
        'h' => 'H',
        'i' => 'I',
        'j' => 'J',
        'k' => 'K',
        'l' => 'L',
        'm' => 'M',
        'n' => 'N',
        'o' => 'O',
        'p' => 'P',
        'q' => 'Q',
        'r' => 'R',
        's' => 'S',
        't' => 'T',
        'u' => 'U',
        'v' => 'V',
        'w' => 'W',
        'x' => 'X',
        'y' => 'Y',
        'z' => 'Z',
        _ => c,
    }
}

/// Relies on `String`'s `FromIterator<char>` impl (`String::from_iter`):
/// collecting characters yields the string of exactly those characters,
/// in order.
#[verifier::external_body]
pub(crate) fn chars_to_string(v: Vec<char>) -> (s: String)
    ensures
        s@ == v@,
{
    String::from_iter(v)
}

/// ASCII upper-casing of a string.
pub fn upper_string(s: &str) -> (r: String)
    ensures
        r@ == upper_seq(s@),
{
    let n = s.unicode_len();
    let mut v: Vec<char> = Vec::new();
    let mut j: usize = 0;
    while j < n
        invariant
            j <= n,
            n == s@.len(),
            v@ =~= upper_seq(s@).subrange(0, j as int),
        decreases n - j,
    {
        v.push(upper_char_exec(s.get_char(j)));
        j = j + 1;
    }
    assert(v@ =~= upper_seq(s@));
    chars_to_string(v)
}

/// Parses the hex numeral `s[from..to]` (character positions); `None`
/// where a character in that range is not a hex digit or the value does
/// not fit in `usize`.
pub fn parse_hex_range(s: &str, from: usize, to: usize) -> (r: Option<usize>)
    requires
        from <= to <= s@.len(),
    ensures
        r is Some <==> (all_hex(s@.subrange(from as int, to as int)) && hex_seq_val(
            s@.subrange(from as int, to as int),
        ) <= usize::MAX),
        r is Some ==> r->Some_0 == hex_seq_val(s@.subrange(from as int, to as int)),
{
    let ghost t = s@.subrange(from as int, to as int);
    let mut acc: usize = 0;
    let mut j: usize = from;
    while j < to
        invariant
            from <= j <= to <= s@.len(),
            t == s@.subrange(from as int, to as int),
            all_hex(t.subrange(0, j - from)),
            acc == hex_seq_val(t.subrange(0, j - from)),
        decreases to - j,
    {
        let c = s.get_char(j);
        proof {
            assert(t[j - from] == c);
        }
        let d = match hex_digit_value(c) {
            Some(d) => d,
            None => {
                proof {
                    assert(!is_hex_digit(t[j - from]));
                }
                return None;
            },
        };
        proof {
            lemma_hex_seq_val_extend(t, j - from);
        }
        let bound: usize = (usize::MAX - d as usize) / 16;
        if acc > bound {
            proof {
                let m: int = usize::MAX - d as int;
                assert(m == 16 * (m / 16) + m % 16);
                assert(16 * acc >= 16 * (m / 16 + 1)) by (nonlinear_arith)
                    requires
                        acc as int >= m / 16 + 1,
                ;
                let v1 = hex_seq_val(t.subrange(0, j - from + 1));
                assert(v1 == 16 * acc + hex_digit_val(t[j - from]));
                assert(v1 > usize::MAX);
                if all_hex(t) {
                    lemma_hex_seq_val_prefix_partial(t, j - from + 1);
                }
            }
            return None;
        }
        proof {
            let m: int = usize::MAX - d as int;
            assert(m == 16 * (m / 16) + m % 16);
            assert(16 * acc <= 16 * (m / 16)) by (nonlinear_arith)
                requires
                    acc as int <= m / 16,
            ;
        }
        acc = acc * 16 + d as usize;
        j = j + 1;
    }
    proof {
        assert(t.subrange(0, to - from) =~= t);
    }
    Some(acc)
}

/// Once a prefix of a numeral exceeds `usize::MAX` and the remaining
/// characters are hex digits, the whole numeral exceeds it too.
proof fn lemma_hex_seq_val_prefix_partial(s: Seq<char>, j: int)
    requires
        0 <= j <= s.len(),
        hex_seq_val(s.subrange(0, j)) > usize::MAX,
        forall|i: int| j <= i < s.len() ==> is_hex_digit(#[trigger] s[i]),
    ensures
        hex_seq_val(s) > usize::MAX,
    decreases s.len() - j,
{
    if j == s.len() {
        assert(s.subrange(0, j) =~= s);
    } else {
        lemma_hex_seq_val_extend(s, j);
        lemma_hex_seq_val_prefix_partial(s, j + 1);
    }
}

} // verus!
