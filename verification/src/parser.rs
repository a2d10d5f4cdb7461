//! File name parsing for the matcher: the year, an explicit catalog id
//! tag, an IMDB token, and the title/season/episode split.
//!
//! The year, id-tag and IMDB grammars are this library's own and are
//! verified here character by character. The title/season/episode split is
//! done by the `torrent_name_parser` crate behind a named result.

use crate::matcher::ParsedFile;
use vstd::prelude::*;

verus! {

/// ASCII decimal digit.
pub open spec fn is_digit(c: char) -> bool {
    48 <= c as u32 <= 57
}

/// The value of a decimal digit character.
pub open spec fn digit_val(c: char) -> nat {
    (c as u32 - 48) as nat
}

/// Word character: letter, digit or underscore. Word boundaries fall
/// between a word character and anything else.
pub open spec fn is_word_char(c: char) -> bool {
    ||| is_digit(c)
    ||| 65 <= c as u32 <= 90
    ||| 97 <= c as u32 <= 122
    ||| c as u32 == 95
}

/// Whether `c` is a word character.
fn word_char(c: char) -> (r: bool)
    ensures
        r == is_word_char(c),
{
    let v = c as u32;
    (48 <= v && v <= 57) || (65 <= v && v <= 90) || (97 <= v && v <= 122) || v == 95
}

/// A word boundary precedes position `i`.
pub open spec fn boundary_before(s: Seq<char>, i: int) -> bool {
    i == 0 || !is_word_char(s[i - 1])
}

/// A word boundary follows position `j` (exclusive end).
pub open spec fn boundary_after(s: Seq<char>, j: int) -> bool {
    j == s.len() || !is_word_char(s[j])
}

/// How many consecutive digits stand at position `i`.
pub open spec fn digit_run_len(s: Seq<char>, i: int) -> nat
    decreases s.len() - i when 0 <= i <= s.len()
{
    if 0 <= i < s.len() && is_digit(s[i]) {
        1 + digit_run_len(s, i + 1)
    } else {
        0
    }
}

/// The value of the `l` digits standing at position `i`.
pub open spec fn digits_value(s: Seq<char>, i: int, l: nat) -> nat
    decreases l,
{
    if l == 0 {
        0
    } else {
        digits_value(s, i, (l - 1) as nat) * 10 + digit_val(s[i + l - 1])
    }
}

/// The characters of a digit run are digits, the run ends the sequence or
/// meets a non-digit, and the run stays inside the sequence.
pub proof fn lemma_digit_run(s: Seq<char>, i: int)
    requires
        0 <= i <= s.len(),
    ensures
        i + digit_run_len(s, i) <= s.len(),
        forall|m: int| i <= m < i + digit_run_len(s, i) ==> is_digit(#[trigger] s[m]),
        i + digit_run_len(s, i) < s.len() ==> !is_digit(s[i + digit_run_len(s, i)]),
    decreases s.len() - i,
{
    if 0 <= i < s.len() && is_digit(s[i]) {
        lemma_digit_run(s, i + 1);
    }
}

/// Counts the digits standing at character position `i`.
pub fn digit_run(s: &str, i: usize) -> (r: usize)
    requires
        i <= s@.len(),
    ensures
        r == digit_run_len(s@, i as int),
        i + r <= s@.len(),
{
    let n = s.unicode_len();
    let mut j = i;
    while j < n
        invariant
            i <= j <= n,
            n == s@.len(),
            digit_run_len(s@, i as int) == j - i + digit_run_len(s@, j as int),
        ensures
            i <= j <= n,
            digit_run_len(s@, i as int) == j - i,
        decreases n - j,
    {
        let c = s.get_char(j) as u32;
        if !(48 <= c && c <= 57) {
            proof {
                assert(digit_run_len(s@, j as int) == 0);
            }
            break;
        }
        proof {
            assert(is_digit(s@[j as int]));
            assert(digit_run_len(s@, j as int) == 1 + digit_run_len(s@, j + 1));
        }
        j = j + 1;
    }
    j - i
}

/// Every one of the `k` characters at position `i` is a digit.
pub open spec fn all_digits(s: Seq<char>, i: int, k: int) -> bool {
    forall|m: int| i <= m < i + k ==> is_digit(#[trigger] s[m])
}

/// Ten or more digits stand somewhere in `s`.
pub open spec fn has_long_digit_run(s: Seq<char>) -> bool {
    exists|i: int| 0 <= i && i + 10 <= s.len() && #[trigger] all_digits(s, i, 10)
}

/// Whether ten digits stand in a row anywhere in `s`.
pub fn check_long_digit_run(s: &str) -> (r: bool)
    ensures
        r == has_long_digit_run(s@),
{
    let n = s.unicode_len();
    let mut streak: usize = 0;
    for j in 0..n
        invariant
            n == s@.len(),
            streak <= j,
            streak < 10,
            forall|m: int| j - streak <= m < j ==> is_digit(#[trigger] s@[m]),
            j - streak == 0 || !is_digit(s@[j - streak - 1]),
            forall|i: int| 0 <= i && i + 10 <= j ==> !(#[trigger] all_digits(s@, i, 10)),
    {
        let c = s.get_char(j) as u32;
        if 48 <= c && c <= 57 {
            proof {
                assert(is_digit(s@[j as int]));
            }
            streak = streak + 1;
            if streak == 10 {
                proof {
                    assert(all_digits(s@, j + 1 - 10, 10));
                }
                return true;
            }
            proof {
                assert forall|i: int| 0 <= i && i + 10 <= j + 1 implies !(#[trigger] all_digits(
                    s@,
                    i,
                    10,
                )) by {
                    if i + 10 == j + 1 {
                        let w = j + 1 - streak;
                        assert(w >= 1);
                        assert(i <= w - 1 < i + 10);
                        assert(!is_digit(s@[w - 1]));
                    } else {
                        assert(!all_digits(s@, i, 10));
                    }
                }
            }
        } else {
            streak = 0;
            proof {
                assert forall|i: int| 0 <= i && i + 10 <= j + 1 implies !(#[trigger] all_digits(
                    s@,
                    i,
                    10,
                )) by {
                    if i + 10 == j + 1 {
                        assert(i <= j < i + 10);
                        assert(!is_digit(s@[j as int]));
                    } else {
                        assert(!all_digits(s@, i, 10));
                    }
                }
            }
        }
    }
    proof {
        if has_long_digit_run(s@) {
            let i = choose|i: int| 0 <= i && i + 10 <= s@.len() && #[trigger] all_digits(s@, i, 10);
            assert(!all_digits(s@, i, 10));
        }
    }
    false
}

/// A decimal digit outside ASCII: the other ranges of Unicode's
/// Decimal_Number category, as the regex crate's `\d` matches them
/// (Unicode 16.0).
pub open spec fn is_wide_digit(c: char) -> bool {
    ||| 0x660 <= c as u32 <= 0x669
    ||| 0x6F0 <= c as u32 <= 0x6F9
    ||| 0x7C0 <= c as u32 <= 0x7C9
    ||| 0x966 <= c as u32 <= 0x96F
    ||| 0x9E6 <= c as u32 <= 0x9EF
    ||| 0xA66 <= c as u32 <= 0xA6F
    ||| 0xAE6 <= c as u32 <= 0xAEF
    ||| 0xB66 <= c as u32 <= 0xB6F
    ||| 0xBE6 <= c as u32 <= 0xBEF
    ||| 0xC66 <= c as u32 <= 0xC6F
    ||| 0xCE6 <= c as u32 <= 0xCEF
    ||| 0xD66 <= c as u32 <= 0xD6F
    ||| 0xDE6 <= c as u32 <= 0xDEF
    ||| 0xE50 <= c as u32 <= 0xE59
    ||| 0xED0 <= c as u32 <= 0xED9
    ||| 0xF20 <= c as u32 <= 0xF29
    ||| 0x1040 <= c as u32 <= 0x1049
    ||| 0x1090 <= c as u32 <= 0x1099
    ||| 0x17E0 <= c as u32 <= 0x17E9
    ||| 0x1810 <= c as u32 <= 0x1819
    ||| 0x1946 <= c as u32 <= 0x194F
    ||| 0x19D0 <= c as u32 <= 0x19D9
    ||| 0x1A80 <= c as u32 <= 0x1A89
    ||| 0x1A90 <= c as u32 <= 0x1A99
    ||| 0x1B50 <= c as u32 <= 0x1B59
    ||| 0x1BB0 <= c as u32 <= 0x1BB9
    ||| 0x1C40 <= c as u32 <= 0x1C49
    ||| 0x1C50 <= c as u32 <= 0x1C59
    ||| 0xA620 <= c as u32 <= 0xA629
    ||| 0xA8D0 <= c as u32 <= 0xA8D9
    ||| 0xA900 <= c as u32 <= 0xA909
    ||| 0xA9D0 <= c as u32 <= 0xA9D9
    ||| 0xA9F0 <= c as u32 <= 0xA9F9
    ||| 0xAA50 <= c as u32 <= 0xAA59
    ||| 0xABF0 <= c as u32 <= 0xABF9
    ||| 0xFF10 <= c as u32 <= 0xFF19
    ||| 0x104A0 <= c as u32 <= 0x104A9
    ||| 0x10D30 <= c as u32 <= 0x10D39
    ||| 0x10D40 <= c as u32 <= 0x10D49
    ||| 0x11066 <= c as u32 <= 0x1106F
    ||| 0x110F0 <= c as u32 <= 0x110F9
    ||| 0x11136 <= c as u32 <= 0x1113F
    ||| 0x111D0 <= c as u32 <= 0x111D9
    ||| 0x112F0 <= c as u32 <= 0x112F9
    ||| 0x11450 <= c as u32 <= 0x11459
    ||| 0x114D0 <= c as u32 <= 0x114D9
    ||| 0x11650 <= c as u32 <= 0x11659
    ||| 0x116C0 <= c as u32 <= 0x116C9
    ||| 0x116D0 <= c as u32 <= 0x116E3
    ||| 0x11730 <= c as u32 <= 0x11739
    ||| 0x118E0 <= c as u32 <= 0x118E9
    ||| 0x11950 <= c as u32 <= 0x11959
    ||| 0x11BF0 <= c as u32 <= 0x11BF9
    ||| 0x11C50 <= c as u32 <= 0x11C59
    ||| 0x11D50 <= c as u32 <= 0x11D59
    ||| 0x11DA0 <= c as u32 <= 0x11DA9
    ||| 0x11F50 <= c as u32 <= 0x11F59
    ||| 0x16130 <= c as u32 <= 0x16139
    ||| 0x16A60 <= c as u32 <= 0x16A69
    ||| 0x16AC0 <= c as u32 <= 0x16AC9
    ||| 0x16B50 <= c as u32 <= 0x16B59
    ||| 0x16D70 <= c as u32 <= 0x16D79
    ||| 0x1CCF0 <= c as u32 <= 0x1CCF9
    ||| 0x1D7CE <= c as u32 <= 0x1D7FF
    ||| 0x1E140 <= c as u32 <= 0x1E149
    ||| 0x1E2F0 <= c as u32 <= 0x1E2F9
    ||| 0x1E4F0 <= c as u32 <= 0x1E4F9
    ||| 0x1E5F1 <= c as u32 <= 0x1E5FA
    ||| 0x1E950 <= c as u32 <= 0x1E959
    ||| 0x1FBF0 <= c as u32 <= 0x1FBF9
}

/// Whether `c` is a decimal digit outside ASCII.
fn wide_digit(c: char) -> (r: bool)
    ensures
        r == is_wide_digit(c),
{
    let v = c as u32;
    (0x660 <= v && v <= 0x669) || (0x6F0 <= v && v <= 0x6F9) || (0x7C0 <= v && v <= 0x7C9)
        || (0x966 <= v && v <= 0x96F) || (0x9E6 <= v && v <= 0x9EF) || (0xA66 <= v && v <=
        0xA6F) || (0xAE6 <= v && v <= 0xAEF) || (0xB66 <= v && v <= 0xB6F) || (0xBE6 <= v &&
        v <= 0xBEF) || (0xC66 <= v && v <= 0xC6F) || (0xCE6 <= v && v <= 0xCEF) || (0xD66 <=
        v && v <= 0xD6F) || (0xDE6 <= v && v <= 0xDEF) || (0xE50 <= v && v <= 0xE59) ||
        (0xED0 <= v && v <= 0xED9) || (0xF20 <= v && v <= 0xF29) || (0x1040 <= v && v <=
        0x1049) || (0x1090 <= v && v <= 0x1099) || (0x17E0 <= v && v <= 0x17E9) || (0x1810
        <= v && v <= 0x1819) || (0x1946 <= v && v <= 0x194F) || (0x19D0 <= v && v <= 0x19D9)
        || (0x1A80 <= v && v <= 0x1A89) || (0x1A90 <= v && v <= 0x1A99) || (0x1B50 <= v && v
        <= 0x1B59) || (0x1BB0 <= v && v <= 0x1BB9) || (0x1C40 <= v && v <= 0x1C49) ||
        (0x1C50 <= v && v <= 0x1C59) || (0xA620 <= v && v <= 0xA629) || (0xA8D0 <= v && v <=
        0xA8D9) || (0xA900 <= v && v <= 0xA909) || (0xA9D0 <= v && v <= 0xA9D9) || (0xA9F0
        <= v && v <= 0xA9F9) || (0xAA50 <= v && v <= 0xAA59) || (0xABF0 <= v && v <= 0xABF9)
        || (0xFF10 <= v && v <= 0xFF19) || (0x104A0 <= v && v <= 0x104A9) || (0x10D30 <= v
        && v <= 0x10D39) || (0x10D40 <= v && v <= 0x10D49) || (0x11066 <= v && v <= 0x1106F)
        || (0x110F0 <= v && v <= 0x110F9) || (0x11136 <= v && v <= 0x1113F) || (0x111D0 <= v
        && v <= 0x111D9) || (0x112F0 <= v && v <= 0x112F9) || (0x11450 <= v && v <= 0x11459)
        || (0x114D0 <= v && v <= 0x114D9) || (0x11650 <= v && v <= 0x11659) || (0x116C0 <= v
        && v <= 0x116C9) || (0x116D0 <= v && v <= 0x116E3) || (0x11730 <= v && v <= 0x11739)
        || (0x118E0 <= v && v <= 0x118E9) || (0x11950 <= v && v <= 0x11959) || (0x11BF0 <= v
        && v <= 0x11BF9) || (0x11C50 <= v && v <= 0x11C59) || (0x11D50 <= v && v <= 0x11D59)
        || (0x11DA0 <= v && v <= 0x11DA9) || (0x11F50 <= v && v <= 0x11F59) || (0x16130 <= v
        && v <= 0x16139) || (0x16A60 <= v && v <= 0x16A69) || (0x16AC0 <= v && v <= 0x16AC9)
        || (0x16B50 <= v && v <= 0x16B59) || (0x16D70 <= v && v <= 0x16D79) || (0x1CCF0 <= v
        && v <= 0x1CCF9) || (0x1D7CE <= v && v <= 0x1D7FF) || (0x1E140 <= v && v <= 0x1E149)
        || (0x1E2F0 <= v && v <= 0x1E2F9) || (0x1E4F0 <= v && v <= 0x1E4F9) || (0x1E5F1 <= v
        && v <= 0x1E5FA) || (0x1E950 <= v && v <= 0x1E959) || (0x1FBF0 <= v && v <= 0x1FBF9)
}

/// A decimal digit outside ASCII stands somewhere in `s`.
pub open spec fn has_wide_digit(s: Seq<char>) -> bool {
    exists|i: int| 0 <= i < s.len() && is_wide_digit(#[trigger] s[i])
}

/// Whether any decimal digit outside ASCII stands in `s`.
pub fn check_wide_digit(s: &str) -> (r: bool)
    ensures
        r == has_wide_digit(s@),
{
    let n = s.unicode_len();
    for i in 0..n
        invariant
            n == s@.len(),
            forall|j: int| 0 <= j < i ==> !is_wide_digit(#[trigger] s@[j]),
    {
        if wide_digit(s.get_char(i)) {
            return true;
        }
    }
    proof {
        if has_wide_digit(s@) {
            let w = choose|w: int| 0 <= w < s@.len() && is_wide_digit(#[trigger] s@[w]);
            assert(!is_wide_digit(s@[w]));
        }
    }
    false
}

/// A four-digit word-bounded year stands at position `i`.
pub open spec fn year_at(s: Seq<char>, i: int) -> bool {
    &&& 0 <= i
    &&& i + 4 <= s.len()
    &&& forall|m: int| i <= m < i + 4 ==> is_digit(#[trigger] s[m])
    &&& boundary_before(s, i)
    &&& boundary_after(s, i + 4)
}

/// The year written at position `i`.
pub open spec fn year_value(s: Seq<char>, i: int) -> int {
    digits_value(s, i, 4) as int
}

/// The last word-bounded four-digit token of `s`, read as a year; the last
/// one, so that a title carrying a number does not shadow the year.
pub open spec fn last_year(s: Seq<char>) -> Option<i32> {
    if exists|i: int| year_at(s, i) {
        let i = choose|i: int| year_at(s, i) && forall|j: int| j > i ==> !year_at(s, j);
        Some(year_value(s, i) as i32)
    } else {
        None
    }
}

/// Whether a year token starts at `i`.
fn year_at_exec(s: &str, i: usize) -> (r: bool)
    requires
        i + 4 <= s@.len(),
    ensures
        r == year_at(s@, i as int),
{
    let n = s.unicode_len();
    for k in 0..4usize
        invariant
            i + 4 <= s@.len(),
            n == s@.len(),
            forall|m: int| i <= m < i + k ==> is_digit(#[trigger] s@[m]),
    {
        let c = s.get_char(i + k) as u32;
        if !(48 <= c && c <= 57) {
            return false;
        }
        proof {
            assert(is_digit(s@[i + k]));
        }
    }
    if i > 0 {
        let c = s.get_char(i - 1) as u32;
        if (48 <= c && c <= 57) || (65 <= c && c <= 90) || (97 <= c && c <= 122) || c == 95 {
            proof {
                assert(is_word_char(s@[i - 1]));
            }
            return false;
        }
    }
    if i + 4 < n {
        let c = s.get_char(i + 4) as u32;
        if (48 <= c && c <= 57) || (65 <= c && c <= 90) || (97 <= c && c <= 122) || c == 95 {
            proof {
                assert(is_word_char(s@[i + 4]));
            }
            return false;
        }
    }
    proof {
        if i > 0 {
            assert(!is_word_char(s@[i - 1]));
        }
        if i + 4 < s@.len() {
            assert(!is_word_char(s@[i + 4]));
        }
    }
    true
}

/// The four digits at `i`, as a number.
fn read_year(s: &str, i: usize) -> (r: i32)
    requires
        i + 4 <= s@.len(),
        forall|m: int| i <= m < i + 4 ==> is_digit(#[trigger] s@[m]),
    ensures
        r as int == year_value(s@, i as int),
        0 <= r <= 9999,
{
    let n = s.unicode_len();
    let d0 = s.get_char(i) as u32 - 48;
    let d1 = s.get_char(i + 1) as u32 - 48;
    let d2 = s.get_char(i + 2) as u32 - 48;
    let d3 = s.get_char(i + 3) as u32 - 48;
    let v = d0 * 1000 + d1 * 100 + d2 * 10 + d3;
    proof {
        assert(digits_value(s@, i as int, 0) == 0);
        assert(digits_value(s@, i as int, 4) == digits_value(s@, i as int, 3) * 10 + digit_val(
            s@[i + 3],
        ));
        assert(digits_value(s@, i as int, 3) == digits_value(s@, i as int, 2) * 10 + digit_val(
            s@[i + 2],
        ));
        assert(digits_value(s@, i as int, 2) == digits_value(s@, i as int, 1) * 10 + digit_val(
            s@[i + 1],
        ));
        assert(digits_value(s@, i as int, 1) == digit_val(s@[i as int]));
    }
    v as i32
}

/// The year of a file name: its last word-bounded four-digit token.
pub fn get_year(name: &str) -> (r: Option<i32>)
    ensures
        r == last_year(name@),
{
    let n = name.unicode_len();
    if n < 4 {
        proof {
            if exists|i: int| year_at(name@, i) {
                let i = choose|i: int| year_at(name@, i);
                assert(i + 4 <= name@.len());
            }
        }
        return None;
    }
    let mut p = n - 3;  // one past the last possible start
    while p > 0
        invariant
            n == name@.len(),
            4 <= n,
            p <= n - 3,
            forall|j: int| p <= j ==> !year_at(name@, j),
        decreases p,
    {
        p = p - 1;
        if year_at_exec(name, p) {
            let v = read_year(name, p);
            proof {
                assert(year_at(name@, p as int));
                let i = choose|i: int| year_at(name@, i) && forall|j: int| j > i ==> !year_at(name@, j);
                assert(year_at(name@, i) && forall|j: int| j > i ==> !year_at(name@, j));
                if i < p as int {
                    assert(!year_at(name@, p as int));
                }
                if i > p as int {
                    assert(!year_at(name@, i));
                }
                assert(i == p as int);
            }
            return Some(v);
        }
    }
    proof {
        assert forall|i: int| !year_at(name@, i) by {
            if year_at(name@, i) {
                assert(0 <= i && i + 4 <= name@.len());
            }
        }
    }
    None
}

/// A word-bounded IMDB token (`tt` then six or more digits) stands at `i`.
pub open spec fn imdb_at(s: Seq<char>, i: int) -> bool {
    &&& 0 <= i
    &&& i + 2 <= s.len()
    &&& s[i] as u32 == 116
    &&& s[i + 1] as u32 == 116
    &&& boundary_before(s, i)
    &&& digit_run_len(s, i + 2) >= 6
    &&& boundary_after(s, i + 2 + digit_run_len(s, i + 2))
}

/// The IMDB token standing at `i`: `tt` and the whole digit run.
pub open spec fn imdb_token(s: Seq<char>, i: int) -> Seq<char> {
    s.subrange(i, i + 2 + digit_run_len(s, i + 2))
}

/// The first IMDB token of `s`, if any.
pub open spec fn first_imdb(s: Seq<char>) -> Option<Seq<char>> {
    if exists|i: int| imdb_at(s, i) {
        let i = choose|i: int| imdb_at(s, i) && forall|j: int| 0 <= j < i ==> !imdb_at(s, j);
        Some(imdb_token(s, i))
    } else {
        None
    }
}

/// Whether an IMDB token starts at `i`.
fn imdb_at_exec(s: &str, i: usize) -> (r: bool)
    requires
        i < s@.len(),
    ensures
        r == imdb_at(s@, i as int),
{
    let n = s.unicode_len();
    if i > 0 && word_char(s.get_char(i - 1)) {
        return false;
    }
    if s.get_char(i) as u32 != 116 {
        return false;
    }
    if i + 1 >= n || s.get_char(i + 1) as u32 != 116 {
        return false;
    }
    let run = digit_run(s, i + 2);
    if run < 6 {
        return false;
    }
    let end = i + 2 + run;
    if end < n && word_char(s.get_char(end)) {
        return false;
    }
    true
}

/// The first IMDB token of a file name. IMDB ids start with `tt`, so the
/// token can be matched this loosely.
pub fn get_imdb_id(name: &str) -> (r: Option<String>)
    ensures
        match r {
            Some(t) => first_imdb(name@) == Some(t@),
            None => first_imdb(name@) is None,
        },
{
    let n = name.unicode_len();
    for i in 0..n
        invariant
            n == name@.len(),
            forall|j: int| 0 <= j < i ==> !imdb_at(name@, j),
    {
        if imdb_at_exec(name, i) {
            let run = digit_run(name, i + 2);
            let tok = name.substring_char(i, i + 2 + run);
            let out = String::from_str(tok);
            proof {
                assert(imdb_at(name@, i as int));
                let w = choose|w: int|
                    imdb_at(name@, w) && forall|j: int| 0 <= j < w ==> !imdb_at(name@, j);
                assert(imdb_at(name@, w) && forall|j: int| 0 <= j < w ==> !imdb_at(name@, j));
                if w < i as int {
                    assert(!imdb_at(name@, w));
                }
                if w > i as int {
                    assert(!imdb_at(name@, i as int));
                }
                assert(w == i as int);
                assert(out@ == imdb_token(name@, i as int));
            }
            return Some(out);
        }
    }
    proof {
        if exists|j: int| imdb_at(name@, j) {
            let j = choose|j: int| imdb_at(name@, j);
            assert(j + 2 <= name@.len());
            assert(!imdb_at(name@, j));
        }
    }
    None
}

/// Opening bracket of an id tag.
pub open spec fn is_opener(c: char) -> bool {
    c as u32 == 123 || c as u32 == 91
}

/// Closing bracket of an id tag.
pub open spec fn is_closer(c: char) -> bool {
    c as u32 == 125 || c as u32 == 93
}

/// Separator between the tag word and the digits.
pub open spec fn is_sep(c: char) -> bool {
    c as u32 == 61 || c as u32 == 45
}

/// The word `tmdb` stands at `p`.
pub open spec fn tmdb_word_at(s: Seq<char>, p: int) -> bool {
    &&& 0 <= p
    &&& p + 4 <= s.len()
    &&& s[p] as u32 == 116
    &&& s[p + 1] as u32 == 109
    &&& s[p + 2] as u32 == 100
    &&& s[p + 3] as u32 == 98
}

/// The word `id` stands at `q`.
pub open spec fn id_word_at(s: Seq<char>, q: int) -> bool {
    &&& 0 <= q
    &&& q + 2 <= s.len()
    &&& s[q] as u32 == 105
    &&& s[q + 1] as u32 == 100
}

/// A separator, at least three digits, and a closing bracket stand at `q`.
pub open spec fn sep_digits_at(s: Seq<char>, q: int) -> bool {
    &&& 0 <= q < s.len()
    &&& is_sep(s[q])
    &&& digit_run_len(s, q + 1) >= 3
    &&& q + 1 + digit_run_len(s, q + 1) < s.len()
    &&& is_closer(s[q + 1 + digit_run_len(s, q + 1)])
}

/// An id tag stands at `i`: a bracket, `tmdb`, optionally `id` or `-id`,
/// a separator, the digits, and the closing bracket.
pub open spec fn tmdb_at(s: Seq<char>, i: int) -> bool {
    &&& 0 <= i < s.len()
    &&& is_opener(s[i])
    &&& tmdb_word_at(s, i + 1)
    &&& (sep_digits_at(s, i + 5) || (id_word_at(s, i + 5) && sep_digits_at(s, i + 7)) || (i + 5
        < s.len() && s[i + 5] as u32 == 45 && id_word_at(s, i + 6) && sep_digits_at(s, i + 8)))
}

/// Where the digits of the tag at `i` start (one past its separator).
pub open spec fn tmdb_digits_pos(s: Seq<char>, i: int) -> int {
    if sep_digits_at(s, i + 5) {
        i + 6
    } else if id_word_at(s, i + 5) && sep_digits_at(s, i + 7) {
        i + 8
    } else {
        i + 9
    }
}

/// The id written in the tag at `i`.
pub open spec fn tmdb_value(s: Seq<char>, i: int) -> nat {
    digits_value(s, tmdb_digits_pos(s, i), digit_run_len(s, tmdb_digits_pos(s, i)))
}

/// The id of the first tag of `s`, if any.
pub open spec fn first_tmdb(s: Seq<char>) -> Option<nat> {
    if exists|i: int| tmdb_at(s, i) {
        let i = choose|i: int| tmdb_at(s, i) && forall|j: int| 0 <= j < i ==> !tmdb_at(s, j);
        Some(tmdb_value(s, i))
    } else {
        None
    }
}

/// Whether a separator-digits-closer run starts at `q`.
fn sep_digits_at_exec(s: &str, q: usize) -> (r: bool)
    requires
        q <= s@.len(),
    ensures
        r == sep_digits_at(s@, q as int),
{
    let n = s.unicode_len();
    if q >= n {
        return false;
    }
    let c = s.get_char(q) as u32;
    if !(c == 61 || c == 45) {
        return false;
    }
    let run = digit_run(s, q + 1);
    if run < 3 {
        return false;
    }
    if q + 1 + run >= n {
        return false;
    }
    let e = s.get_char(q + 1 + run) as u32;
    e == 125 || e == 93
}

/// Whether an id tag starts at `i`.
fn tmdb_at_exec(s: &str, i: usize) -> (r: bool)
    requires
        i < s@.len(),
    ensures
        r == tmdb_at(s@, i as int),
{
    let n = s.unicode_len();
    let c = s.get_char(i) as u32;
    if !(c == 123 || c == 91) {
        return false;
    }
    if n - i < 5 {
        return false;
    }
    if s.get_char(i + 1) as u32 != 116 || s.get_char(i + 2) as u32 != 109 || s.get_char(i + 3)
        as u32 != 100 || s.get_char(i + 4) as u32 != 98 {
        return false;
    }
    if sep_digits_at_exec(s, i + 5) {
        return true;
    }
    if n - i >= 7 && s.get_char(i + 5) as u32 == 105 && s.get_char(i + 6) as u32 == 100
        && sep_digits_at_exec(s, i + 7) {
        return true;
    }
    if n - i >= 8 && s.get_char(i + 5) as u32 == 45 && s.get_char(i + 6) as u32 == 105 && s.get_char(
        i + 7,
    ) as u32 == 100 && sep_digits_at_exec(s, i + 8) {
        return true;
    }
    false
}

/// The value of digit runs never shrinks as the run grows.
proof fn lemma_digits_value_mono(s: Seq<char>, q: int, k: nat, l: nat)
    requires
        k <= l,
    ensures
        digits_value(s, q, k) <= digits_value(s, q, l),
    decreases l,
{
    if k < l {
        lemma_digits_value_mono(s, q, k, (l - 1) as nat);
        assert(digits_value(s, q, l) == digits_value(s, q, (l - 1) as nat) * 10 + digit_val(
            s[q + l - 1],
        ));
    }
}

/// Reads the `run` digits at `q` as a number, reporting `None` when the
/// value does not fit.
fn read_digits(s: &str, q: usize, run: usize) -> (r: Option<i64>)
    requires
        q + run <= s@.len(),
        forall|m: int| q <= m < q + run ==> is_digit(#[trigger] s@[m]),
    ensures
        match r {
            Some(v) => v as int == digits_value(s@, q as int, run as nat) && v >= 0,
            None => digits_value(s@, q as int, run as nat) > i64::MAX,
        },
{
    let n = s.unicode_len();
    let mut acc: i64 = 0;
    for k in 0..run
        invariant
            n == s@.len(),
            q + run <= n,
            forall|m: int| q <= m < q + run ==> is_digit(#[trigger] s@[m]),
            0 <= acc,
            acc as int == digits_value(s@, q as int, k as nat),
    {
        let d = (s.get_char(q + k) as u32 - 48) as i64;
        proof {
            assert(is_digit(s@[q + k]));
            assert(digits_value(s@, q as int, (k + 1) as nat) == digits_value(
                s@,
                q as int,
                k as nat,
            ) * 10 + digit_val(s@[q + k]));
        }
        if acc > (i64::MAX - d) / 10 {
            proof {
                lemma_digits_value_mono(s@, q as int, (k + 1) as nat, run as nat);
            }
            return None;
        }
        acc = acc * 10 + d;
    }
    Some(acc)
}

/// Reads the `run` digits at `q` as an unsigned number, reporting `None`
/// when the value does not fit.
pub fn read_digits_u64(s: &str, q: usize, run: usize) -> (r: Option<u64>)
    requires
        q + run <= s@.len(),
        forall|m: int| q <= m < q + run ==> is_digit(#[trigger] s@[m]),
    ensures
        match r {
            Some(v) => v as int == digits_value(s@, q as int, run as nat),
            None => digits_value(s@, q as int, run as nat) > u64::MAX,
        },
{
    let n = s.unicode_len();
    let mut acc: u64 = 0;
    for k in 0..run
        invariant
            n == s@.len(),
            q + run <= n,
            forall|m: int| q <= m < q + run ==> is_digit(#[trigger] s@[m]),
            acc as int == digits_value(s@, q as int, k as nat),
    {
        let d = (s.get_char(q + k) as u32 - 48) as u64;
        proof {
            assert(is_digit(s@[q + k]));
            assert(digits_value(s@, q as int, (k + 1) as nat) == digits_value(
                s@,
                q as int,
                k as nat,
            ) * 10 + digit_val(s@[q + k]));
        }
        if acc > (u64::MAX - d) / 10 {
            proof {
                lemma_digits_value_mono(s@, q as int, (k + 1) as nat, run as nat);
            }
            return None;
        }
        acc = acc * 10 + d;
    }
    Some(acc)
}

/// The id of the first explicit catalog tag of a file name, when it fits
/// a signed 64-bit integer.
#[verifier::rlimit(60)]
pub fn get_tmdb_id(name: &str) -> (r: Option<i64>)
    ensures
        match first_tmdb(name@) {
            Some(v) => if v <= i64::MAX {
                r == Some(v as i64)
            } else {
                r is None
            },
            None => r is None,
        },
{
    let n = name.unicode_len();
    for i in 0..n
        invariant
            n == name@.len(),
            forall|j: int| 0 <= j < i ==> !tmdb_at(name@, j),
    {
        if tmdb_at_exec(name, i) {
            proof {
                assert(tmdb_at(name@, i as int));
                let w = choose|w: int|
                    tmdb_at(name@, w) && forall|j: int| 0 <= j < w ==> !tmdb_at(name@, j);
                assert(tmdb_at(name@, w) && forall|j: int| 0 <= j < w ==> !tmdb_at(name@, j));
                if w < i as int {
                    assert(!tmdb_at(name@, w));
                }
                if w > i as int {
                    assert(!tmdb_at(name@, i as int));
                }
                assert(w == i as int);
            }
            let q: usize = if sep_digits_at_exec(name, i + 5) {
                i + 6
            } else if n - i >= 7 && name.get_char(i + 5) as u32 == 105 && name.get_char(i + 6)
                as u32 == 100 && sep_digits_at_exec(name, i + 7) {
                i + 8
            } else {
                i + 9
            };
            proof {
                assert(q as int == tmdb_digits_pos(name@, i as int));
                assert(sep_digits_at(name@, q - 1));
                lemma_digit_run(name@, q as int);
            }
            let run = digit_run(name, q);
            return read_digits(name, q, run);
        }
    }
    proof {
        if exists|j: int| tmdb_at(name@, j) {
            let j = choose|j: int| tmdb_at(name@, j);
            assert(0 <= j < name@.len());
            assert(!tmdb_at(name@, j));
        }
    }
    None
}

/// The title, season number and episode list the name parser reads out of
/// a file name, or nothing when it finds no title. A function of the name
/// alone.
pub uninterp spec fn parsed_name(s: Seq<char>) -> Option<(Seq<char>, Option<i32>, Seq<i32>)>;

/// Why a file name yields no parse.
pub enum ParseError {
    /// The name parser found no title in the name.
    NoTitle,
    /// The name holds ten or more consecutive digits, which no sane
    /// release name does; such names are refused rather than parsed.
    NumberTooLong,
    /// The name holds a decimal digit outside ASCII; the name parser's
    /// number handling cannot digest those, so such names are refused
    /// rather than parsed.
    NonAsciiDigits,
}

/// Relies on `torrent_name_parser::Metadata::from`, whose `title`,
/// `season` and `episodes` are functions of the name alone. That crate
/// reads its number tokens with `\d` patterns and parses the captures
/// with `unwrap`: a capture is a contiguous run of Unicode decimal
/// digits, and the parse takes only ASCII ones and only values that fit.
/// So names carrying any decimal digit outside ASCII, or ten or more
/// ASCII digits in a row, are kept away from it; every capture is then
/// an ASCII digit run of at most nine digits, which always parses.
#[verifier::external_body]
fn parse_name_meta(name: &str) -> (r: Option<(String, Option<i32>, Vec<i32>)>)
    requires
        !has_long_digit_run(name@),
        !has_wide_digit(name@),
    ensures
        match r {
            Some(p) => parsed_name(name@) == Some((p.0@, p.1, p.2@)),
            None => parsed_name(name@) is None,
        },
{
    match torrent_name_parser::Metadata::from(name) {
        Ok(m) => Some((m.title().to_string(), m.season(), m.episodes().clone())),
        Err(_) => None,
    }
}

/// Parses a file name into what the matcher asks the catalog about: the
/// name parser's title, season and episodes, and the name's own last
/// four-digit year token, which beats the name parser's looser year rule.
pub fn parse_file_name(file_name: &str) -> (r: Result<ParsedFile, ParseError>)
    ensures
        match r {
            Ok(p) => {
                &&& !has_long_digit_run(file_name@)
                &&& !has_wide_digit(file_name@)
                &&& (parsed_name(file_name@) matches Some(m) && p.title@ == m.0
                    && p.season_number == m.1 && p.episodes@ == m.2)
                &&& p.year == last_year(file_name@)
            },
            Err(e) => match e {
                ParseError::NumberTooLong => has_long_digit_run(file_name@),
                ParseError::NonAsciiDigits => !has_long_digit_run(file_name@) && has_wide_digit(
                    file_name@,
                ),
                ParseError::NoTitle => {
                    &&& !has_long_digit_run(file_name@)
                    &&& !has_wide_digit(file_name@)
                    &&& parsed_name(file_name@) is None
                },
            },
        },
{
    if check_long_digit_run(file_name) {
        return Err(ParseError::NumberTooLong);
    }
    if check_wide_digit(file_name) {
        return Err(ParseError::NonAsciiDigits);
    }
    match parse_name_meta(file_name) {
        Some(t) => {
            let (title, season_number, episodes) = t;
            Ok(ParsedFile { title, year: get_year(file_name), season_number, episodes })
        },
        None => Err(ParseError::NoTitle),
    }
}

} // verus!
