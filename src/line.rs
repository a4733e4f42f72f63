use vstd::prelude::*;
use vstd::string::*;

verus! {

/// An ASCII whitespace character.
pub open spec fn is_ascii_space(c: char) -> bool {
    c == ' ' || c == '\t' || c == '\n' || c == '\r' || c == '\x0b' || c == '\x0c'
}

pub open spec fn is_ascii_digit(c: char) -> bool {
    48 <= (c as u32) <= 57
}

/// Whether a word may start at `p`: at the start of the line, after ASCII
/// whitespace, or after a non-ASCII character (which may be whitespace).
pub open spec fn word_start(line: Seq<char>, p: int) -> bool {
    p == 0 || is_ascii_space(line[p - 1]) || (line[p - 1] as u32) >= 128
}

/// Whether a `due:` or `t:` key starts a word at `p`.
pub open spec fn date_key_at(line: Seq<char>, p: int) -> bool {
    &&& 0 <= p < line.len()
    &&& word_start(line, p)
    &&& {
        ||| (p + 4 <= line.len() && line[p] == 'd' && line[p + 1] == 'u' && line[p + 2] == 'e'
            && line[p + 3] == ':')
        ||| (p + 2 <= line.len() && line[p] == 't' && line[p + 1] == ':')
    }
}

/// Whether six ASCII digits follow one another from `q` on.
pub open spec fn six_digits_at(line: Seq<char>, q: int) -> bool {
    0 <= q && q + 6 <= line.len() && forall|k: int| q <= k < q + 6 ==> is_ascii_digit(line[k])
}

/// Whether six ASCII digits in a row stand in the word that starts at `p`,
/// before any ASCII whitespace.
pub open spec fn long_number_from(line: Seq<char>, p: int) -> bool {
    exists|q: int|
        p <= q && #[trigger] six_digits_at(line, q) && forall|k: int|
            p <= k < q ==> !is_ascii_space(line[k])
}

/// Whether a `due:` or `t:` value of the line holds a number of six digits
/// or more: as a relative offset (`+1000000d`) it may leave the range of
/// calendar dates.
pub open spec fn long_date_offset(line: Seq<char>) -> bool {
    exists|p: int| #[trigger] date_key_at(line, p) && long_number_from(line, p)
}

fn is_space_char(c: char) -> (r: bool)
    ensures
        r == is_ascii_space(c),
{
    c == ' ' || c == '\t' || c == '\n' || c == '\r' || c == '\x0b' || c == '\x0c'
}

fn is_digit_char(c: char) -> (r: bool)
    ensures
        r == is_ascii_digit(c),
{
    48 <= (c as u32) && (c as u32) <= 57
}

fn has_long_number_from(line: &str, n: usize, p: usize) -> (r: bool)
    requires
        n == line@.len(),
        p <= n,
    ensures
        r == long_number_from(line@, p as int),
{
    let ghost s = line@;
    let mut k: usize = p;
    let mut run: usize = 0;
    while k < n
        invariant
            n == s.len(),
            s == line@,
            p <= k <= n,
            run <= 5,
            run <= k - p,
            forall|j: int| p <= j < k ==> !is_ascii_space(s[j]),
            forall|j: int| k - run <= j < k ==> is_ascii_digit(s[j]),
            k - run == p || !is_ascii_digit(s[k - run - 1]),
            forall|q: int| p <= q && q + 6 <= k ==> !six_digits_at(s, q),
        decreases n - k,
    {
        let c = line.get_char(k);
        if is_space_char(c) {
            assert forall|q: int| p <= q && six_digits_at(s, q) implies exists|j: int|
                p <= j < q && is_ascii_space(s[j]) by {
                if q + 6 > k {
                    if q <= k {
                        assert(is_ascii_digit(s[k as int]));
                    } else {
                        assert(is_ascii_space(s[k as int]));
                    }
                }
            }
            return false;
        }
        if is_digit_char(c) {
            if run == 5 {
                let ghost q = k - 5;
                assert(six_digits_at(s, q));
                return true;
            }
            proof {
                let q = k - 5;
                if p <= q && six_digits_at(s, q) {
                    assert(is_ascii_digit(s[k - run - 1]));
                }
            }
            run = run + 1;
        } else {
            run = 0;
        }
        k = k + 1;
    }
    assert forall|q: int| p <= q implies !six_digits_at(s, q) by {}
    false
}

fn has_date_key_at(line: &str, n: usize, p: usize) -> (r: bool)
    requires
        n == line@.len(),
        p < n,
    ensures
        r == date_key_at(line@, p as int),
{
    let start = p == 0 || {
        let c = line.get_char(p - 1);
        is_space_char(c) || (c as u32) >= 128
    };
    if !start {
        return false;
    }
    let due = n - p >= 4 && line.get_char(p) == 'd' && line.get_char(p + 1) == 'u' && line.get_char(
        p + 2,
    ) == 'e' && line.get_char(p + 3) == ':';
    let t = n - p >= 2 && line.get_char(p) == 't' && line.get_char(p + 1) == ':';
    due || t
}

/// Whether a `due:` or `t:` value of `line` holds a number of six digits or
/// more.
pub fn has_long_date_offset(line: &str) -> (r: bool)
    ensures
        r == long_date_offset(line@),
{
    let n = line.unicode_len();
    let mut p: usize = 0;
    while p < n
        invariant
            n == line@.len(),
            p <= n,
            forall|p2: int| 0 <= p2 < p ==> !(#[trigger] date_key_at(line@, p2) && long_number_from(line@, p2)),
        decreases n - p,
    {
        if has_date_key_at(line, n, p) && has_long_number_from(line, n, p) {
            return true;
        }
        p = p + 1;
    }
    false
}

} // verus!
