use vstd::prelude::*;

use crate::dates::spec_days_in_month;
use crate::dates::Date;
use crate::errors::FriendError;

verus! {

/// A decimal digit character.
pub open spec fn spec_is_digit(c: char) -> bool {
    '0' <= c <= '9'
}

/// The value of a decimal digit character.
pub open spec fn spec_digit_val(c: char) -> int
    recommends
        spec_is_digit(c),
{
    c as u32 - '0' as u32
}

/// Every character of the sequence is a decimal digit.
pub open spec fn all_digits(s: Seq<char>) -> bool {
    forall|k: int| 0 <= k < s.len() ==> spec_is_digit(#[trigger] s[k])
}

/// The value of a sequence of decimal digit characters, read in base ten.
pub open spec fn digits_val(s: Seq<char>) -> int
    recommends
        all_digits(s),
    decreases s.len(),
{
    if s.len() == 0 {
        0
    } else {
        digits_val(s.drop_last()) * 10 + spec_digit_val(s.last())
    }
}

/// The position of the first `'-'` at or after `from`, if any.
pub open spec fn spec_find_dash(s: Seq<char>, from: int) -> Option<int>
    decreases s.len() - from when 0 <= from <= s.len()
{
    if from >= s.len() {
        None
    } else if s[from] == '-' {
        Some(from)
    } else {
        spec_find_dash(s, from + 1)
    }
}

/// The date a string names, if it is a well-formed ISO-8601 `YYYY-MM-DD`
/// date: a four-digit year, a two-digit month and a two-digit day, joined by
/// `'-'`, naming an existing day of a year from 1 to 9999.
pub open spec fn spec_parse_date(s: Seq<char>) -> Option<Date> {
    match spec_find_dash(s, 0) {
        None => None,
        Some(i) => match spec_find_dash(s, i + 1) {
            None => None,
            Some(j) => {
                let ys = s.subrange(0, i);
                let ms = s.subrange(i + 1, j);
                let ds = s.subrange(j + 1, s.len() as int);
                if i == 4 && j - i - 1 == 2 && s.len() - j - 1 == 2 && all_digits(ys)
                    && all_digits(ms) && all_digits(ds) {
                    let y = digits_val(ys);
                    let m = digits_val(ms);
                    let d = digits_val(ds);
                    if 1 <= y && 1 <= m <= 12 && 1 <= d <= spec_days_in_month(y, m) {
                        Some(Date { year: y as i32, month: m as u8, day: d as u8 })
                    } else {
                        None
                    }
                } else {
                    None
                }
            },
        },
    }
}

/// What `spec_find_dash` finds is the first dash in the tail of the sequence.
proof fn lemma_find_dash_props(s: Seq<char>, from: int)
    requires
        0 <= from <= s.len(),
    ensures
        match spec_find_dash(s, from) {
            Some(i) => from <= i < s.len() && s[i] == '-' && forall|k: int|
                from <= k < i ==> s[k] != '-',
            None => forall|k: int| from <= k < s.len() ==> s[k] != '-',
        },
    decreases s.len() - from,
{
    if from < s.len() && s[from] != '-' {
        lemma_find_dash_props(s, from + 1);
    }
}

/// A dash with no earlier dash after `from` is what `spec_find_dash` finds.
pub(crate) proof fn lemma_find_dash_at(s: Seq<char>, from: int, i: int)
    requires
        0 <= from <= i < s.len(),
        s[i] == '-',
        forall|k: int| from <= k < i ==> s[k] != '-',
    ensures
        spec_find_dash(s, from) == Some(i),
    decreases i - from,
{
    if from < i {
        lemma_find_dash_at(s, from + 1, i);
    }
}

/// With no dash after `from`, `spec_find_dash` finds nothing.
proof fn lemma_find_dash_gone(s: Seq<char>, from: int)
    requires
        0 <= from <= s.len(),
        forall|k: int| from <= k < s.len() ==> s[k] != '-',
    ensures
        spec_find_dash(s, from) is None,
    decreases s.len() - from,
{
    if from < s.len() {
        lemma_find_dash_gone(s, from + 1);
    }
}

/// A string that parses as a date holds only digits and dashes, all ASCII.
proof fn lemma_parse_needs_ascii(s: Seq<char>)
    requires
        spec_parse_date(s) is Some,
    ensures
        vstd::utf8::is_ascii_chars(s),
{
    let i = spec_find_dash(s, 0)->Some_0;
    lemma_find_dash_props(s, 0);
    let j = spec_find_dash(s, i + 1)->Some_0;
    lemma_find_dash_props(s, i + 1);
    let ys = s.subrange(0, i);
    let ms = s.subrange(i + 1, j);
    let ds = s.subrange(j + 1, s.len() as int);
    assert forall|k: int| 0 <= k < s.len() implies '\0' <= #[trigger] s[k] <= '\u{7f}' by {
        if k < i {
            assert(s[k] == ys[k]);
        } else if i < k < j {
            assert(s[k] == ms[k - i - 1]);
        } else if j < k {
            assert(s[k] == ds[k - j - 1]);
        }
    }
}

/// Reads the base-ten value of the bytes of `s` between `lo` and `hi`, or
/// nothing when one of them is not a digit.
fn scan_digits(b: &[u8], lo: usize, hi: usize, Ghost(cs): Ghost<Seq<char>>) -> (r: Option<u32>)
    requires
        b@.len() == cs.len(),
        forall|k: int| 0 <= k < cs.len() ==> b@[k] == #[trigger] cs[k] as u8,
        vstd::utf8::is_ascii_chars(cs),
        lo <= hi <= b@.len(),
        hi - lo <= 4,
    ensures
        match r {
            Some(v) => all_digits(cs.subrange(lo as int, hi as int)) && v == digits_val(
                cs.subrange(lo as int, hi as int),
            ) && v <= 9999,
            None => !all_digits(cs.subrange(lo as int, hi as int)),
        },
{
    let mut k: usize = lo;
    let mut acc: u32 = 0;
    while k < hi
        invariant
            lo <= k <= hi <= b@.len(),
            hi - lo <= 4,
            b@.len() == cs.len(),
            forall|t: int| 0 <= t < cs.len() ==> b@[t] == #[trigger] cs[t] as u8,
            vstd::utf8::is_ascii_chars(cs),
            all_digits(cs.subrange(lo as int, k as int)),
            acc == digits_val(cs.subrange(lo as int, k as int)),
            k - lo == 0 ==> acc == 0,
            k - lo == 1 ==> acc <= 9,
            k - lo == 2 ==> acc <= 99,
            k - lo == 3 ==> acc <= 999,
            k - lo == 4 ==> acc <= 9999,
        decreases hi - k,
    {
        let c = b[k];
        if c < 48 || c > 57 {
            proof {
                assert(cs[k as int] as u8 == c);
                assert('\0' <= cs[k as int] <= '\u{7f}');
                assert(!spec_is_digit(cs[k as int]));
                assert(cs.subrange(lo as int, hi as int)[k - lo] == cs[k as int]);
            }
            return None;
        }
        proof {
            assert(cs[k as int] as u8 == c);
            assert('\0' <= cs[k as int] <= '\u{7f}');
            assert(spec_is_digit(cs[k as int]));
            assert(spec_digit_val(cs[k as int]) == c - 48);
            assert(cs.subrange(lo as int, k + 1).drop_last() =~= cs.subrange(lo as int, k as int));
            assert(cs.subrange(lo as int, k + 1).last() == cs[k as int]);
        }
        acc = acc * 10 + (c - 48) as u32;
        k = k + 1;
    }
    Some(acc)
}

/// Parses an ISO-8601 `YYYY-MM-DD` date string, exactly as `spec_parse_date`
/// reads it; every other string, the unpadded ones included, is refused.
pub fn parse_date(s: &str) -> (r: Result<Date, FriendError>)
    ensures
        match spec_parse_date(s@) {
            Some(d) => r == Ok::<Date, FriendError>(d) && d.valid(),
            None => r == Err::<Date, FriendError>(FriendError::DateFormat),
        },
{
    let ghost cs = s@;
    if !s.is_ascii() {
        proof {
            if spec_parse_date(cs) is Some {
                lemma_parse_needs_ascii(cs);
            }
        }
        return Err(FriendError::DateFormat);
    }
    let b = s.as_bytes();
    proof {
        broadcast use vstd::string::is_ascii_spec_bytes;

        assert(b@.len() == cs.len());
        assert(forall|t: int| 0 <= t < cs.len() ==> b@[t] == #[trigger] cs[t] as u8);
    }
    let n = b.len();
    let mut i: usize = 0;
    while i < n && b[i] != 45
        invariant
            0 <= i <= n == b@.len() == cs.len(),
            forall|t: int| 0 <= t < cs.len() ==> b@[t] == #[trigger] cs[t] as u8,
            vstd::utf8::is_ascii_chars(cs),
            forall|t: int| 0 <= t < i ==> cs[t] != '-',
        decreases n - i,
    {
        i = i + 1;
    }
    if i == n {
        proof {
            lemma_find_dash_gone(cs, 0);
        }
        return Err(FriendError::DateFormat);
    }
    proof {
        assert(cs[i as int] as u8 == 45 && '\0' <= cs[i as int] <= '\u{7f}');
        assert(cs[i as int] == '-');
        lemma_find_dash_at(cs, 0, i as int);
    }
    let mut j: usize = i + 1;
    while j < n && b[j] != 45
        invariant
            i < j <= n == b@.len() == cs.len(),
            forall|t: int| 0 <= t < cs.len() ==> b@[t] == #[trigger] cs[t] as u8,
            vstd::utf8::is_ascii_chars(cs),
            forall|t: int| i < t < j ==> cs[t] != '-',
        decreases n - j,
    {
        j = j + 1;
    }
    if j == n {
        proof {
            lemma_find_dash_gone(cs, i + 1);
        }
        return Err(FriendError::DateFormat);
    }
    proof {
        assert(cs[j as int] as u8 == 45 && '\0' <= cs[j as int] <= '\u{7f}');
        assert(cs[j as int] == '-');
        lemma_find_dash_at(cs, i + 1, j as int);
    }
    if i != 4 || j != i + 3 || n != j + 3 {
        return Err(FriendError::DateFormat);
    }
    let y = match scan_digits(b, 0, i, Ghost(cs)) {
        Some(v) => v,
        None => {
            return Err(FriendError::DateFormat);
        },
    };
    let m = match scan_digits(b, i + 1, j, Ghost(cs)) {
        Some(v) => v,
        None => {
            return Err(FriendError::DateFormat);
        },
    };
    let d = match scan_digits(b, j + 1, n, Ghost(cs)) {
        Some(v) => v,
        None => {
            return Err(FriendError::DateFormat);
        },
    };
    if y < 1 || m < 1 || m > 12 {
        return Err(FriendError::DateFormat);
    }
    if d < 1 || d > crate::dates::days_in_month(y as i32, m as u8) as u32 {
        return Err(FriendError::DateFormat);
    }
    Ok(Date { year: y as i32, month: m as u8, day: d as u8 })
}

} // verus!
