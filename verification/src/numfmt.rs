//! Number rendering: thousands separators and exact two-decimal megabyte
//! formatting of byte counts.

use vstd::prelude::*;
use vstd::string::*;

verus! {

/// The first `k` characters of `s`, with a comma inserted before the
/// character at index `m` whenever `m > 0` and the number of characters of
/// `s` from `m` to the end is a multiple of three.
pub open spec fn group_digits_upto(s: Seq<char>, k: int) -> Seq<char>
    decreases k,
{
    if k <= 0 {
        Seq::empty()
    } else {
        group_digits_upto(s, k - 1) + (if k - 1 > 0 && (s.len() - (k - 1)) % 3 == 0 {
            seq![',']
        } else {
            Seq::<char>::empty()
        }) + seq![s[k - 1]]
    }
}

/// The whole of `s` with commas grouping it in threes from the right.
pub open spec fn group_digits(s: Seq<char>) -> Seq<char> {
    group_digits_upto(s, s.len() as int)
}

/// Position of the first `'.'` in `s` at or after `from`, or `s.len()` if
/// there is none.
pub open spec fn dot_pos(s: Seq<char>, from: int) -> int
    decreases s.len() - from,
{
    if from < 0 || from >= s.len() {
        s.len() as int
    } else if s[from] == '.' {
        from
    } else {
        dot_pos(s, from + 1)
    }
}

/// `s` with thousands separators in its integer part (the characters before
/// the first `'.'`); the fractional part — the characters between the first
/// dot and the second dot or the end — is kept untouched, and anything after
/// a second dot is dropped.
pub open spec fn thousands_sep(s: Seq<char>) -> Seq<char> {
    let i = dot_pos(s, 0);
    if i == s.len() {
        group_digits(s)
    } else {
        let j = dot_pos(s, i + 1);
        group_digits(s.take(i)) + seq!['.'] + s.subrange(i + 1, j)
    }
}

proof fn lemma_dot_pos_from(s: Seq<char>, from: int, i: int)
    requires
        0 <= from <= i <= s.len(),
        forall|k: int| from <= k < i ==> s[k] != '.',
        i == s.len() || s[i] == '.',
    ensures
        dot_pos(s, from) == i,
    decreases i - from,
{
    if from < i {
        lemma_dot_pos_from(s, from + 1, i);
    }
}

fn find_dot(num: &str, from: usize, n: usize) -> (r: usize)
    requires
        n == num@.len(),
        from <= n,
    ensures
        from <= r <= n,
        r as int == dot_pos(num@, from as int),
{
    let mut i: usize = from;
    while i < n
        invariant
            from <= i <= n,
            n == num@.len(),
            forall|k: int| from <= k < i ==> num@[k] != '.',
        decreases n - i,
    {
        if num.get_char(i) == '.' {
            proof {
                lemma_dot_pos_from(num@, from as int, i as int);
            }
            return i;
        }
        i += 1;
    }
    proof {
        lemma_dot_pos_from(num@, from as int, n as int);
    }
    n
}

/// Insert thousands separators (commas) into the integer part of a number
/// already rendered as text; the fractional part after the first `.` is kept
/// as it is, and anything after a second `.` is dropped.
pub fn add_thousands_sep(num: &str) -> (r: String)
    ensures
        r@ == thousands_sep(num@),
{
    let n: usize = num.unicode_len();
    let i: usize = find_dot(num, 0, n);
    let ghost intpart = num@.take(i as int);
    let mut out = String::new();
    let mut k: usize = 0;
    while k < i
        invariant
            k <= i <= n,
            n == num@.len(),
            intpart == num@.take(i as int),
            out@ == group_digits_upto(intpart, k as int),
        decreases i - k,
    {
        if k > 0 && (i - k) % 3 == 0 {
            out.append(",");
        }
        let piece = num.substring_char(k, k + 1);
        out.append(piece);
        proof {
            reveal_strlit(",");
            assert(intpart[k as int] == num@[k as int]);
            assert(out@ =~= group_digits_upto(intpart, k as int + 1));
        }
        k += 1;
    }
    assert(out@ == group_digits(intpart));
    if i < n {
        let j: usize = find_dot(num, i + 1, n);
        out.append(".");
        let frac = num.substring_char(i + 1, j);
        out.append(frac);
        proof {
            reveal_strlit(".");
            assert(out@ =~= thousands_sep(num@));
        }
    } else {
        proof {
            assert(num@.take(i as int) =~= num@);
        }
    }
    out
}

/// The decimal digit character for `d` between 0 and 9.
pub open spec fn digit_char(d: int) -> char {
    if d == 0 {
        '0'
    } else if d == 1 {
        '1'
    } else if d == 2 {
        '2'
    } else if d == 3 {
        '3'
    } else if d == 4 {
        '4'
    } else if d == 5 {
        '5'
    } else if d == 6 {
        '6'
    } else if d == 7 {
        '7'
    } else if d == 8 {
        '8'
    } else {
        '9'
    }
}

/// Decimal rendering of a nonnegative integer, most significant digit first,
/// with no leading zero except for zero itself.
pub open spec fn dec_str(n: int) -> Seq<char>
    decreases n,
{
    if n < 10 {
        seq![digit_char(n)]
    } else {
        dec_str(n / 10) + seq![digit_char(n % 10)]
    }
}

/// Hundredths of a megabyte in `size` bytes: `size * 100 / 1048576` rounded
/// to the nearest integer, ties to even — which is exactly how the two-place
/// decimal rendering of the exact binary quotient `size / 1048576` rounds.
pub open spec fn mb_hundredths(size: int) -> int {
    let num = size * 100;
    let q = num / 1048576;
    let r = num % 1048576;
    if r > 524288 {
        q + 1
    } else if r < 524288 {
        q
    } else if q % 2 == 1 {
        q + 1
    } else {
        q
    }
}

/// The text printed for `size` bytes: megabytes with two decimal places and
/// thousands separators.
pub open spec fn mb_string(size: int) -> Seq<char> {
    let h = mb_hundredths(size);
    thousands_sep(
        dec_str(h / 100) + seq!['.'] + seq![digit_char(h % 100 / 10), digit_char(h % 100 % 10)],
    )
}

fn digit_str(d: u64) -> (r: &'static str)
    requires
        d < 10,
    ensures
        r@ == seq![digit_char(d as int)],
{
    let r: &'static str = if d == 0 {
        "0"
    } else if d == 1 {
        "1"
    } else if d == 2 {
        "2"
    } else if d == 3 {
        "3"
    } else if d == 4 {
        "4"
    } else if d == 5 {
        "5"
    } else if d == 6 {
        "6"
    } else if d == 7 {
        "7"
    } else if d == 8 {
        "8"
    } else {
        "9"
    };
    proof {
        reveal_strlit("0");
        reveal_strlit("1");
        reveal_strlit("2");
        reveal_strlit("3");
        reveal_strlit("4");
        reveal_strlit("5");
        reveal_strlit("6");
        reveal_strlit("7");
        reveal_strlit("8");
        reveal_strlit("9");
        assert(r@ =~= seq![digit_char(d as int)]);
    }
    r
}

fn u64_to_string(n: u64) -> (r: String)
    ensures
        r@ == dec_str(n as int),
    decreases n,
{
    if n < 10 {
        String::from_str(digit_str(n))
    } else {
        let mut r = u64_to_string(n / 10);
        r.append(digit_str(n % 10));
        proof {
            assert(r@ =~= dec_str(n as int));
        }
        r
    }
}

fn mb_hundredths_exec(size: u64) -> (h: u64)
    ensures
        h as int == mb_hundredths(size as int),
{
    let num: u128 = (size as u128) * 100;
    let q: u128 = num / 1048576;
    let r: u128 = num % 1048576;
    proof {
        assert(num == 1048576 * q + r);
        assert(q <= 1759218604441673);
    }
    let h: u128 = if r > 524288 {
        q + 1
    } else if r < 524288 {
        q
    } else if q % 2 == 1 {
        q + 1
    } else {
        q
    };
    h as u64
}

/// Render `size` bytes as megabytes with two decimals and thousands
/// separators, exactly as the report prints every size and the total.
pub fn format_mb(size: u64) -> (r: String)
    ensures
        r@ == mb_string(size as int),
{
    let h: u64 = mb_hundredths_exec(size);
    let mut raw = u64_to_string(h / 100);
    raw.append(".");
    raw.append(digit_str(h % 100 / 10));
    raw.append(digit_str(h % 100 % 10));
    proof {
        reveal_strlit(".");
        let hi = h as int;
        assert(raw@ =~= dec_str(hi / 100) + seq!['.'] + seq![
            digit_char(hi % 100 / 10),
            digit_char(hi % 100 % 10),
        ]);
    }
    add_thousands_sep(raw.as_str())
}

} // verus!
