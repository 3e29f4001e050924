//! Bar-chart presentation: bar widths scaled to a fifty-glyph maximum, the
//! six-color cycle, the bar glyphs, and the scanning spinner frames.

use vstd::prelude::*;
use vstd::string::*;

verus! {

/// Width in glyphs of the bar for `size` bytes when the largest entry holds
/// `max` bytes: `size * 50 / max` rounded to the nearest integer, half away
/// from zero, floored at one glyph so that every entry stays visible.
pub open spec fn bar_width(size: int, max: int) -> int {
    if max > 0 {
        let w = (size * 100 + max) / (2 * max);
        if w < 1 {
            1
        } else {
            w
        }
    } else {
        1
    }
}

/// Every bar is between one and fifty glyphs wide, and an empty entry's bar
/// is exactly one glyph, whatever the largest entry holds.
pub proof fn lemma_bar_width_bounds(size: int, max: int)
    requires
        0 <= size <= max,
    ensures
        1 <= bar_width(size, max) <= 50,
        size == 0 ==> bar_width(size, max) == 1,
{
    if max > 0 {
        let n = size * 100 + max;
        let d = 2 * max;
        let w = n / d;
        vstd::arithmetic::div_mod::lemma_fundamental_div_mod(n, d);
        vstd::arithmetic::div_mod::lemma_mod_bound(n, d);
        assert(d * w <= n);
        assert(n <= 101 * max) by (nonlinear_arith)
            requires
                0 <= size <= max,
                n == size * 100 + max,
        {
        }
        assert(w <= 50) by (nonlinear_arith)
            requires
                d * w <= n,
                n <= 101 * max,
                d == 2 * max,
                max >= 1,
        {
        }
        if size == 0 {
            assert(n == max);
            assert(w == 0) by (nonlinear_arith)
                requires
                    n == d * w + n % d,
                    0 <= n % d < d,
                    n == max,
                    d == 2 * max,
                    max >= 1,
            {
            }
        }
    }
}

/// Bar width for one entry, computed exactly: `size * 50 / max` rounded to
/// the nearest integer, never less than one glyph.
pub fn bar_len(size: u64, max: u64) -> (r: usize)
    requires
        size <= max,
    ensures
        r as int == bar_width(size as int, max as int),
        1 <= r <= 50,
{
    proof {
        lemma_bar_width_bounds(size as int, max as int);
    }
    if max == 0 {
        return 1;
    }
    let num: u128 = (size as u128) * 100 + (max as u128);
    let den: u128 = 2 * (max as u128);
    let w: u128 = num / den;
    if w < 1 {
        1
    } else {
        w as usize
    }
}

/// The glyph the bars are drawn with.
pub open spec fn bar_glyph() -> char {
    '\u{275a}'
}

/// `n` copies of the character `c`.
pub open spec fn repeat_char(c: char, n: int) -> Seq<char>
    decreases n,
{
    if n <= 0 {
        Seq::empty()
    } else {
        repeat_char(c, n - 1) + seq![c]
    }
}

/// A bar of `n` glyphs.
pub fn bar_glyphs(n: usize) -> (r: String)
    ensures
        r@ == repeat_char(bar_glyph(), n as int),
{
    let mut out = String::new();
    let mut k: usize = 0;
    while k < n
        invariant
            k <= n,
            out@ == repeat_char(bar_glyph(), k as int),
        decreases n - k,
    {
        out.append("\u{275a}");
        proof {
            reveal_strlit("\u{275a}");
            assert(out@ =~= repeat_char(bar_glyph(), k as int + 1));
        }
        k += 1;
    }
    out
}

/// The terminal color prefix for the entry at `rank`: a fixed palette of six
/// colors, cycled by rank.
pub open spec fn color_seq(rank: int) -> Seq<char> {
    let m = rank % 6;
    if m == 0 {
        "\x1b[31m"@
    } else if m == 1 {
        "\x1b[32m"@
    } else if m == 2 {
        "\x1b[33m"@
    } else if m == 3 {
        "\x1b[34m"@
    } else if m == 4 {
        "\x1b[35m"@
    } else {
        "\x1b[36m"@
    }
}

/// The escape that ends a colored span.
pub open spec fn color_reset() -> Seq<char> {
    "\x1b[0m"@
}

/// Color prefix for the entry at `rank`.
pub fn color_prefix(rank: usize) -> (r: &'static str)
    ensures
        r@ == color_seq(rank as int),
{
    let m: usize = rank % 6;
    if m == 0 {
        "\x1b[31m"
    } else if m == 1 {
        "\x1b[32m"
    } else if m == 2 {
        "\x1b[33m"
    } else if m == 3 {
        "\x1b[34m"
    } else if m == 4 {
        "\x1b[35m"
    } else {
        "\x1b[36m"
    }
}

/// The reset that the renderer puts after each bar.
pub fn color_reset_str() -> (r: &'static str)
    ensures
        r@ == color_reset(),
{
    "\x1b[0m"
}

/// The spinner frame shown once the `count`-th subdirectory has been
/// measured: four frames, cycled.
pub open spec fn spinner_seq(count: int) -> Seq<char> {
    let m = count % 4;
    if m == 0 {
        "|"@
    } else if m == 1 {
        "/"@
    } else if m == 2 {
        "-"@
    } else {
        "\\"@
    }
}

/// Spinner frame for the `count`-th measured subdirectory.
pub fn spinner_frame(count: usize) -> (r: &'static str)
    ensures
        r@ == spinner_seq(count as int),
{
    let m: usize = count % 4;
    if m == 0 {
        "|"
    } else if m == 1 {
        "/"
    } else if m == 2 {
        "-"
    } else {
        "\\"
    }
}

} // verus!
