//! The rendered report: one colored bar line per measured subdirectory,
//! descending by size, then the total line.

use vstd::prelude::*;
use vstd::string::*;
use crate::chart::bar_glyph;
use crate::chart::bar_glyphs;
use crate::chart::bar_len;
use crate::chart::bar_width;
use crate::chart::color_prefix;
use crate::chart::color_reset;
use crate::chart::color_reset_str;
use crate::chart::color_seq;
use crate::chart::lemma_bar_width_bounds;
use crate::chart::repeat_char;
use crate::entries::DirEntry;
use crate::entries::lemma_sort_desc_len;
use crate::entries::lemma_sort_desc_sorted;
use crate::entries::lemma_sort_desc_sum;
use crate::entries::lemma_sum_of_zero;
use crate::entries::sort_desc;
use crate::entries::sort_entries;
use crate::entries::sorted_desc;
use crate::entries::sum_of;
use crate::entries::sum_sizes;
use crate::numfmt::format_mb;
use crate::numfmt::mb_string;

verus! {

/// The maximum the bars are scaled against: the size of the first entry of
/// the sorted listing, which sorting makes the largest.
pub open spec fn scale_max(sorted: Seq<DirEntry>) -> int {
    if sorted.len() > 0 {
        sorted[0].size as int
    } else {
        0
    }
}

/// The line printed for one entry: its colored bar, its path, and its size in
/// megabytes.
pub open spec fn entry_line(rank: int, path: Seq<char>, size: int, max: int) -> Seq<char> {
    color_seq(rank) + repeat_char(bar_glyph(), bar_width(size, max)) + color_reset() + " "@ + path
        + " ("@ + mb_string(size) + " MB)"@
}

/// The final line: the total over all listed entries.
pub open spec fn total_line(total: int) -> Seq<char> {
    "Total size: "@ + mb_string(total) + " MB"@
}

/// The whole report for the measured entries `s`: one line per entry, sorted
/// descending by size, then the total line.
pub open spec fn report_lines(s: Seq<DirEntry>) -> Seq<Seq<char>> {
    let sorted = sort_desc(s);
    Seq::new(
        s.len() + 1,
        |i: int|
            if i < s.len() {
                entry_line(i, sorted[i].path@, sorted[i].size as int, scale_max(sorted))
            } else {
                total_line(sum_of(s))
            },
    )
}

fn render_entry_line(rank: usize, e: &DirEntry, max: u64) -> (r: String)
    requires
        e.size <= max,
    ensures
        r@ == entry_line(rank as int, e.path@, e.size as int, max as int),
{
    let w = bar_len(e.size, max);
    let bar = bar_glyphs(w);
    let mut s = String::from_str(color_prefix(rank));
    s.append(bar.as_str());
    s.append(color_reset_str());
    s.append(" ");
    s.append(e.path.as_str());
    s.append(" (");
    let mb = format_mb(e.size);
    s.append(mb.as_str());
    s.append(" MB)");
    proof {
        assert(s@ =~= entry_line(rank as int, e.path@, e.size as int, max as int));
    }
    s
}

/// Sort the measured entries descending by size and render the report: one
/// line per entry, then the total line. `None` exactly when the total does
/// not fit in a `u64`.
pub fn render_report(entries: Vec<DirEntry>) -> (r: Option<Vec<String>>)
    ensures
        match r {
            Some(lines) => sum_of(entries@) <= u64::MAX && lines@.len() == entries@.len() + 1
                && (forall|i: int|
                0 <= i < lines@.len() ==> lines@[i]@ == report_lines(entries@)[i]),
            None => sum_of(entries@) > u64::MAX,
        },
{
    let ghost orig = entries@;
    let total: u64 = match sum_sizes(&entries) {
        Some(t) => t,
        None => {
            return None;
        },
    };
    let sorted = sort_entries(entries);
    proof {
        lemma_sort_desc_sorted(orig);
        lemma_sort_desc_len(orig);
    }
    let max: u64 = if sorted.len() > 0 {
        sorted[0].size
    } else {
        0
    };
    let mut lines: Vec<String> = Vec::new();
    let mut i: usize = 0;
    while i < sorted.len()
        invariant
            sorted@ == sort_desc(orig),
            sorted@.len() == orig.len(),
            sorted_desc(sorted@),
            max as int == scale_max(sorted@),
            i <= sorted@.len(),
            lines@.len() == i,
            forall|t: int|
                0 <= t < i ==> lines@[t]@ == entry_line(
                    t,
                    sorted@[t].path@,
                    sorted@[t].size as int,
                    scale_max(sorted@),
                ),
        decreases sorted@.len() - i,
    {
        proof {
            assert(sorted@[0].size >= sorted@[i as int].size);
        }
        let line = render_entry_line(i, &sorted[i], max);
        lines.push(line);
        i += 1;
    }
    let mut tl = String::from_str("Total size: ");
    let mbs = format_mb(total);
    tl.append(mbs.as_str());
    tl.append(" MB");
    proof {
        assert(tl@ =~= total_line(sum_of(orig)));
    }
    lines.push(tl);
    proof {
        assert forall|t: int| 0 <= t < lines@.len() implies lines@[t]@ == report_lines(orig)[t] by {
            if t < orig.len() {
                assert(lines@[t]@ == entry_line(
                    t,
                    sort_desc(orig)[t].path@,
                    sort_desc(orig)[t].size as int,
                    scale_max(sort_desc(orig)),
                ));
            }
        };
    }
    Some(lines)
}

/// When every measured entry is empty, every size the report shows is zero
/// and every bar is drawn at the minimum width of a single glyph.
pub proof fn lemma_empty_dirs_min_bars(s: Seq<DirEntry>)
    requires
        forall|i: int| 0 <= i < s.len() ==> s[i].size == 0,
    ensures
        forall|i: int|
            0 <= i < sort_desc(s).len() ==> sort_desc(s)[i].size == 0 && bar_width(
                sort_desc(s)[i].size as int,
                scale_max(sort_desc(s)),
            ) == 1,
{
    lemma_sum_of_zero(s);
    lemma_sort_desc_sum(s);
    lemma_sort_desc_len(s);
    lemma_sum_of_zero(sort_desc(s));
    assert forall|i: int| 0 <= i < sort_desc(s).len() implies sort_desc(s)[i].size == 0
        && bar_width(sort_desc(s)[i].size as int, scale_max(sort_desc(s))) == 1 by {
        lemma_bar_width_bounds(0, scale_max(sort_desc(s)));
    };
}

} // verus!
