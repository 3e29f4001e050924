//! Measured subdirectories: the entry type, exact sums of sizes, and the
//! stable descending sort the report lists entries in.

use vstd::prelude::*;

verus! {

/// One measured subdirectory: its path and the total size in bytes of every
/// regular file under it.
pub struct DirEntry {
    pub path: String,
    pub size: u64,
}

/// Sum of the sizes of `s`, as an unbounded integer.
pub open spec fn sum_of(s: Seq<DirEntry>) -> int
    decreases s.len(),
{
    if s.len() == 0 {
        0
    } else {
        sum_of(s.drop_last()) + s.last().size
    }
}

/// Sum of a sequence of byte counts, as an unbounded integer.
pub open spec fn sum_u64s(s: Seq<u64>) -> int
    decreases s.len(),
{
    if s.len() == 0 {
        0
    } else {
        sum_u64s(s.drop_last()) + s.last()
    }
}

/// `e` inserted into `s` behind every entry at least as large: where a stable
/// descending sort places it.
pub open spec fn insert_desc(s: Seq<DirEntry>, e: DirEntry) -> Seq<DirEntry>
    decreases s.len(),
{
    if s.len() > 0 && s[0].size >= e.size {
        seq![s[0]] + insert_desc(s.drop_first(), e)
    } else {
        seq![e] + s
    }
}

/// Stable sort of `s`, descending by size: each entry inserted, in input
/// order, behind the entries at least as large.
pub open spec fn sort_desc(s: Seq<DirEntry>) -> Seq<DirEntry>
    decreases s.len(),
{
    if s.len() == 0 {
        Seq::empty()
    } else {
        insert_desc(sort_desc(s.drop_last()), s.last())
    }
}

/// Ordered descending by size.
pub open spec fn sorted_desc(s: Seq<DirEntry>) -> bool {
    forall|i: int, j: int| 0 <= i <= j < s.len() ==> s[i].size >= s[j].size
}

/// The entries of `s` whose size is exactly `sz`, in their order in `s`.
pub open spec fn entries_with_size(s: Seq<DirEntry>, sz: u64) -> Seq<DirEntry>
    decreases s.len(),
{
    if s.len() == 0 {
        Seq::empty()
    } else {
        entries_with_size(s.drop_last(), sz) + (if s.last().size == sz {
            seq![s.last()]
        } else {
            Seq::<DirEntry>::empty()
        })
    }
}

/// Number of leading entries of `s` at least as large as `e`: the position a
/// stable descending insertion gives `e`.
spec fn first_smaller(s: Seq<DirEntry>, e: DirEntry) -> int
    decreases s.len(),
{
    if s.len() > 0 && s[0].size >= e.size {
        1 + first_smaller(s.drop_first(), e)
    } else {
        0
    }
}

proof fn lemma_first_smaller_props(s: Seq<DirEntry>, e: DirEntry)
    ensures
        0 <= first_smaller(s, e) <= s.len(),
        forall|k: int| 0 <= k < first_smaller(s, e) ==> s[k].size >= e.size,
        first_smaller(s, e) < s.len() ==> s[first_smaller(s, e)].size < e.size,
    decreases s.len(),
{
    if s.len() > 0 && s[0].size >= e.size {
        lemma_first_smaller_props(s.drop_first(), e);
        assert forall|k: int| 0 <= k < first_smaller(s, e) implies s[k].size >= e.size by {
            if k > 0 {
                assert(s.drop_first()[k - 1] == s[k]);
            }
        };
    }
}

proof fn lemma_insert_desc_split(s: Seq<DirEntry>, e: DirEntry)
    ensures
        insert_desc(s, e) == s.take(first_smaller(s, e)) + seq![e] + s.skip(
            first_smaller(s, e),
        ),
    decreases s.len(),
{
    let fs = first_smaller(s, e);
    lemma_first_smaller_props(s, e);
    if s.len() > 0 && s[0].size >= e.size {
        lemma_insert_desc_split(s.drop_first(), e);
        let fs1 = first_smaller(s.drop_first(), e);
        assert(seq![s[0]] + s.drop_first().take(fs1) =~= s.take(fs));
        assert(s.drop_first().skip(fs1) =~= s.skip(fs));
        assert(insert_desc(s, e) =~= s.take(fs) + seq![e] + s.skip(fs));
    } else {
        assert(s.take(0) =~= Seq::<DirEntry>::empty());
        assert(s.skip(0) =~= s);
        assert(insert_desc(s, e) =~= s.take(0) + seq![e] + s.skip(0));
    }
}

proof fn lemma_insert_desc_len(s: Seq<DirEntry>, e: DirEntry)
    ensures
        insert_desc(s, e).len() == s.len() + 1,
{
    lemma_first_smaller_props(s, e);
    lemma_insert_desc_split(s, e);
}

proof fn lemma_insert_desc_sorted(s: Seq<DirEntry>, e: DirEntry)
    requires
        sorted_desc(s),
    ensures
        sorted_desc(insert_desc(s, e)),
{
    let fs = first_smaller(s, e);
    lemma_first_smaller_props(s, e);
    lemma_insert_desc_split(s, e);
    let t = insert_desc(s, e);
    assert forall|i: int, j: int| 0 <= i <= j < t.len() implies t[i].size >= t[j].size by {
        assert(i < fs ==> t[i] == s[i]);
        assert(i == fs ==> t[i] == e);
        assert(i > fs ==> t[i] == s[i - 1]);
        assert(j < fs ==> t[j] == s[j]);
        assert(j == fs ==> t[j] == e);
        assert(j > fs ==> t[j] == s[j - 1]);
    };
}

/// The report lists entries in descending order of size.
pub proof fn lemma_sort_desc_sorted(s: Seq<DirEntry>)
    ensures
        sorted_desc(sort_desc(s)),
    decreases s.len(),
{
    if s.len() > 0 {
        lemma_sort_desc_sorted(s.drop_last());
        lemma_insert_desc_sorted(sort_desc(s.drop_last()), s.last());
    }
}

/// Sorting keeps every entry: the output has the length of the input.
pub proof fn lemma_sort_desc_len(s: Seq<DirEntry>)
    ensures
        sort_desc(s).len() == s.len(),
    decreases s.len(),
{
    if s.len() > 0 {
        lemma_sort_desc_len(s.drop_last());
        lemma_insert_desc_len(sort_desc(s.drop_last()), s.last());
    }
}

proof fn lemma_ews_concat(a: Seq<DirEntry>, b: Seq<DirEntry>, sz: u64)
    ensures
        entries_with_size(a + b, sz) == entries_with_size(a, sz) + entries_with_size(b, sz),
    decreases b.len(),
{
    if b.len() == 0 {
        assert(a + b =~= a);
        assert(entries_with_size(a, sz) + entries_with_size(b, sz) =~= entries_with_size(a, sz));
    } else {
        assert((a + b).drop_last() =~= a + b.drop_last());
        assert((a + b).last() == b.last());
        lemma_ews_concat(a, b.drop_last(), sz);
        assert(entries_with_size(a + b, sz) =~= entries_with_size(a, sz) + entries_with_size(
            b,
            sz,
        ));
    }
}

proof fn lemma_ews_none(s: Seq<DirEntry>, sz: u64)
    requires
        forall|k: int| 0 <= k < s.len() ==> s[k].size != sz,
    ensures
        entries_with_size(s, sz) == Seq::<DirEntry>::empty(),
    decreases s.len(),
{
    if s.len() > 0 {
        lemma_ews_none(s.drop_last(), sz);
        assert(entries_with_size(s, sz) =~= Seq::<DirEntry>::empty());
    }
}

/// Stability: ties keep their input order. For every size, the entries of
/// that size stand in the sorted output exactly as they stood in the input.
pub proof fn lemma_sort_desc_stable(s: Seq<DirEntry>, sz: u64)
    ensures
        entries_with_size(sort_desc(s), sz) == entries_with_size(s, sz),
    decreases s.len(),
{
    if s.len() > 0 {
        let d = s.drop_last();
        let e = s.last();
        let t = sort_desc(d);
        lemma_sort_desc_stable(d, sz);
        lemma_sort_desc_sorted(d);
        lemma_sort_desc_len(d);
        let fs = first_smaller(t, e);
        lemma_first_smaller_props(t, e);
        lemma_insert_desc_split(t, e);
        let a = t.take(fs);
        let b = t.skip(fs);
        assert(sort_desc(s) == a + seq![e] + b);
        assert(a + seq![e] + b =~= a + (seq![e] + b));
        lemma_ews_concat(a, seq![e] + b, sz);
        lemma_ews_concat(seq![e], b, sz);
        lemma_ews_concat(a, b, sz);
        assert(a + b =~= t);
        assert(entries_with_size(seq![e], sz) =~= if e.size == sz {
            seq![e]
        } else {
            Seq::<DirEntry>::empty()
        }) by {
            assert(seq![e].drop_last() =~= Seq::<DirEntry>::empty());
            assert(seq![e].last() == e);
            assert(entries_with_size(Seq::<DirEntry>::empty(), sz) == Seq::<DirEntry>::empty());
        };
        if e.size == sz {
            assert forall|k: int| 0 <= k < b.len() implies b[k].size != sz by {
                assert(b[k] == t[fs + k]);
            };
            lemma_ews_none(b, sz);
            assert(entries_with_size(sort_desc(s), sz) =~= entries_with_size(t, sz) + seq![e]);
            assert(entries_with_size(s, sz) == entries_with_size(d, sz) + seq![e]);
        } else {
            assert(entries_with_size(sort_desc(s), sz) =~= entries_with_size(t, sz));
            assert(entries_with_size(s, sz) =~= entries_with_size(d, sz));
        }
    }
}

proof fn lemma_sum_concat(a: Seq<DirEntry>, b: Seq<DirEntry>)
    ensures
        sum_of(a + b) == sum_of(a) + sum_of(b),
    decreases b.len(),
{
    if b.len() == 0 {
        assert(a + b =~= a);
    } else {
        assert((a + b).drop_last() =~= a + b.drop_last());
        assert((a + b).last() == b.last());
        lemma_sum_concat(a, b.drop_last());
    }
}

/// Sorting preserves the sum of the sizes: the total the report prints is the
/// sum over the entries however they arrived.
pub proof fn lemma_sort_desc_sum(s: Seq<DirEntry>)
    ensures
        sum_of(sort_desc(s)) == sum_of(s),
    decreases s.len(),
{
    if s.len() > 0 {
        let d = s.drop_last();
        let e = s.last();
        let t = sort_desc(d);
        lemma_sort_desc_sum(d);
        let fs = first_smaller(t, e);
        lemma_first_smaller_props(t, e);
        lemma_insert_desc_split(t, e);
        let a = t.take(fs);
        let b = t.skip(fs);
        assert(sort_desc(s) == a + seq![e] + b);
        assert(a + seq![e] + b =~= a + (seq![e] + b));
        lemma_sum_concat(a, seq![e] + b);
        lemma_sum_concat(seq![e], b);
        lemma_sum_concat(a, b);
        assert(a + b =~= t);
        assert(sum_of(seq![e]) == e.size) by {
            assert(seq![e].drop_last() =~= Seq::<DirEntry>::empty());
            assert(seq![e].last() == e);
            assert(sum_of(Seq::<DirEntry>::empty()) == 0);
        };
    }
}

proof fn lemma_sort_of_sorted(s: Seq<DirEntry>)
    requires
        sorted_desc(s),
    ensures
        sort_desc(s) == s,
    decreases s.len(),
{
    if s.len() > 0 {
        let d = s.drop_last();
        let e = s.last();
        assert(sorted_desc(d)) by {
            assert(forall|i: int| 0 <= i < d.len() ==> d[i] == s[i]);
        };
        lemma_sort_of_sorted(d);
        let fs = first_smaller(d, e);
        lemma_first_smaller_props(d, e);
        assert(fs == d.len()) by {
            if fs < d.len() {
                assert(d[fs] == s[fs]);
                assert(s[fs].size >= e.size);
            }
        };
        lemma_insert_desc_split(d, e);
        assert(d.take(fs) =~= d);
        assert(d.skip(fs) =~= Seq::<DirEntry>::empty());
        assert(insert_desc(d, e) =~= s);
    }
}

/// Sorting is idempotent: re-sorting sorted output changes nothing, so a
/// second scan of an unmodified tree, handing the reporter the same entries,
/// prints the identical listing.
pub proof fn lemma_sort_desc_idempotent(s: Seq<DirEntry>)
    ensures
        sort_desc(sort_desc(s)) == sort_desc(s),
{
    lemma_sort_desc_sorted(s);
    lemma_sort_of_sorted(sort_desc(s));
}

/// A sum of sizes is never negative.
pub proof fn lemma_sum_of_nonneg(s: Seq<DirEntry>)
    ensures
        sum_of(s) >= 0,
    decreases s.len(),
{
    if s.len() > 0 {
        lemma_sum_of_nonneg(s.drop_last());
    }
}

/// When every entry is empty the sum is zero, and the other way round.
pub proof fn lemma_sum_of_zero(s: Seq<DirEntry>)
    ensures
        sum_of(s) == 0 <==> (forall|i: int| 0 <= i < s.len() ==> s[i].size == 0),
    decreases s.len(),
{
    if s.len() > 0 {
        let d = s.drop_last();
        lemma_sum_of_zero(d);
        lemma_sum_of_nonneg(d);
        assert(forall|i: int| 0 <= i < d.len() ==> d[i] == s[i]);
        if sum_of(s) == 0 {
            assert(forall|i: int| 0 <= i < s.len() - 1 ==> s[i].size == 0);
        } else {
            if forall|i: int| 0 <= i < s.len() ==> s[i].size == 0 {
                assert(forall|i: int| 0 <= i < d.len() ==> d[i].size == 0);
                assert(sum_of(s) == 0);
            }
        }
    }
}

proof fn lemma_sum_of_take(s: Seq<DirEntry>, k: int)
    requires
        0 <= k <= s.len(),
    ensures
        sum_of(s.take(k)) <= sum_of(s),
    decreases s.len(),
{
    if k == s.len() {
        assert(s.take(k) =~= s);
    } else {
        assert(s.drop_last().take(k) =~= s.take(k));
        lemma_sum_of_take(s.drop_last(), k);
    }
}

proof fn lemma_sum_u64s_take(s: Seq<u64>, k: int)
    requires
        0 <= k <= s.len(),
    ensures
        sum_u64s(s.take(k)) <= sum_u64s(s),
    decreases s.len(),
{
    if k == s.len() {
        assert(s.take(k) =~= s);
    } else {
        assert(s.drop_last().take(k) =~= s.take(k));
        lemma_sum_u64s_take(s.drop_last(), k);
    }
}

/// Sum the sizes of the measured entries: the exact total when it fits in a
/// `u64`, `None` when it does not.
pub fn sum_sizes(entries: &Vec<DirEntry>) -> (r: Option<u64>)
    ensures
        match r {
            Some(t) => t as int == sum_of(entries@),
            None => sum_of(entries@) > u64::MAX,
        },
{
    let mut acc: u64 = 0;
    let mut i: usize = 0;
    while i < entries.len()
        invariant
            i <= entries@.len(),
            acc as int == sum_of(entries@.take(i as int)),
        decreases entries@.len() - i,
    {
        proof {
            assert(entries@.take(i as int + 1).drop_last() =~= entries@.take(i as int));
            assert(entries@.take(i as int + 1).last() == entries@[i as int]);
        }
        match acc.checked_add(entries[i].size) {
            Some(v) => {
                acc = v;
            },
            None => {
                proof {
                    lemma_sum_of_take(entries@, i as int + 1);
                }
                return None;
            },
        }
        i += 1;
    }
    proof {
        assert(entries@.take(entries@.len() as int) =~= entries@);
    }
    Some(acc)
}

/// Sum a directory's per-entry byte counts — file lengths and subtree totals
/// alike: the exact total when it fits in a `u64`, `None` when it does not.
pub fn sum_u64(sizes: &Vec<u64>) -> (r: Option<u64>)
    ensures
        match r {
            Some(t) => t as int == sum_u64s(sizes@),
            None => sum_u64s(sizes@) > u64::MAX,
        },
{
    let mut acc: u64 = 0;
    let mut i: usize = 0;
    while i < sizes.len()
        invariant
            i <= sizes@.len(),
            acc as int == sum_u64s(sizes@.take(i as int)),
        decreases sizes@.len() - i,
    {
        proof {
            assert(sizes@.take(i as int + 1).drop_last() =~= sizes@.take(i as int));
            assert(sizes@.take(i as int + 1).last() == sizes@[i as int]);
        }
        match acc.checked_add(sizes[i]) {
            Some(v) => {
                acc = v;
            },
            None => {
                proof {
                    lemma_sum_u64s_take(sizes@, i as int + 1);
                }
                return None;
            },
        }
        i += 1;
    }
    proof {
        assert(sizes@.take(sizes@.len() as int) =~= sizes@);
    }
    Some(acc)
}

/// Sort the measured entries descending by size, stably: entries of equal
/// size keep the order they were produced in.
pub fn sort_entries(entries: Vec<DirEntry>) -> (r: Vec<DirEntry>)
    ensures
        r@ == sort_desc(entries@),
{
    let ghost orig = entries@;
    let mut rest = entries;
    let mut out: Vec<DirEntry> = Vec::new();
    let ghost mut done: int = 0;
    while rest.len() > 0
        invariant
            0 <= done <= orig.len(),
            rest@ == orig.skip(done),
            out@ == sort_desc(orig.take(done)),
        decreases rest@.len(),
    {
        let e = rest.remove(0);
        proof {
            assert(e == orig[done]);
            assert(orig.skip(done).remove(0) =~= orig.skip(done + 1));
        }
        let ghost before = out@;
        let mut pos: usize = 0;
        while pos < out.len() && out[pos].size >= e.size
            invariant
                pos <= out@.len(),
                out@ == before,
                forall|t: int| 0 <= t < pos ==> out@[t].size >= e.size,
            decreases out@.len() - pos,
        {
            pos += 1;
        }
        proof {
            lemma_first_smaller_props(before, e);
            assert(first_smaller(before, e) == pos as int) by {
                let fs = first_smaller(before, e);
                if fs < pos as int {
                    assert(before[fs].size >= e.size);
                }
                if fs > pos as int {
                    assert(before[pos as int].size >= e.size);
                }
            };
            lemma_insert_desc_split(before, e);
        }
        out.insert(pos, e);
        proof {
            assert(before.insert(pos as int, e) =~= before.take(pos as int) + seq![e]
                + before.skip(pos as int));
            assert(orig.take(done + 1).drop_last() =~= orig.take(done));
            assert(orig.take(done + 1).last() == orig[done]);
            done = done + 1;
        }
    }
    proof {
        assert(orig.take(done) =~= orig);
    }
    out
}

} // verus!
