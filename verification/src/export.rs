//! What an export of the buffer holds: the rows of the CSV table and the
//! tails of the series, capped in length.

use vstd::prelude::*;
use crate::buffer::{RamPoint, VramPoint};

verus! {

/// The hard cap on exported points per series.
pub const EXPORT_MAX_POINTS: usize = 1200;

/// The number of points an export keeps: the requested number (as a
/// `usize`), capped at 1200; 1200 when none is requested.
pub open spec fn export_cap(requested: Option<u64>) -> int {
    match requested {
        Some(p) => if (p as usize) < 1200 { (p as usize) as int } else { 1200 },
        None => 1200,
    }
}

pub fn export_max_points(requested: Option<u64>) -> (r: usize)
    ensures
        r == export_cap(requested),
{
    let max_points = match requested {
        Some(p) => p as usize,
        None => EXPORT_MAX_POINTS,
    };
    if max_points < EXPORT_MAX_POINTS {
        max_points
    } else {
        EXPORT_MAX_POINTS
    }
}

/// The last `max` elements of `s` (all of them when there are fewer).
pub open spec fn last_n<T>(s: Seq<T>, max: int) -> Seq<T> {
    if s.len() > max {
        s.skip(s.len() - max)
    } else {
        s
    }
}

/// The last `max` elements of `v`.
pub fn tail<T: Copy>(v: &Vec<T>, max: usize) -> (r: Vec<T>)
    ensures
        r@ == last_n(v@, max as int),
{
    let n = v.len();
    let skip = if n > max {
        n - max
    } else {
        0
    };
    let mut out: Vec<T> = Vec::new();
    let mut i = skip;
    while i < n
        invariant
            n == v@.len(),
            skip <= i <= n,
            out@ == v@.subrange(skip as int, i as int),
        decreases n - i,
    {
        out.push(v[i]);
        i = i + 1;
        assert(out@ =~= v@.subrange(skip as int, i as int));
    }
    assert(out@ =~= last_n(v@, max as int));
    out
}

/// A CSV row: memory time, CPU time, memory, CPU, and the VRAM point
/// `(ts, bytes)` that shares the memory time, if any.
pub type CsvRow<C> = (u64, u64, u64, C, Option<(u64, u64)>);

/// Index of the first row whose memory time is `ts`.
pub open spec fn first_row_at<C>(rows: Seq<CsvRow<C>>, ts: u64) -> Option<int>
    decreases rows.len(),
{
    if rows.len() == 0 {
        None
    } else if rows[0].0 == ts {
        Some(0)
    } else {
        match first_row_at(rows.drop_first(), ts) {
            Some(i) => Some(i + 1),
            None => None,
        }
    }
}

/// Puts a VRAM point on the first row with its time, or on a new row with
/// zero memory and CPU `zero` at the end.
pub open spec fn attach_vram<C>(rows: Seq<CsvRow<C>>, p: VramPoint, zero: C) -> Seq<CsvRow<C>> {
    match first_row_at(rows, p.0) {
        Some(i) => rows.update(i, (rows[i].0, rows[i].1, rows[i].2, rows[i].3, Some(p))),
        None => rows.push((p.0, p.0, 0, zero, Some(p))),
    }
}

/// The RAM points as rows without VRAM.
pub open spec fn ram_rows<C>(ram: Seq<RamPoint<C>>) -> Seq<CsvRow<C>> {
    ram.map_values(|p: RamPoint<C>| (p.0, p.2, p.1, p.3, None::<(u64, u64)>))
}

/// The rows of one target before sorting: its RAM points, with its VRAM
/// points attached in order.
pub open spec fn merged_rows<C>(ram: Seq<RamPoint<C>>, vram: Seq<VramPoint>, zero: C) -> Seq<CsvRow<C>>
    decreases vram.len(),
{
    if vram.len() == 0 {
        ram_rows(ram)
    } else {
        attach_vram(merged_rows(ram, vram.drop_last(), zero), vram.last(), zero)
    }
}

/// `x` placed after every row of the sorted `s` whose memory time is not
/// later than its own.
pub open spec fn insert_by_time<C>(s: Seq<CsvRow<C>>, x: CsvRow<C>) -> Seq<CsvRow<C>>
    decreases s.len(),
{
    if s.len() == 0 || s.last().0 <= x.0 {
        s.push(x)
    } else {
        insert_by_time(s.drop_last(), x).push(s.last())
    }
}

/// `s` sorted by memory time; rows with equal times keep their order.
pub open spec fn sort_by_time<C>(s: Seq<CsvRow<C>>) -> Seq<CsvRow<C>>
    decreases s.len(),
{
    if s.len() == 0 {
        s
    } else {
        insert_by_time(sort_by_time(s.drop_last()), s.last())
    }
}

/// The rows a CSV export writes for one target.
pub open spec fn csv_rows_spec<C>(ram: Seq<RamPoint<C>>, vram: Seq<VramPoint>, zero: C, max: int) -> Seq<CsvRow<C>> {
    last_n(sort_by_time(merged_rows(ram, vram, zero)), max)
}

proof fn lemma_first_row_at<C>(rows: Seq<CsvRow<C>>, ts: u64, i: int)
    requires
        0 <= i <= rows.len(),
        forall|j: int| 0 <= j < i ==> rows[j].0 != ts,
    ensures
        first_row_at(rows, ts) == (if i < rows.len() && rows[i].0 == ts {
            Some(i)
        } else {
            match first_row_at(rows.skip(i), ts) {
                Some(k) => Some(k + i),
                None => None,
            }
        }),
    decreases i,
{
    if i > 0 {
        lemma_first_row_at(rows.drop_first(), ts, i - 1);
        assert(rows.drop_first().skip(i - 1) =~= rows.skip(i));
    } else {
        assert(rows.skip(0) =~= rows);
        match first_row_at(rows, ts) {
            Some(k) => {},
            None => {},
        }
    }
}

fn find_row_at<C: Copy>(rows: &Vec<CsvRow<C>>, ts: u64) -> (r: Option<usize>)
    ensures
        match r {
            Some(i) => first_row_at(rows@, ts) == Some(i as int) && i < rows@.len(),
            None => first_row_at(rows@, ts) is None,
        },
{
    let n = rows.len();
    let mut i: usize = 0;
    while i < n
        invariant
            n == rows@.len(),
            i <= n,
            forall|j: int| 0 <= j < i ==> rows@[j].0 != ts,
        decreases n - i,
    {
        if rows[i].0 == ts {
            proof {
                lemma_first_row_at(rows@, ts, i as int);
            }
            return Some(i);
        }
        i = i + 1;
    }
    proof {
        lemma_first_row_at(rows@, ts, n as int);
        assert(rows@.skip(n as int).len() == 0);
    }
    None
}

proof fn lemma_insert_shift<C>(s: Seq<CsvRow<C>>, x: CsvRow<C>, j: int)
    requires
        0 < j <= s.len(),
        s[j - 1].0 > x.0,
    ensures
        insert_by_time(s.take(j), x) + s.skip(j) == insert_by_time(s.take(j - 1), x) + s.skip(j - 1),
{
    let t = s.take(j);
    assert(t.drop_last() =~= s.take(j - 1));
    assert(t.last() == s[j - 1]);
    assert(insert_by_time(s.take(j - 1), x).push(s[j - 1]) + s.skip(j) =~= insert_by_time(s.take(j - 1), x) + s.skip(j - 1));
}

/// Inserts `x` into the time-sorted `v` after the rows not later than it.
fn insert_row<C: Copy>(v: &mut Vec<CsvRow<C>>, x: CsvRow<C>)
    ensures
        final(v)@ == insert_by_time(old(v)@, x),
{
    let ghost s = v@;
    let mut j = v.len();
    assert(s.take(j as int) =~= s);
    assert(s.skip(j as int) =~= Seq::<CsvRow<C>>::empty());
    while j > 0 && v[j - 1].0 > x.0
        invariant
            v@ == s,
            j <= s.len(),
            insert_by_time(s, x) == insert_by_time(s.take(j as int), x) + s.skip(j as int),
        decreases j,
    {
        proof {
            lemma_insert_shift(s, x, j as int);
        }
        j = j - 1;
    }
    proof {
        let t = s.take(j as int);
        if j > 0 {
            assert(t.last() == s[j - 1]);
        }
        assert(insert_by_time(t, x) == t.push(x));
        assert(t.push(x) + s.skip(j as int) =~= s.insert(j as int, x));
    }
    v.insert(j, x);
}

/// The rows a CSV export writes for one target: the RAM points with the VRAM
/// points of the same memory time beside them, the other VRAM points on rows
/// of their own with zero memory and CPU `zero`, sorted by memory time
/// (stable), the last `max_points` of them.
pub fn csv_rows<C: Copy>(ram: &Vec<RamPoint<C>>, vram: &Vec<VramPoint>, zero: C, max_points: usize) -> (r: Vec<CsvRow<C>>)
    ensures
        r@ == csv_rows_spec(ram@, vram@, zero, max_points as int),
{
    let mut combined: Vec<CsvRow<C>> = Vec::new();
    let n = ram.len();
    for i in 0..n
        invariant
            n == ram@.len(),
            combined@ == ram_rows(ram@.take(i as int)),
    {
        let p = ram[i];
        combined.push((p.0, p.2, p.1, p.3, None));
        assert(combined@ =~= ram_rows(ram@.take(i + 1)));
    }
    assert(ram@.take(n as int) =~= ram@);
    let m = vram.len();
    for k in 0..m
        invariant
            m == vram@.len(),
            n == ram@.len(),
            ram@.take(n as int) == ram@,
            combined@ == merged_rows(ram@, vram@.take(k as int), zero),
    {
        let p = vram[k];
        proof {
            let t = vram@.take(k + 1);
            assert(t.drop_last() =~= vram@.take(k as int));
            assert(t.last() == p);
        }
        match find_row_at(&combined, p.0) {
            Some(i) => {
                let row = combined[i];
                combined.set(i, (row.0, row.1, row.2, row.3, Some(p)));
            },
            None => {
                combined.push((p.0, p.0, 0, zero, Some(p)));
            },
        }
    }
    assert(vram@.take(m as int) =~= vram@);
    let mut sorted: Vec<CsvRow<C>> = Vec::new();
    let c = combined.len();
    for i in 0..c
        invariant
            c == combined@.len(),
            sorted@ == sort_by_time(combined@.take(i as int)),
    {
        proof {
            let t = combined@.take(i + 1);
            assert(t.drop_last() =~= combined@.take(i as int));
        }
        insert_row(&mut sorted, combined[i]);
    }
    assert(combined@.take(c as int) =~= combined@);
    tail(&sorted, max_points)
}

} // verus!
