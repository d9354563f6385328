//! Jumping between the changes of a file: how changed rows form groups, and which group comes
//! next.

use std::ops::Range;

use vstd::prelude::*;

use crate::text::{decimal, lemma_decimal_len, to_decimal};

verus! {

// ---------------------------------------------------------------------------------------------
// Groups of changed rows
// ---------------------------------------------------------------------------------------------

/// The screen lines that a row takes: its wrapped height, and never less than one.
pub open spec fn row_height(row: (bool, usize)) -> nat {
    if row.1 < 1 {
        1
    } else {
        row.1 as nat
    }
}

/// The screen lines that the rows `from..to` take together.
pub open spec fn height(rows: Seq<(bool, usize)>, from: int, to: int) -> nat
    decreases to - from,
{
    if to <= from {
        0
    } else {
        height(rows, from, to - 1) + row_height(rows[to - 1])
    }
}

/// The end of the run of changed rows that goes on at row `i`.
pub open spec fn run_end(rows: Seq<(bool, usize)>, i: int) -> int
    decreases rows.len() - i,
{
    if 0 <= i < rows.len() && rows[i].0 {
        run_end(rows, i + 1)
    } else {
        i
    }
}

/// The complete runs of changed rows, from row `i` on. A run ends before an unchanged row or at
/// the end of the file.
pub open spec fn runs(rows: Seq<(bool, usize)>, i: int) -> Seq<(int, int)>
    decreases rows.len() - i,
    when 0 <= i
{
    if i >= rows.len() {
        Seq::empty()
    } else if rows[i].0 {
        proof {
            lemma_run_end(rows, i);
        }
        seq![(i, run_end(rows, i))] + runs(rows, run_end(rows, i))
    } else {
        runs(rows, i + 1)
    }
}

/// How far a page that began before `i` reaches: on to `end`, as long as the next row still fits.
pub open spec fn page_end(
    rows: Seq<(bool, usize)>,
    budget: nat,
    page: int,
    i: int,
    end: int,
) -> int
    decreases end - i,
{
    if i < end && height(rows, page, i + 1) <= budget {
        page_end(rows, budget, page, i + 1, end)
    } else {
        i
    }
}

/// The pages of the rows `start..end`: each takes one row, and as many more as fit in `budget`.
pub open spec fn pages(rows: Seq<(bool, usize)>, budget: nat, start: int, end: int) -> Seq<
    (int, int),
>
    decreases end - start,
{
    if start >= end {
        Seq::empty()
    } else {
        proof {
            lemma_page_end(rows, budget, start, start + 1, end);
        }
        let next = page_end(rows, budget, start, start + 1, end);
        seq![(start, next)] + pages(rows, budget, next, end)
    }
}

/// The groups once `run` has been added: a run that fits joins the last group if both fit
/// together, or forms a group; one that does not fit is split into pages.
pub open spec fn with_run(
    rows: Seq<(bool, usize)>,
    budget: nat,
    groups: Seq<(int, int)>,
    run: (int, int),
) -> Seq<(int, int)> {
    if height(rows, run.0, run.1) > budget {
        groups + pages(rows, budget, run.0, run.1)
    } else if groups.len() > 0 && height(rows, groups.last().0, run.1) <= budget {
        groups.drop_last().push((groups.last().0, run.1))
    } else {
        groups.push(run)
    }
}

/// The groups that a list of runs forms, taken in order.
pub open spec fn grouped(rows: Seq<(bool, usize)>, budget: nat, list: Seq<(int, int)>) -> Seq<
    (int, int),
>
    decreases list.len(),
{
    if list.len() == 0 {
        Seq::empty()
    } else {
        with_run(rows, budget, grouped(rows, budget, list.drop_last()), list.last())
    }
}

/// The budget that is grouped by: a viewport shows at least one line.
pub open spec fn effective(budget: nat) -> nat {
    if budget < 1 {
        1
    } else {
        budget
    }
}

/// The groups of a file whose viewport shows `budget` lines (at least one).
pub open spec fn change_groups(rows: Seq<(bool, usize)>, budget: nat) -> Seq<(int, int)> {
    grouped(rows, effective(budget), runs(rows, 0))
}

/// The bounds of a list of ranges.
pub open spec fn spans(ranges: Seq<Range<usize>>) -> Seq<(int, int)> {
    ranges.map_values(|r: Range<usize>| (r.start as int, r.end as int))
}

/// A run stops at the first unchanged row, or at the end of the file.
pub proof fn lemma_run_end(rows: Seq<(bool, usize)>, i: int)
    requires
        0 <= i <= rows.len(),
    ensures
        i <= run_end(rows, i) <= rows.len(),
        i < rows.len() && rows[i].0 ==> i < run_end(rows, i),
        run_end(rows, i) < rows.len() ==> !rows[run_end(rows, i)].0,
        forall|k: int| i <= k < run_end(rows, i) ==> (#[trigger] rows[k]).0,
    decreases rows.len() - i,
{
    if i < rows.len() && rows[i].0 {
        lemma_run_end(rows, i + 1);
    }
}

/// A page stops before the first row that no longer fits.
pub proof fn lemma_page_end(rows: Seq<(bool, usize)>, budget: nat, page: int, i: int, end: int)
    requires
        i <= end,
    ensures
        i <= page_end(rows, budget, page, i, end) <= end,
        page_end(rows, budget, page, i, end) < end ==> height(
            rows,
            page,
            page_end(rows, budget, page, i, end) + 1,
        ) > budget,
        page_end(rows, budget, page, i, end) > i ==> height(
            rows,
            page,
            page_end(rows, budget, page, i, end),
        ) <= budget,
    decreases end - i,
{
    if i < end && height(rows, page, i + 1) <= budget {
        lemma_page_end(rows, budget, page, i + 1, end);
    }
}

proof fn lemma_height_adds(rows: Seq<(bool, usize)>, a: int, b: int, c: int)
    requires
        a <= b <= c,
    ensures
        height(rows, a, c) == height(rows, a, b) + height(rows, b, c),
    decreases c - b,
{
    if b < c {
        lemma_height_adds(rows, a, b, c - 1);
    }
}

/// Keep complete change runs together when possible. Merge neighboring runs only
/// when their intervening context also fits; split oversized runs into pages.
///
/// `rows` says of each row whether it changed and how many screen lines it takes; their sum must
/// fit in a machine word.
pub fn group_changes(rows: &[(bool, usize)], budget: usize) -> (r: Vec<Range<usize>>)
    requires
        height(rows@, 0, rows@.len() as int) <= usize::MAX,
    ensures
        spans(r@) == change_groups(rows@, budget as nat),
{
    let budget = if budget < 1 {
        1
    } else {
        budget
    };
    let len = rows.len();
    let mut offsets: Vec<usize> = Vec::new();
    offsets.push(0);
    for k in 0..len
        invariant
            len == rows@.len(),
            height(rows@, 0, rows@.len() as int) <= usize::MAX,
            offsets@.len() == k + 1,
            forall|j: int| 0 <= j <= k ==> #[trigger] offsets@[j] == height(rows@, 0, j),
    {
        let own = if rows[k].1 < 1 {
            1
        } else {
            rows[k].1
        };
        proof {
            lemma_height_adds(rows@, 0, k + 1, len as int);
        }
        offsets.push(offsets[k] + own);
    }
    let mut groups: Vec<Range<usize>> = Vec::new();
    let ghost mut seen: Seq<(int, int)> = Seq::empty();
    let mut i: usize = 0;
    assert(spans(groups@) == Seq::<(int, int)>::empty());
    assert(seen + runs(rows@, 0) == runs(rows@, 0));
    while i < len
        invariant
            len == rows@.len(),
            1 <= budget,
            i <= len,
            offsets@.len() == len + 1,
            forall|j: int| 0 <= j <= len ==> #[trigger] offsets@[j] == height(rows@, 0, j),
            seen + runs(rows@, i as int) == runs(rows@, 0),
            spans(groups@) == grouped(rows@, budget as nat, seen),
            forall|g: int|
                0 <= g < groups@.len() ==> (#[trigger] groups@[g]).start <= groups@[g].end <= i,
        decreases len - i,
    {
        if !rows[i].0 {
            i += 1;
            continue ;
        }
        let start = i;
        let ghost end_of_run = run_end(rows@, start as int);
        while i < len && rows[i].0
            invariant
                len == rows@.len(),
                start <= i <= len,
                run_end(rows@, i as int) == end_of_run,
                start < len && rows@[start as int].0 && i == start || start < i,
            decreases len - i,
        {
            i += 1;
        }
        let end = i;
        assert(end == end_of_run);
        let ghost run = (start as int, end as int);
        let ghost before = grouped(rows@, budget as nat, seen);
        proof {
            assert(seen.push(run).drop_last() == seen);
            assert(seen.push(run) + runs(rows@, end as int) == seen + runs(rows@, start as int));
            lemma_height_adds(rows@, 0, start as int, end as int);
            seen = seen.push(run);
        }
        if offsets[end] - offsets[start] <= budget {
            if groups.len() > 0 {
                let last = groups.len() - 1;
                let first_row = groups[last].start;
                proof {
                    lemma_height_adds(rows@, 0, first_row as int, end as int);
                    lemma_height_adds(rows@, 0, first_row as int, start as int);
                    assert(before.last() == (first_row as int, groups@[last as int].end as int));
                }
                if offsets[end] - offsets[first_row] <= budget {
                    let ghost was = groups@;
                    groups.set(last, first_row..end);
                    assert(spans(groups@) == before.drop_last().push((first_row as int, run.1)));
                    continue ;
                }
            }
            groups.push(start..end);
            assert(spans(groups@) == before.push(run));
        } else {
            let mut page = start;
            let ghost whole = pages(rows@, budget as nat, start as int, end as int);
            assert(spans(groups@) + whole == before + whole);
            for row in start..end
                invariant
                    start < end <= len,
                    start <= page <= row <= end,
                    page == row ==> row == start,
                    len == rows@.len(),
                    offsets@.len() == len + 1,
                    forall|j: int| 0 <= j <= len ==> #[trigger] offsets@[j] == height(rows@, 0, j),
                    spans(groups@) + pages(rows@, budget as nat, page as int, end as int) == before
                        + whole,
                    page < row ==> page_end(
                        rows@,
                        budget as nat,
                        page as int,
                        page + 1,
                        end as int,
                    ) == page_end(rows@, budget as nat, page as int, row as int, end as int),
                    forall|g: int|
                        0 <= g < groups@.len() ==> (#[trigger] groups@[g]).start <= groups@[g].end
                            <= row,
            {
                proof {
                    lemma_height_adds(rows@, 0, page as int, row + 1);
                    lemma_height_adds(rows@, 0, page as int, end as int);
                }
                if row > page && offsets[row + 1] - offsets[page] > budget {
                    let ghost was = spans(groups@);
                    let ghost rest = pages(rows@, budget as nat, row as int, end as int);
                    groups.push(page..row);
                    assert(spans(groups@) == was.push((page as int, row as int)));
                    assert(pages(rows@, budget as nat, page as int, end as int) == seq![
                        (page as int, row as int),
                    ] + rest);
                    assert(spans(groups@) + rest == was + (seq![(page as int, row as int)] + rest));
                    page = row;
                }
            }
            let ghost was = spans(groups@);
            groups.push(page..end);
            assert(spans(groups@) == was.push((page as int, end as int)));
            assert(page_end(rows@, budget as nat, page as int, page + 1, end as int) == end);
            assert(pages(rows@, budget as nat, end as int, end as int) == Seq::<
                (int, int),
            >::empty());
            assert(pages(rows@, budget as nat, page as int, end as int) == seq![
                (page as int, end as int),
            ]);
            assert(spans(groups@) == before + whole);
        }
    }
    assert(seen == runs(rows@, 0));
    groups
}

// ---------------------------------------------------------------------------------------------
// What holds of every grouping
// ---------------------------------------------------------------------------------------------

/// Whether `a..b` is a complete run of changed rows.
pub open spec fn is_run(rows: Seq<(bool, usize)>, a: int, b: int) -> bool {
    &&& 0 <= a < b <= rows.len()
    &&& forall|i: int| a <= i < b ==> (#[trigger] rows[i]).0
    &&& a == 0 || !rows[a - 1].0
    &&& b == rows.len() || !rows[b].0
}

#[verifier::opaque]
spec fn placed(rows: Seq<(bool, usize)>, budget: nat, groups: Seq<(int, int)>, upto: int) -> bool {
    &&& forall|k: int|
        0 <= k < groups.len() ==> 0 <= (#[trigger] groups[k]).0 < groups[k].1 <= upto
            && rows[groups[k].0].0 && rows[groups[k].1 - 1].0
    &&& forall|k: int, l: int|
        0 <= k < l < groups.len() ==> (#[trigger] groups[k]).1 <= (#[trigger] groups[l]).0
    &&& forall|k: int|
        0 <= k < groups.len() ==> height(rows, (#[trigger] groups[k]).0, groups[k].1) <= budget
            || groups[k].1 == groups[k].0 + 1
}

spec fn within(groups: Seq<(int, int)>, a: int, b: int) -> bool {
    exists|k: int| 0 <= k < groups.len() && (#[trigger] groups[k]).0 <= a && b <= groups[k].1
}

#[verifier::opaque]
spec fn covered(rows: Seq<(bool, usize)>, groups: Seq<(int, int)>, upto: int) -> bool {
    forall|i: int| 0 <= i < upto && (#[trigger] rows[i]).0 ==> within(groups, i, i + 1)
}

#[verifier::opaque]
spec fn kept(rows: Seq<(bool, usize)>, budget: nat, groups: Seq<(int, int)>, upto: int) -> bool {
    forall|a: int, b: int|
        #[trigger] is_run(rows, a, b) && b <= upto && height(rows, a, b) <= budget ==> within(
            groups,
            a,
            b,
        )
}

spec fn opens(groups: Seq<(int, int)>, a: int) -> bool {
    exists|k: int| 0 <= k < groups.len() && (#[trigger] groups[k]).0 == a
}

#[verifier::opaque]
spec fn opened(rows: Seq<(bool, usize)>, budget: nat, groups: Seq<(int, int)>, upto: int) -> bool {
    forall|a: int, b: int|
        #[trigger] is_run(rows, a, b) && b <= upto && height(rows, a, b) > budget ==> opens(
            groups,
            a,
        )
}

spec fn apart(rows: Seq<(bool, usize)>, budget: nat, left: (int, int), right: (int, int)) -> bool {
    let s = right.0;
    if s > 0 && rows[s - 1].0 {
        left.1 == s && height(rows, left.0, s + 1) > budget
    } else {
        height(rows, left.0, run_end(rows, s)) > budget
    }
}

#[verifier::opaque]
spec fn separated(rows: Seq<(bool, usize)>, budget: nat, groups: Seq<(int, int)>) -> bool {
    forall|k: int, l: int|
        0 <= k && l == k + 1 && l < groups.len() ==> apart(
            rows,
            budget,
            #[trigger] groups[k],
            #[trigger] groups[l],
        )
}

spec fn grouping(rows: Seq<(bool, usize)>, budget: nat, groups: Seq<(int, int)>, upto: int) -> bool {
    &&& placed(rows, budget, groups, upto)
    &&& covered(rows, groups, upto)
    &&& kept(rows, budget, groups, upto)
    &&& opened(rows, budget, groups, upto)
    &&& separated(rows, budget, groups)
}

spec fn paged(
    rows: Seq<(bool, usize)>,
    budget: nat,
    list: Seq<(int, int)>,
    start: int,
    end: int,
) -> bool {
    &&& list.len() > 0
    &&& list[0].0 == start
    &&& list.last().1 == end
    &&& forall|k: int|
        0 <= k < list.len() ==> start <= (#[trigger] list[k]).0 < list[k].1 <= end && (height(
            rows,
            list[k].0,
            list[k].1,
        ) <= budget || list[k].1 == list[k].0 + 1)
    &&& forall|k: int, l: int|
        0 <= k && l == k + 1 && l < list.len() ==> (#[trigger] list[k]).1 == (
        #[trigger] list[l]).0 && height(rows, list[k].0, list[l].0 + 1) > budget
    &&& forall|k: int, l: int|
        0 <= k < l < list.len() ==> (#[trigger] list[k]).1 <= (#[trigger] list[l]).0
    &&& forall|i: int| start <= i < end ==> #[trigger] within(list, i, i + 1)
}

proof fn lemma_pages(rows: Seq<(bool, usize)>, budget: nat, start: int, end: int)
    requires
        start < end,
    ensures
        paged(rows, budget, pages(rows, budget, start, end), start, end),
    decreases end - start,
{
    lemma_page_end(rows, budget, start, start + 1, end);
    let next = page_end(rows, budget, start, start + 1, end);
    let rest = pages(rows, budget, next, end);
    let list = pages(rows, budget, start, end);
    assert(list == seq![(start, next)] + rest);
    assert(list[0] == (start, next));
    if next < end {
        lemma_pages(rows, budget, next, end);
        assert forall|k: int| 1 <= k < list.len() implies #[trigger] list[k] == rest[k - 1] by {}
        assert(list.last() == rest.last());
        assert forall|i: int| start <= i < end implies #[trigger] within(list, i, i + 1) by {
            if i < next {
                assert(list[0].0 <= i && i + 1 <= list[0].1);
            } else {
                assert(within(rest, i, i + 1));
                let k = choose|k: int|
                    0 <= k < rest.len() && (#[trigger] rest[k]).0 <= i && i + 1 <= rest[k].1;
                assert(list[k + 1] == rest[k]);
            }
        }
        assert(rest[0].0 == next);
        assert forall|k: int, l: int| 0 <= k < l < list.len() implies (#[trigger] list[k]).1 <= (
        #[trigger] list[l]).0 by {
            if k > 0 {
                assert(list[k] == rest[k - 1]);
                assert(rest[k - 1].1 <= rest[l - 1].0);
            }
        }
        assert forall|k: int, l: int| 0 <= k && l == k + 1 && l < list.len() implies (
        #[trigger] list[k]).1 == (#[trigger] list[l]).0 && height(rows, list[k].0, list[l].0 + 1)
            > budget by {
            if k > 0 {
                assert(list[k] == rest[k - 1]);
                assert(rest[k - 1].1 == rest[l - 1].0);
            }
        }
    } else {
        assert(rest == Seq::<(int, int)>::empty());
        assert forall|i: int| start <= i < end implies #[trigger] within(list, i, i + 1) by {
            assert(list[0].0 <= i && i + 1 <= list[0].1);
        }
    }
}

proof fn lemma_within_later(groups: Seq<(int, int)>, next: Seq<(int, int)>, x: int, y: int)
    requires
        within(groups, x, y),
        groups.len() <= next.len(),
        forall|k: int|
            0 <= k < groups.len() ==> (#[trigger] next[k]).0 == groups[k].0 && groups[k].1
                <= next[k].1,
    ensures
        within(next, x, y),
{
    let k = choose|k: int|
        0 <= k < groups.len() && (#[trigger] groups[k]).0 <= x && y <= groups[k].1;
    assert(next[k].0 <= x && y <= next[k].1);
}

proof fn lemma_covered_later(
    rows: Seq<(bool, usize)>,
    groups: Seq<(int, int)>,
    next: Seq<(int, int)>,
    a: int,
    b: int,
)
    requires
        covered(rows, groups, a),
        groups.len() <= next.len(),
        forall|k: int|
            0 <= k < groups.len() ==> (#[trigger] next[k]).0 == groups[k].0 && groups[k].1
                <= next[k].1,
        forall|i: int| a <= i < b ==> #[trigger] within(next, i, i + 1),
    ensures
        covered(rows, next, b),
{
    reveal(covered);
    assert forall|i: int| 0 <= i < b && (#[trigger] rows[i]).0 implies within(next, i, i + 1) by {
        if i < a {
            assert(within(groups, i, i + 1));
            lemma_within_later(groups, next, i, i + 1);
        }
    }
}

proof fn lemma_kept_later(
    rows: Seq<(bool, usize)>,
    budget: nat,
    groups: Seq<(int, int)>,
    next: Seq<(int, int)>,
    a: int,
    b: int,
)
    requires
        kept(rows, budget, groups, a),
        opened(rows, budget, groups, a),
        is_run(rows, a, b),
        groups.len() <= next.len(),
        forall|k: int|
            0 <= k < groups.len() ==> (#[trigger] next[k]).0 == groups[k].0 && groups[k].1
                <= next[k].1,
        height(rows, a, b) <= budget ==> within(next, a, b),
        height(rows, a, b) > budget ==> opens(next, a),
    ensures
        kept(rows, budget, next, b),
        opened(rows, budget, next, b),
{
    reveal(kept);
    reveal(opened);
    assert forall|x: int, y: int| #[trigger] is_run(rows, x, y) && y <= b implies y <= a || (x == a
        && y == b) by {
        if y > a {
            if x < a {
                assert(rows[a - 1].0);
            }
            if x > a {
                assert(rows[x - 1].0);
            }
            if y < b {
                assert(rows[y].0);
            }
        }
    }
    assert forall|x: int, y: int|
        #[trigger] is_run(rows, x, y) && y <= b && height(rows, x, y) > budget implies opens(
        next,
        x,
    ) by {
        if y <= a {
            let k = choose|k: int| 0 <= k < groups.len() && (#[trigger] groups[k]).0 == x;
            assert(next[k].0 == x);
        }
    }
    assert forall|x: int, y: int|
        #[trigger] is_run(rows, x, y) && y <= b && height(rows, x, y) <= budget implies within(
        next,
        x,
        y,
    ) by {
        if y <= a {
            lemma_within_later(groups, next, x, y);
        }
    }
}

proof fn lemma_with_pages(rows: Seq<(bool, usize)>, budget: nat, groups: Seq<(int, int)>, a: int)
    requires
        0 <= a < rows.len(),
        rows[a].0,
        a == 0 || !rows[a - 1].0,
        height(rows, a, run_end(rows, a)) > budget,
        placed(rows, budget, groups, a),
        separated(rows, budget, groups),
    ensures
        ({
            let b = run_end(rows, a);
            let next = groups + pages(rows, budget, a, b);
            &&& placed(rows, budget, next, b)
            &&& separated(rows, budget, next)
            &&& forall|i: int| a <= i < b ==> #[trigger] within(next, i, i + 1)
            &&& opens(next, a)
        }),
{
    reveal(placed);
    reveal(separated);
    lemma_run_end(rows, a);
    let b = run_end(rows, a);
    let list = pages(rows, budget, a, b);
    lemma_pages(rows, budget, a, b);
    let m = groups.len() as int;
    let next = groups + list;
    assert(next[m] == list[0]);
    assert(opens(next, a));
    assert forall|k: int, l: int| 0 <= k < l < next.len() implies (#[trigger] next[k]).1 <= (
    #[trigger] next[l]).0 by {
        if k >= m {
            assert(list[k - m].1 <= list[l - m].0);
        } else if l >= m {
            assert(groups[k].1 <= a);
            assert(list[l - m].0 >= a);
        } else {
            assert(groups[k].1 <= groups[l].0);
        }
    }
    assert forall|k: int| 0 <= k < next.len() implies 0 <= (#[trigger] next[k]).0 < next[k].1 <= b
        && rows[next[k].0].0 && rows[next[k].1 - 1].0 && (height(rows, next[k].0, next[k].1)
        <= budget || next[k].1 == next[k].0 + 1) by {
        if k < m {
            assert(next[k] == groups[k]);
        } else {
            assert(next[k] == list[k - m]);
        }
    }
    assert forall|k: int, l: int| 0 <= k && l == k + 1 && l < next.len() implies apart(
        rows,
        budget,
        #[trigger] next[k],
        #[trigger] next[l],
    ) by {
        if k >= m {
            assert(list[k - m].1 == list[l - m].0);
            assert(list[k - m].0 >= a);
            assert(rows[next[l].0 - 1].0);
        } else if l == m {
            assert(list[0].0 == a);
            lemma_height_adds(rows, groups[k].0, a, b);
        } else {
            assert(apart(rows, budget, groups[k], groups[l]));
        }
    }
    assert forall|i: int| a <= i < b implies #[trigger] within(next, i, i + 1) by {
        assert(within(list, i, i + 1));
        let k = choose|k: int|
            0 <= k < list.len() && (#[trigger] list[k]).0 <= i && i + 1 <= list[k].1;
        assert(next[m + k] == list[k]);
    }
}

proof fn lemma_with_whole(rows: Seq<(bool, usize)>, budget: nat, groups: Seq<(int, int)>, a: int)
    requires
        0 <= a < rows.len(),
        rows[a].0,
        a == 0 || !rows[a - 1].0,
        height(rows, a, run_end(rows, a)) <= budget,
        placed(rows, budget, groups, a),
        separated(rows, budget, groups),
    ensures
        ({
            let b = run_end(rows, a);
            let next = with_run(rows, budget, groups, (a, b));
            &&& placed(rows, budget, next, b)
            &&& separated(rows, budget, next)
            &&& next.len() > 0
            &&& next.last().0 <= a
            &&& next.last().1 == b
            &&& groups.len() <= next.len()
            &&& forall|k: int|
                0 <= k < groups.len() ==> (#[trigger] next[k]).0 == groups[k].0 && groups[k].1
                    <= next[k].1
        }),
{
    reveal(placed);
    reveal(separated);
    lemma_run_end(rows, a);
    let b = run_end(rows, a);
    let next = with_run(rows, budget, groups, (a, b));
    let m = next.len() - 1;
    if groups.len() > 0 && height(rows, groups.last().0, b) <= budget {
        assert(next == groups.drop_last().push((groups.last().0, b)));
        assert(groups[m] == groups.last());
    } else {
        assert(next == groups.push((a, b)));
        if groups.len() > 0 {
            assert(groups[m - 1] == groups.last());
        }
    }
    assert forall|k: int, l: int| 0 <= k < l < next.len() implies (#[trigger] next[k]).1 <= (
    #[trigger] next[l]).0 by {
        assert(next[k] == groups[k]);
        if l < groups.len() {
            assert(groups[k].1 <= groups[l].0);
        }
    }
    assert forall|k: int, l: int| 0 <= k && l == k + 1 && l < next.len() implies apart(
        rows,
        budget,
        #[trigger] next[k],
        #[trigger] next[l],
    ) by {
        assert(next[k] == groups[k]);
        if l < groups.len() {
            assert(apart(rows, budget, groups[k], groups[l]));
        }
    }
}

proof fn lemma_with_run(rows: Seq<(bool, usize)>, budget: nat, groups: Seq<(int, int)>, a: int)
    requires
        0 <= a < rows.len(),
        rows[a].0,
        a == 0 || !rows[a - 1].0,
        grouping(rows, budget, groups, a),
    ensures
        grouping(
            rows,
            budget,
            with_run(rows, budget, groups, (a, run_end(rows, a))),
            run_end(rows, a),
        ),
{
    lemma_run_end(rows, a);
    let b = run_end(rows, a);
    let next = with_run(rows, budget, groups, (a, b));
    assert(is_run(rows, a, b));
    if height(rows, a, b) > budget {
        lemma_with_pages(rows, budget, groups, a);
    } else {
        lemma_with_whole(rows, budget, groups, a);
        assert(next[next.len() - 1] == next.last());
        assert(within(next, a, b));
        assert forall|i: int| a <= i < b implies #[trigger] within(next, i, i + 1) by {
            assert(next[next.len() - 1].0 <= i);
        }
    }
    lemma_covered_later(rows, groups, next, a, b);
    lemma_kept_later(rows, budget, groups, next, a, b);
}

proof fn lemma_past_unchanged(rows: Seq<(bool, usize)>, budget: nat, groups: Seq<(int, int)>, i: int)
    requires
        0 <= i < rows.len(),
        !rows[i].0,
        grouping(rows, budget, groups, i),
    ensures
        grouping(rows, budget, groups, i + 1),
{
    assert forall|a: int, b: int| #[trigger] is_run(rows, a, b) && b <= i + 1 implies b <= i by {
        assert(rows[b - 1].0);
    }
    assert(placed(rows, budget, groups, i + 1)) by {
        reveal(placed);
    }
    assert(covered(rows, groups, i + 1)) by {
        reveal(covered);
    }
    assert(kept(rows, budget, groups, i + 1)) by {
        reveal(kept);
    }
    assert(opened(rows, budget, groups, i + 1)) by {
        reveal(opened);
    }
}

proof fn lemma_grouping(
    rows: Seq<(bool, usize)>,
    budget: nat,
    seen: Seq<(int, int)>,
    i: int,
)
    requires
        0 <= i <= rows.len(),
        0 < i < rows.len() ==> !(rows[i - 1].0 && rows[i].0),
        seen + runs(rows, i) == runs(rows, 0),
        grouping(rows, budget, grouped(rows, budget, seen), i),
    ensures
        grouping(rows, budget, grouped(rows, budget, runs(rows, 0)), rows.len() as int),
    decreases rows.len() - i,
{
    let groups = grouped(rows, budget, seen);
    if i == rows.len() {
        assert(seen == runs(rows, 0));
    } else if rows[i].0 {
        lemma_run_end(rows, i);
        let run = (i, run_end(rows, i));
        assert(seen.push(run).drop_last() == seen);
        assert(seen.push(run) + runs(rows, run.1) == seen + runs(rows, i));
        lemma_with_run(rows, budget, groups, i);
        lemma_grouping(rows, budget, seen.push(run), run.1);
    } else {
        lemma_past_unchanged(rows, budget, groups, i);
        lemma_grouping(rows, budget, seen, i + 1);
    }
}

proof fn lemma_change_groups(rows: Seq<(bool, usize)>, budget: nat)
    ensures
        grouping(rows, effective(budget), change_groups(rows, budget), rows.len() as int),
{
    reveal(placed);
    reveal(separated);
    reveal(covered);
    reveal(kept);
    reveal(opened);
    let seen = Seq::<(int, int)>::empty();
    assert(seen + runs(rows, 0) == runs(rows, 0));
    lemma_grouping(rows, effective(budget), seen, 0);
}

/// Groups stand in the order of the file without overlapping, and each begins and ends with a
/// changed row.
pub proof fn law_groups_in_order(rows: Seq<(bool, usize)>, budget: nat)
    ensures
        forall|k: int|
            0 <= k < change_groups(rows, budget).len() ==> {
                let g = #[trigger] change_groups(rows, budget)[k];
                0 <= g.0 < g.1 <= rows.len() && rows[g.0].0 && rows[g.1 - 1].0
            },
        forall|k: int, l: int|
            0 <= k < l < change_groups(rows, budget).len() ==> (#[trigger] change_groups(
                rows,
                budget,
            )[k]).1 <= (#[trigger] change_groups(rows, budget)[l]).0,
{
    reveal(placed);
    lemma_change_groups(rows, budget);
}

/// No change is lost: every changed row lies in a group.
pub proof fn law_no_change_lost(rows: Seq<(bool, usize)>, budget: nat, i: int)
    requires
        0 <= i < rows.len(),
        rows[i].0,
    ensures
        exists|k: int|
            0 <= k < change_groups(rows, budget).len() && (#[trigger] change_groups(
                rows,
                budget,
            )[k]).0 <= i < change_groups(rows, budget)[k].1,
{
    reveal(covered);
    lemma_change_groups(rows, budget);
    let groups = change_groups(rows, budget);
    assert(within(groups, i, i + 1));
    let k = choose|k: int|
        0 <= k < groups.len() && (#[trigger] groups[k]).0 <= i && i + 1 <= groups[k].1;
    assert(groups[k].0 <= i < groups[k].1);
}

/// A file has a group exactly if it has a changed row.
pub proof fn law_groups_iff_changes(rows: Seq<(bool, usize)>, budget: nat)
    ensures
        change_groups(rows, budget).len() > 0 <==> exists|i: int|
            0 <= i < rows.len() && (#[trigger] rows[i]).0,
{
    let groups = change_groups(rows, budget);
    law_groups_in_order(rows, budget);
    if groups.len() > 0 {
        assert(rows[groups[0].0].0);
    }
    if exists|i: int| 0 <= i < rows.len() && (#[trigger] rows[i]).0 {
        let i = choose|i: int| 0 <= i < rows.len() && (#[trigger] rows[i]).0;
        law_no_change_lost(rows, budget, i);
    }
}

/// Every group fits in the viewport, unless it is a single row that is higher than the viewport.
pub proof fn law_groups_fit(rows: Seq<(bool, usize)>, budget: nat, k: int)
    requires
        0 <= k < change_groups(rows, budget).len(),
    ensures
        ({
            let g = change_groups(rows, budget)[k];
            height(rows, g.0, g.1) <= effective(budget) || g.1 == g.0 + 1
        }),
{
    reveal(placed);
    lemma_change_groups(rows, budget);
}

/// Runs are merged only when the context between them fits too: a group that shows an unchanged
/// row fits in the viewport as a whole.
pub proof fn law_merged_runs_fit(rows: Seq<(bool, usize)>, budget: nat, k: int, i: int)
    requires
        0 <= k < change_groups(rows, budget).len(),
        change_groups(rows, budget)[k].0 <= i < change_groups(rows, budget)[k].1,
        !rows[i].0,
    ensures
        height(rows, change_groups(rows, budget)[k].0, change_groups(rows, budget)[k].1)
            <= effective(budget),
{
    law_groups_fit(rows, budget, k);
    law_groups_in_order(rows, budget);
}

/// A complete run that fits in the viewport is kept together in one group.
pub proof fn law_runs_kept_together(rows: Seq<(bool, usize)>, budget: nat, a: int, b: int)
    requires
        is_run(rows, a, b),
        height(rows, a, b) <= effective(budget),
    ensures
        exists|k: int|
            0 <= k < change_groups(rows, budget).len() && (#[trigger] change_groups(
                rows,
                budget,
            )[k]).0 <= a && b <= change_groups(rows, budget)[k].1,
{
    reveal(kept);
    lemma_change_groups(rows, budget);
    assert(within(change_groups(rows, budget), a, b));
}

/// A complete run that is higher than the viewport opens a group of its own.
pub proof fn law_oversized_run_opens_group(rows: Seq<(bool, usize)>, budget: nat, a: int, b: int)
    requires
        is_run(rows, a, b),
        height(rows, a, b) > effective(budget),
    ensures
        exists|k: int|
            0 <= k < change_groups(rows, budget).len() && (#[trigger] change_groups(
                rows,
                budget,
            )[k]).0 == a,
{
    reveal(opened);
    lemma_change_groups(rows, budget);
    assert(opens(change_groups(rows, budget), a));
}

/// Groups are not split needlessly. Where a group continues the run of the group before it, its
/// first row no longer fitted there. Where it begins with a run, that run did not fit together
/// with the group before it.
pub proof fn law_groups_are_full(rows: Seq<(bool, usize)>, budget: nat, k: int)
    requires
        0 <= k,
        k + 1 < change_groups(rows, budget).len(),
    ensures
        ({
            let left = change_groups(rows, budget)[k];
            let right = change_groups(rows, budget)[k + 1];
            if rows[right.0 - 1].0 {
                left.1 == right.0 && height(rows, left.0, right.0 + 1) > effective(budget)
            } else {
                height(rows, left.0, run_end(rows, right.0)) > effective(budget)
            }
        }),
{
    reveal(placed);
    reveal(separated);
    lemma_change_groups(rows, budget);
    let groups = change_groups(rows, budget);
    assert(groups[k].1 <= groups[k + 1].0);
    assert(apart(rows, effective(budget), groups[k], groups[k + 1]));
}

// ---------------------------------------------------------------------------------------------
// The arrows in the footer
// ---------------------------------------------------------------------------------------------

/// A rectangle of terminal cells.
#[derive(Clone, Copy, Debug, PartialEq, Eq, Structural)]
pub struct Rect {
    pub x: u16,
    pub y: u16,
    pub width: u16,
    pub height: u16,
}

/// A length, cut down so that it ends within the 16-bit coordinates when it begins at `start`.
pub open spec fn cut_to_grid(start: int, length: int) -> int {
    if start + length > u16::MAX {
        u16::MAX - start
    } else {
        length
    }
}

/// The rectangle at `x`, `y`, whose sides are cut down to the 16-bit coordinates.
pub open spec fn rect_at(x: int, y: int, width: int, height: int) -> Rect {
    Rect {
        x: x as u16,
        y: y as u16,
        width: cut_to_grid(x, width) as u16,
        height: cut_to_grid(y, height) as u16,
    }
}

/// `ratatui::layout::Rect::new` keeps the position and clamps width and height, so that the right
/// and the bottom coordinate stay within `u16`.
#[verifier::external_body]
fn ratatui_rect(x: u16, y: u16, width: u16, height: u16) -> (r: Rect)
    ensures
        r == rect_at(x as int, y as int, width as int, height as int),
{
    let rect = ratatui::layout::Rect::new(x, y, width, height);
    Rect { x: rect.x, y: rect.y, width: rect.width, height: rect.height }
}

/// `ratatui::layout::Rect::right` is the column after the rectangle, clamped to `u16::MAX`.
#[verifier::external_body]
fn ratatui_right(x: u16, y: u16, width: u16, height: u16) -> (r: u16)
    ensures
        r == if x + width > u16::MAX {
            u16::MAX as int
        } else {
            x + width
        },
{
    ratatui::layout::Rect { x, y, width, height }.right()
}

impl Rect {
    /// The column after the rectangle.
    pub open spec fn right_column(self) -> int {
        if self.x + self.width > u16::MAX {
            u16::MAX as int
        } else {
            self.x + self.width
        }
    }

    /// Creates a rectangle whose sides are cut down to the 16-bit coordinates.
    pub fn new(x: u16, y: u16, width: u16, height: u16) -> (r: Rect)
        ensures
            r == rect_at(x as int, y as int, width as int, height as int),
    {
        ratatui_rect(x, y, width, height)
    }

    /// The column after the rectangle.
    pub fn right(self) -> (r: u16)
        ensures
            r == self.right_column(),
    {
        ratatui_right(self.x, self.y, self.width, self.height)
    }
}

impl Default for Rect {
    fn default() -> (r: Rect)
        ensures
            r == (Rect { x: 0, y: 0, width: 0, height: 0 }),
    {
        Rect { x: 0, y: 0, width: 0, height: 0 }
    }
}

/// Navigation targets are side-by-side row ranges, sized for the current viewport.
pub struct ChangeNavigation {
    pub groups: Vec<Range<usize>>,
    pub selected: Option<usize>,
    pub area: Rect,
}

impl Default for ChangeNavigation {
    fn default() -> (r: ChangeNavigation)
        ensures
            r.groups@ == Seq::<Range<usize>>::empty(),
            r.selected is None,
            r.area == (Rect { x: 0, y: 0, width: 0, height: 0 }),
    {
        ChangeNavigation { groups: Vec::new(), selected: None, area: Rect::default() }
    }
}

/// The first of the groups from `from` on that holds `row`.
pub open spec fn group_with(groups: Seq<(int, int)>, row: int, from: int) -> Option<int>
    decreases groups.len() - from,
{
    if from >= groups.len() {
        None
    } else if groups[from].0 <= row < groups[from].1 {
        Some(from)
    } else {
        group_with(groups, row, from + 1)
    }
}

/// The group that the reader is at: the first one that holds the anchor row.
pub open spec fn selected_group(groups: Seq<(int, int)>, anchor: Option<usize>) -> Option<int> {
    match anchor {
        Some(row) => group_with(groups, row as int, 0),
        None => None,
    }
}

/// The label between the arrows: the number of the selected group and of all groups.
pub open spec fn position_label(selected: Option<int>, total: nat) -> Seq<char> {
    let place = match selected {
        Some(i) => (i + 1) as nat,
        None => 0,
    };
    " "@ + decimal(place) + " / "@ + decimal(total) + " "@
}

/// The cells that the label and the two arrows of three cells take.
pub open spec fn bar_width(selected: Option<int>, total: nat) -> nat {
    position_label(selected, total).len() + 6
}

/// Where label and arrows stand: in the middle of the footer's first line, or nowhere if the
/// footer is too narrow.
pub open spec fn bar_area(selected: Option<int>, total: nat, footer: Rect) -> Rect {
    let width = bar_width(selected, total);
    if footer.width >= width {
        rect_at(
            footer.x + (footer.width - width) / 2,
            footer.y as int,
            width as int,
            1,
        )
    } else {
        Rect { x: 0, y: 0, width: 0, height: 0 }
    }
}

/// The group that an arrow leads to.
pub open spec fn target_group(selected: Option<int>, total: int, forward: bool) -> Option<int> {
    if total == 0 {
        None
    } else {
        match (selected, forward) {
            (None, true) => Some(0),
            (None, false) => Some(total - 1),
            (Some(i), true) => if i + 1 < total {
                Some(i + 1)
            } else {
                None
            },
            (Some(i), false) => if i >= 1 {
                Some(i - 1)
            } else {
                None
            },
        }
    }
}

/// Which arrow stands at a cell: backward in the first three cells of the area, forward in the
/// last three.
pub open spec fn arrow_at(area: Rect, x: int, y: int) -> Option<bool> {
    if area.width == 0 || y != area.y {
        None
    } else if area.x <= x < area.x + 3 {
        Some(false)
    } else if area.right_column() - 3 <= x < area.right_column() {
        Some(true)
    } else {
        None
    }
}

/// A machine word as an index.
pub open spec fn as_int(i: Option<usize>) -> Option<int> {
    match i {
        Some(i) => Some(i as int),
        None => None,
    }
}

proof fn lemma_bar_width(selected: Option<int>, total: nat)
    requires
        total <= u64::MAX,
        selected matches Some(i) ==> 0 <= i < total,
    ensures
        13 <= bar_width(selected, total) <= 51,
{
    reveal_strlit(" ");
    reveal_strlit(" / ");
    lemma_decimal_len(total as u64);
    lemma_decimal_len(
        match selected {
            Some(i) => (i + 1) as u64,
            None => 0,
        },
    );
}

impl ChangeNavigation {
    /// Selects the group that holds the anchor row, and places the arrows in the footer.
    ///
    /// The middle of the footer must lie within the 16-bit coordinates, which it does for every
    /// rectangle that does not reach over their end.
    pub fn new(groups: Vec<Range<usize>>, anchor: Option<usize>, footer: Rect) -> (r: Self)
        requires
            ({
                let selected = selected_group(spans(groups@), anchor);
                let width = bar_width(selected, groups@.len());
                footer.width >= width ==> footer.x + (footer.width - width) / 2 <= u16::MAX
            }),
        ensures
            r.groups@ == groups@,
            as_int(r.selected) == selected_group(spans(groups@), anchor),
            r.area == bar_area(selected_group(spans(groups@), anchor), groups@.len(), footer),
            r.selected matches Some(i) ==> i < groups@.len(),
    {
        let total = groups.len();
        let mut selected: Option<usize> = None;
        if let Some(row) = anchor {
            let mut i: usize = 0;
            while i < total && selected.is_none()
                invariant
                    total == groups@.len(),
                    i <= total,
                    selected is None ==> group_with(spans(groups@), row as int, i as int)
                        == group_with(spans(groups@), row as int, 0),
                    selected matches Some(k) ==> k < total && group_with(
                        spans(groups@),
                        row as int,
                        0,
                    ) == Some(k as int),
                decreases total - i + if selected is None {
                        1int
                    } else {
                        0int
                    },
            {
                assert(spans(groups@)[i as int] == (
                    groups@[i as int].start as int,
                    groups@[i as int].end as int,
                ));
                if groups[i].start <= row && row < groups[i].end {
                    selected = Some(i);
                } else {
                    i += 1;
                }
            }
        }
        let place: usize = match selected {
            Some(i) => i + 1,
            None => 0,
        };
        let mut label = String::new();
        label.append(" ");
        label.append(to_decimal(place as u64).as_str());
        label.append(" / ");
        label.append(to_decimal(total as u64).as_str());
        label.append(" ");
        proof {
            lemma_bar_width(as_int(selected), total as nat);
            assert(label@ =~= position_label(as_int(selected), total as nat));
        }
        let width = (label.as_str().unicode_len() + 6) as u16;
        let area = if footer.width >= width {
            Rect::new(footer.x + (footer.width - width) / 2, footer.y, width, 1)
        } else {
            Rect::default()
        };
        ChangeNavigation { groups, selected, area }
    }

    /// The group that the forward or the backward arrow leads to, if there is one.
    pub fn target(&self, forward: bool) -> (r: Option<usize>)
        requires
            self.groups@.len() > 0 && forward ==> self.selected != Some(usize::MAX),
        ensures
            as_int(r) == target_group(as_int(self.selected), self.groups@.len() as int, forward),
    {
        let total = self.groups.len();
        if total == 0 {
            return None;
        }
        match (self.selected, forward) {
            (None, true) => Some(0),
            (None, false) => Some(total - 1),
            (Some(i), true) => if i + 1 < total {
                Some(i + 1)
            } else {
                None
            },
            (Some(i), false) => if i >= 1 {
                Some(i - 1)
            } else {
                None
            },
        }
    }

    /// Which arrow stands at a cell of the screen, if one does.
    ///
    /// On the line of the arrows, neither end of the three cells on the left nor the start of
    /// those on the right may lie outside the 16-bit coordinates.
    pub fn hit(&self, x: u16, y: u16) -> (r: Option<bool>)
        requires
            self.area.width > 0 && y == self.area.y ==> {
                &&& x >= self.area.x ==> self.area.x + 3 <= u16::MAX
                &&& !(self.area.x <= x < self.area.x + 3) ==> self.area.right_column() >= 3
            },
        ensures
            r == arrow_at(self.area, x as int, y as int),
    {
        if self.area.width == 0 || y != self.area.y {
            return None;
        }
        if x >= self.area.x && x < self.area.x + 3 {
            return Some(false);
        }
        if x >= self.area.right() - 3 && x < self.area.right() {
            return Some(true);
        }
        None
    }
}

/// The arrows are centered: their distances to the two ends of a footer differ by at most one
/// cell, and they lie within it.
pub proof fn law_arrows_centered(selected: Option<int>, total: nat, footer: Rect)
    requires
        total <= u64::MAX,
        selected matches Some(i) ==> 0 <= i < total,
        footer.x + footer.width <= u16::MAX,
        footer.width >= bar_width(selected, total),
    ensures
        ({
            let area = bar_area(selected, total, footer);
            let left = area.x - footer.x;
            let right = footer.x + footer.width - (area.x + area.width);
            0 <= left <= right <= left + 1 && area.y == footer.y && area.width == bar_width(
                selected,
                total,
            )
        }),
{
    lemma_bar_width(selected, total);
}

/// Where there are arrows, a click on the first three cells of their area goes backward, one on
/// the last three goes forward, and no other cell of the screen reacts. The two arrows do not
/// overlap.
pub proof fn law_arrows_react(selected: Option<int>, total: nat, footer: Rect, x: int, y: int)
    requires
        total <= u64::MAX,
        selected matches Some(i) ==> 0 <= i < total,
        footer.x + footer.width <= u16::MAX,
        footer.width >= bar_width(selected, total),
    ensures
        ({
            let area = bar_area(selected, total, footer);
            &&& arrow_at(area, x, y) == Some(false) <==> y == area.y && area.x <= x < area.x + 3
            &&& arrow_at(area, x, y) == Some(true) <==> y == area.y && area.x + area.width - 3 <= x
                < area.x + area.width
            &&& area.x + 3 < area.x + area.width - 3
        }),
{
    lemma_bar_width(selected, total);
}

/// Without room for the arrows nothing reacts.
pub proof fn law_no_arrows_no_reaction(
    selected: Option<int>,
    total: nat,
    footer: Rect,
    x: int,
    y: int,
)
    requires
        footer.width < bar_width(selected, total),
    ensures
        arrow_at(bar_area(selected, total, footer), x, y) is None,
{
}

/// The arrows stop at the boundaries of the file: none leads forward from the last group or
/// backward from the first, and each that leads somewhere leads to the neighbor.
pub proof fn law_arrows_stop_at_boundaries(total: int, i: int)
    requires
        0 <= i < total,
    ensures
        target_group(Some(i), total, true) is None <==> i == total - 1,
        target_group(Some(i), total, false) is None <==> i == 0,
        target_group(Some(i), total, true) matches Some(j) ==> j == i + 1 && j < total,
        target_group(Some(i), total, false) matches Some(j) ==> j == i - 1 && j >= 0,
        target_group(None, total, true) == Some(0int),
        target_group(None, total, false) == Some(total - 1),
{
}

/// Going one group forward and back again returns to the group one came from.
pub proof fn law_forward_then_back(total: int, i: int)
    requires
        0 <= i < total,
    ensures
        target_group(Some(i), total, true) matches Some(j) ==> target_group(Some(j), total, false)
            == Some(i),
        target_group(Some(i), total, false) matches Some(j) ==> target_group(Some(j), total, true)
            == Some(i),
{
}

// ---------------------------------------------------------------------------------------------
// What the measures mean
// ---------------------------------------------------------------------------------------------

/// Every row, changed or not, takes as many screen lines as it wraps over, and at least one. The
/// lines of rows add up, and no rows take no lines.
pub proof fn law_rows_take_their_lines(rows: Seq<(bool, usize)>, a: int, b: int, c: int)
    requires
        0 <= a <= b <= c <= rows.len(),
    ensures
        height(rows, a, a) == 0,
        height(rows, a, c) == height(rows, a, b) + height(rows, b, c),
        a < rows.len() ==> height(rows, a, a + 1) == if rows[a].1 >= 1 {
            rows[a].1 as int
        } else {
            1
        },
{
    lemma_height_adds(rows, a, b, c);
    if a < rows.len() {
        reveal_with_fuel(height, 2);
    }
}

/// The lines that rows take grow with every row by what that row wraps over, and at least by one.
/// So a group of several rows, changed and unchanged ones counted, takes at most as many lines as
/// the viewport shows, which is at least one.
pub proof fn law_group_lines_are_counted(
    rows: Seq<(bool, usize)>,
    budget: nat,
    k: int,
    lines: spec_fn(int) -> int,
)
    requires
        0 <= k < change_groups(rows, budget).len(),
        lines(change_groups(rows, budget)[k].0) == 0,
        forall|i: int|
            0 <= i < rows.len() ==> #[trigger] lines(i + 1) == lines(i) + if rows[i].1 >= 1 {
                rows[i].1 as int
            } else {
                1
            },
    ensures
        ({
            let g = change_groups(rows, budget)[k];
            g.1 > g.0 + 1 ==> lines(g.1) <= budget && lines(g.1) >= 2
        }),
{
    let g = change_groups(rows, budget)[k];
    law_groups_in_order(rows, budget);
    law_groups_fit(rows, budget, k);
    lemma_lines(rows, g.0, g.1, lines);
    if g.1 > g.0 + 1 {
        lemma_height_at_least(rows, g.0, g.1);
    }
}

proof fn lemma_height_at_least(rows: Seq<(bool, usize)>, a: int, b: int)
    requires
        a <= b,
    ensures
        height(rows, a, b) >= b - a,
    decreases b - a,
{
    if a < b {
        lemma_height_at_least(rows, a, b - 1);
    }
}

proof fn lemma_lines(rows: Seq<(bool, usize)>, a: int, b: int, lines: spec_fn(int) -> int)
    requires
        0 <= a <= b <= rows.len(),
        lines(a) == 0,
        forall|i: int|
            0 <= i < rows.len() ==> #[trigger] lines(i + 1) == lines(i) + if rows[i].1 >= 1 {
                rows[i].1 as int
            } else {
                1
            },
    ensures
        lines(b) == height(rows, a, b),
    decreases b - a,
{
    if a < b {
        lemma_lines(rows, a, b - 1, lines);
        assert(lines((b - 1) + 1) == lines(b - 1) + if rows[b - 1].1 >= 1 {
            rows[b - 1].1 as int
        } else {
            1
        });
    }
}

/// A viewport of no lines is taken for one of one line; any other is taken as it is.
pub proof fn law_viewport_shows_at_least_one_line(budget: nat)
    ensures
        effective(budget) >= 1,
        effective(budget) >= budget,
        effective(budget) == budget || budget == 0 && effective(budget) == 1,
{
}

/// A run goes on as long as rows are changed: all rows up to its end are, and the row at its end,
/// if there is one, is not.
pub proof fn law_run_ends_at_unchanged_row(rows: Seq<(bool, usize)>, i: int)
    requires
        0 <= i <= rows.len(),
    ensures
        i <= run_end(rows, i) <= rows.len(),
        forall|k: int| i <= k < run_end(rows, i) ==> (#[trigger] rows[k]).0,
        run_end(rows, i) < rows.len() ==> !rows[run_end(rows, i)].0,
{
    lemma_run_end(rows, i);
}

/// The ranges that are returned are the groups, bound for bound.
pub proof fn law_spans_bound_by_bound(ranges: Seq<Range<usize>>)
    ensures
        spans(ranges).len() == ranges.len(),
        forall|k: int|
            0 <= k < ranges.len() ==> (#[trigger] spans(ranges)[k]).0 == ranges[k].start
                && spans(ranges)[k].1 == ranges[k].end,
{
}

proof fn lemma_group_with(groups: Seq<(int, int)>, row: int, from: int)
    requires
        0 <= from,
    ensures
        match group_with(groups, row, from) {
            Some(i) => from <= i < groups.len() && groups[i].0 <= row < groups[i].1 && (forall|j: int|
                from <= j < i ==> !((#[trigger] groups[j]).0 <= row < groups[j].1)),
            None => forall|j: int|
                from <= j < groups.len() ==> !((#[trigger] groups[j]).0 <= row < groups[j].1),
        },
    decreases groups.len() - from,
{
    if from < groups.len() && !(groups[from].0 <= row < groups[from].1) {
        lemma_group_with(groups, row, from + 1);
    }
}

/// The selected group is the first that holds the anchor row; none is selected exactly if there is
/// no anchor or no group holds it.
pub proof fn law_selected_group_holds_anchor(groups: Seq<(int, int)>, anchor: Option<usize>)
    ensures
        match selected_group(groups, anchor) {
            Some(i) => anchor is Some && 0 <= i < groups.len() && groups[i].0 <= anchor->0
                < groups[i].1 && (forall|j: int|
                0 <= j < i ==> !((#[trigger] groups[j]).0 <= anchor->0 < groups[j].1)),
            None => anchor is Some ==> forall|j: int|
                0 <= j < groups.len() ==> !((#[trigger] groups[j]).0 <= anchor->0 < groups[j].1),
        },
{
    if let Some(row) = anchor {
        lemma_group_with(groups, row as int, 0);
    }
}

/// In a file whose groups are those of its rows, the row of every change leads to the one group
/// that holds it.
pub proof fn law_every_change_is_selected(rows: Seq<(bool, usize)>, budget: nat, row: usize)
    requires
        row < rows.len(),
        rows[row as int].0,
    ensures
        ({
            let groups = change_groups(rows, budget);
            &&& selected_group(groups, Some(row)) is Some
            &&& forall|k: int|
                0 <= k < groups.len() && (#[trigger] groups[k]).0 <= row < groups[k].1
                    ==> selected_group(groups, Some(row)) == Some(k)
        }),
{
    let groups = change_groups(rows, budget);
    law_no_change_lost(rows, budget, row as int);
    law_selected_group_holds_anchor(groups, Some(row));
    law_groups_in_order(rows, budget);
    assert forall|k: int|
        0 <= k < groups.len() && (#[trigger] groups[k]).0 <= row < groups[k].1 implies selected_group(
        groups,
        Some(row),
    ) == Some(k) by {
        let i = selected_group(groups, Some(row))->0;
        assert(groups[i].0 <= row < groups[i].1);
        if i < k {
            assert(groups[i].1 <= groups[k].0);
        }
        if k < i {
            assert(groups[k].1 <= groups[i].0);
        }
    }
}

/// The bar is as wide as two arrows of three cells and a label, which holds the place of the
/// selected group (counted from one, or zero) and the number of groups, with five characters
/// around them. Without enough room there is no bar at all.
pub proof fn law_bar_is_as_wide_as_its_label(selected: Option<int>, total: nat, footer: Rect)
    ensures
        selected matches Some(i) ==> i >= 0 ==> bar_width(selected, total) == 11 + decimal(
            (i + 1) as nat,
        ).len() + decimal(total).len(),
        selected is None ==> bar_width(selected, total) == 12 + decimal(total).len(),
        footer.width < bar_width(selected, total) ==> bar_area(selected, total, footer).width == 0
            && bar_area(selected, total, footer).height == 0,
        footer.width >= bar_width(selected, total) && footer.y < u16::MAX ==> bar_area(
            selected,
            total,
            footer,
        ).height == 1,
{
    reveal_strlit(" ");
    reveal_strlit(" / ");
}

/// A rectangle keeps its corner and its size, but for what would lie outside of the 16-bit
/// coordinates; and the column after it is its corner plus its width, within them.
pub proof fn law_rectangles_stay_on_the_grid(x: u16, y: u16, width: u16, height: u16)
    ensures
        ({
            let r = rect_at(x as int, y as int, width as int, height as int);
            &&& r.x == x && r.y == y
            &&& r.width <= width && r.height <= height
            &&& r.x + r.width <= u16::MAX && r.y + r.height <= u16::MAX
            &&& r.width == width || r.x + r.width == u16::MAX
            &&& r.height == height || r.y + r.height == u16::MAX
            &&& r.right_column() == r.x + r.width
        }),
{
}

/// A cell reacts only on the line of the arrows, backward in the first three columns and else
/// forward in the last three before the column after the area; an empty area never reacts.
pub proof fn law_reaction_is_on_the_arrows(area: Rect, x: int, y: int)
    requires
        area.x + area.width <= u16::MAX,
    ensures
        arrow_at(area, x, y) is Some ==> area.width > 0 && y == area.y,
        area.width > 0 && y == area.y && area.x <= x < area.x + 3 ==> arrow_at(area, x, y) == Some(
            false,
        ),
        area.width > 0 && y == area.y && !(area.x <= x < area.x + 3) ==> (arrow_at(area, x, y)
            == Some(true) <==> area.x + area.width - 3 <= x < area.x + area.width),
        arrow_at(area, x, y) == Some(false) ==> area.x <= x < area.x + 3,
{
}

/// Where there are no groups, no arrow leads anywhere. From no group, the forward arrow leads to
/// the first and the backward arrow to the last; every target is a group.
pub proof fn law_targets_are_groups(selected: Option<int>, total: int, forward: bool)
    requires
        0 <= total,
        selected matches Some(i) ==> 0 <= i < total,
    ensures
        target_group(selected, total, forward) matches Some(j) ==> 0 <= j < total,
        total == 0 ==> target_group(selected, total, forward) is None,
        total > 0 && selected is None ==> target_group(selected, total, forward) == Some(
            if forward {
                0
            } else {
                total - 1
            },
        ),
{
}

/// An index keeps its value.
pub proof fn law_index_is_kept(i: Option<usize>)
    ensures
        i matches Some(k) ==> as_int(i) == Some(k as int),
        i is None ==> as_int(i) is None,
{
}

} // verus!
