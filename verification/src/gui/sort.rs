//! The order of the rows in the process table.

use crate::table::Table;
use crate::text::{characters, lowercase, to_lowercase};
use crate::types::{ProcessStats, StatsView};
use vstd::prelude::*;
use vstd::string::*;

verus! {

broadcast use vstd::string::group_string_axioms;

/// A column that the table can be sorted by.
#[derive(Clone, Copy, PartialEq, Eq, Structural, Debug)]
pub enum SortColumn {
    Name,
    Flows,
    Down,
    Up,
    DownTotal,
    UpTotal,
}

/// Whether `a` comes before `b` in the dictionary order of code points.
pub open spec fn text_before(a: Seq<char>, b: Seq<char>) -> bool
    decreases a.len(),
{
    if b.len() == 0 {
        false
    } else if a.len() == 0 {
        true
    } else if a[0] == b[0] {
        text_before(a.drop_first(), b.drop_first())
    } else {
        a[0] < b[0]
    }
}

/// Whether `a` has less of what the column shows than `b`. Names are compared
/// without regard to case.
pub open spec fn below(column: SortColumn, a: StatsView, b: StatsView) -> bool {
    match column {
        SortColumn::Name => text_before(lowercase(a.name), lowercase(b.name)),
        SortColumn::Flows => a.flow_count < b.flow_count,
        SortColumn::Down => a.down_rate < b.down_rate,
        SortColumn::Up => a.up_rate < b.up_rate,
        SortColumn::DownTotal => a.down_total < b.down_total,
        SortColumn::UpTotal => a.up_total < b.up_total,
    }
}

/// Whether row `i` stands above row `j`. Rows that compare equal keep the order
/// they came in.
pub open spec fn precedes(
    stats: Seq<StatsView>,
    column: SortColumn,
    desc: bool,
    i: int,
    j: int,
) -> bool {
    let (lower, upper) = if desc {
        (stats[j], stats[i])
    } else {
        (stats[i], stats[j])
    };
    below(column, lower, upper) || (!below(column, upper, lower) && i < j)
}

/// Whether `order` lists rows so that each stands above those that follow.
pub open spec fn ordered(
    stats: Seq<StatsView>,
    column: SortColumn,
    desc: bool,
    order: Seq<usize>,
) -> bool {
    forall|p: int, q: int|
        0 <= p < q < order.len() ==> #[trigger] precedes(
            stats,
            column,
            desc,
            order[p] as int,
            order[q] as int,
        )
}

/// The dictionary order is a strict total order.
proof fn lemma_text_order(a: Seq<char>, b: Seq<char>, c: Seq<char>)
    ensures
        !text_before(a, a),
        text_before(a, b) ==> !text_before(b, a),
        text_before(a, b) && text_before(b, c) ==> text_before(a, c),
        !text_before(a, b) && !text_before(b, a) ==> a == b,
    decreases a.len(),
{
    if a.len() > 0 {
        lemma_text_order(a.drop_first(), a.drop_first(), Seq::empty());
    }
    if a.len() > 0 && b.len() > 0 {
        if c.len() > 0 {
            lemma_text_order(a.drop_first(), b.drop_first(), c.drop_first());
        } else {
            lemma_text_order(a.drop_first(), b.drop_first(), c);
        }
        if a[0] == b[0] && a.drop_first() == b.drop_first() {
            assert(a =~= seq![a[0]] + a.drop_first());
            assert(b =~= seq![b[0]] + b.drop_first());
        }
    } else if a.len() == 0 && b.len() == 0 {
        assert(a =~= b);
    }
}

/// Every column orders rows strictly and without gaps.
proof fn lemma_below(column: SortColumn, a: StatsView, b: StatsView, c: StatsView)
    ensures
        !below(column, a, a),
        below(column, a, b) ==> !below(column, b, a),
        below(column, a, b) && below(column, b, c) ==> below(column, a, c),
        !below(column, a, b) && !below(column, b, c) ==> !below(column, a, c),
{
    let (s, t, u) = (lowercase(a.name), lowercase(b.name), lowercase(c.name));
    lemma_text_order(s, t, u);
    lemma_text_order(t, u, s);
    lemma_text_order(u, s, t);
    lemma_text_order(u, t, s);
    lemma_text_order(t, s, u);
    lemma_text_order(s, u, t);
}

/// Of two rows one stands above the other, and so on down the table.
proof fn lemma_precedes(
    stats: Seq<StatsView>,
    column: SortColumn,
    desc: bool,
    i: int,
    j: int,
    k: int,
)
    ensures
        !precedes(stats, column, desc, i, i),
        i != j ==> precedes(stats, column, desc, i, j) != precedes(stats, column, desc, j, i),
        precedes(stats, column, desc, i, j) && precedes(stats, column, desc, j, k) ==> precedes(
            stats,
            column,
            desc,
            i,
            k,
        ),
{
    let (a, b, c) = (stats[i], stats[j], stats[k]);
    lemma_below(column, a, b, c);
    lemma_below(column, b, c, a);
    lemma_below(column, c, a, b);
    lemma_below(column, c, b, a);
    lemma_below(column, b, a, c);
    lemma_below(column, a, c, b);
}

/// Compute [`text_before`].
fn is_text_before(a: &Vec<char>, b: &Vec<char>) -> (before: bool)
    ensures
        before == text_before(a@, b@),
{
    let mut k: usize = 0;
    assert(a@.skip(0) =~= a@);
    assert(b@.skip(0) =~= b@);
    while k < a.len() && k < b.len()
        invariant
            k <= a.len(),
            k <= b.len(),
            text_before(a@, b@) == text_before(a@.skip(k as int), b@.skip(k as int)),
        decreases a.len() - k,
    {
        if a[k] != b[k] {
            return a[k] < b[k];
        }
        assert(a@.skip(k as int).drop_first() =~= a@.skip(k + 1));
        assert(b@.skip(k as int).drop_first() =~= b@.skip(k + 1));
        k = k + 1;
    }
    k < b.len()
}

/// What the rows are compared by: the column's number, or the name in
/// lowercase.
struct Ranks {
    column: SortColumn,
    desc: bool,
    numbers: Vec<u64>,
    names: Vec<Vec<char>>,
}

/// The stats of the rows.
pub open spec fn row_stats(entries: Seq<(Seq<char>, StatsView)>) -> Seq<StatsView> {
    Seq::new(entries.len(), |i: int| entries[i].1)
}

/// The number in a column; zero for the names.
spec fn number_in(column: SortColumn, stats: StatsView) -> nat {
    match column {
        SortColumn::Name => 0,
        SortColumn::Flows => stats.flow_count,
        SortColumn::Down => stats.down_rate as nat,
        SortColumn::Up => stats.up_rate as nat,
        SortColumn::DownTotal => stats.down_total as nat,
        SortColumn::UpTotal => stats.up_total as nat,
    }
}

impl Ranks {
    /// These are the ranks of the first rows.
    spec fn cover(&self, stats: Seq<StatsView>) -> bool {
        &&& self.numbers@.len() == stats.len()
        &&& forall|i: int|
            0 <= i < stats.len() ==> (#[trigger] self.numbers@[i]) as nat == number_in(
                self.column,
                stats[i],
            )
        &&& self.column == SortColumn::Name ==> {
            &&& self.names@.len() == stats.len()
            &&& forall|i: int|
                0 <= i < stats.len() ==> (#[trigger] self.names@[i])@ == lowercase(stats[i].name)
        }
    }

    /// Rank the rows of a table.
    fn of(processes: &Table<String, ProcessStats>, column: SortColumn, desc: bool) -> (ranks: Ranks)
        ensures
            ranks.cover(row_stats(processes.entries())),
            ranks.column == column,
            ranks.desc == desc,
    {
        let mut ranks = Ranks { column, desc, numbers: Vec::new(), names: Vec::new() };
        let ghost all = row_stats(processes.entries());
        let mut i: usize = 0;
        while i < processes.len()
            invariant
                all == row_stats(processes.entries()),
                i <= all.len(),
                ranks.column == column,
                ranks.desc == desc,
                ranks.cover(all.take(i as int)),
            decreases all.len() - i,
        {
            let stats = processes.value(i);
            let number: u64 = match column {
                SortColumn::Name => 0,
                SortColumn::Flows => stats.flow_count as u64,
                SortColumn::Down => stats.down_rate,
                SortColumn::Up => stats.up_rate,
                SortColumn::DownTotal => stats.down_total,
                SortColumn::UpTotal => stats.up_total,
            };
            ranks.numbers.push(number);
            if column == SortColumn::Name {
                ranks.names.push(characters(to_lowercase(stats.name.as_str()).as_str()));
            }
            i = i + 1;
        }
        assert(all.take(i as int) =~= all);
        ranks
    }

    /// Compute [`below`].
    fn is_below(&self, i: usize, j: usize, Ghost(stats): Ghost<Seq<StatsView>>) -> (less: bool)
        requires
            self.cover(stats),
            i < stats.len(),
            j < stats.len(),
        ensures
            less == below(self.column, stats[i as int], stats[j as int]),
    {
        if self.column == SortColumn::Name {
            is_text_before(&self.names[i], &self.names[j])
        } else {
            self.numbers[i] < self.numbers[j]
        }
    }

    /// Compute [`precedes`].
    fn is_above(&self, i: usize, j: usize, Ghost(stats): Ghost<Seq<StatsView>>) -> (above: bool)
        requires
            self.cover(stats),
            i < stats.len(),
            j < stats.len(),
        ensures
            above == precedes(stats, self.column, self.desc, i as int, j as int),
    {
        let (lower, upper) = if self.desc {
            (j, i)
        } else {
            (i, j)
        };
        self.is_below(lower, upper, Ghost(stats)) || (!self.is_below(upper, lower, Ghost(stats))
            && i < j)
    }

    /// Merge two sorted lists of rows, all of the first with smaller numbers
    /// than any of the second.
    fn merge(
        &self,
        left: &Vec<usize>,
        right: &Vec<usize>,
        Ghost(stats): Ghost<Seq<StatsView>>,
    ) -> (merged: Vec<usize>)
        requires
            self.cover(stats),
            ordered(stats, self.column, self.desc, left@),
            ordered(stats, self.column, self.desc, right@),
            forall|p: int| 0 <= p < left.len() ==> (#[trigger] left@[p]) < stats.len(),
            forall|p: int| 0 <= p < right.len() ==> (#[trigger] right@[p]) < stats.len(),
            forall|p: int, q: int|
                0 <= p < left.len() && 0 <= q < right.len() ==> (#[trigger] left@[p])
                    < #[trigger] right@[q],
            left.len() + right.len() <= usize::MAX,
        ensures
            merged.len() == left.len() + right.len(),
            ordered(stats, self.column, self.desc, merged@),
            forall|p: int|
                0 <= p < merged.len() ==> left@.contains(#[trigger] merged@[p]) || right@.contains(
                    merged@[p],
                ),
    {
        let mut merged: Vec<usize> = Vec::new();
        let (mut i, mut j): (usize, usize) = (0, 0);
        let ghost (column, desc) = (self.column, self.desc);
        while i < left.len() || j < right.len()
            invariant
                self.cover(stats),
                column == self.column,
                desc == self.desc,
                ordered(stats, column, desc, left@),
                ordered(stats, column, desc, right@),
                forall|p: int| 0 <= p < left.len() ==> (#[trigger] left@[p]) < stats.len(),
                forall|p: int| 0 <= p < right.len() ==> (#[trigger] right@[p]) < stats.len(),
                forall|p: int, q: int|
                    0 <= p < left.len() && 0 <= q < right.len() ==> (#[trigger] left@[p])
                        < #[trigger] right@[q],
                i <= left.len(),
                j <= right.len(),
                merged.len() == i + j,
                ordered(stats, column, desc, merged@),
                forall|p: int|
                    0 <= p < merged.len() ==> left@.contains(#[trigger] merged@[p])
                        || right@.contains(merged@[p]),
                forall|p: int, q: int|
                    0 <= p < merged.len() && i <= q < left.len() ==> precedes(
                        stats,
                        column,
                        desc,
                        (#[trigger] merged@[p]) as int,
                        (#[trigger] left@[q]) as int,
                    ),
                forall|p: int, q: int|
                    0 <= p < merged.len() && j <= q < right.len() ==> precedes(
                        stats,
                        column,
                        desc,
                        (#[trigger] merged@[p]) as int,
                        (#[trigger] right@[q]) as int,
                    ),
            decreases left.len() + right.len() - i - j,
        {
            let ghost before = merged@;
            let from_left = j == right.len() || (i < left.len() && self.is_above(
                left[i],
                right[j],
                Ghost(stats),
            ));
            if from_left {
                proof {
                    // What is left of the second list comes after.
                    assert forall|q: int| j <= q < right.len() implies precedes(
                        stats,
                        column,
                        desc,
                        left@[i as int] as int,
                        (#[trigger] right@[q]) as int,
                    ) by {
                        lemma_precedes(
                            stats,
                            column,
                            desc,
                            left@[i as int] as int,
                            right@[j as int] as int,
                            right@[q] as int,
                        );
                        if j < q {
                            assert(precedes(
                                stats,
                                column,
                                desc,
                                right@[j as int] as int,
                                right@[q] as int,
                            ));
                        }
                    }
                }
                merged.push(left[i]);
                assert(left@.contains(left@[i as int]));
                i = i + 1;
            } else {
                proof {
                    assert forall|q: int| i <= q < left.len() implies precedes(
                        stats,
                        column,
                        desc,
                        right@[j as int] as int,
                        (#[trigger] left@[q]) as int,
                    ) by {
                        let (r, l) = (right@[j as int] as int, left@[i as int] as int);
                        lemma_precedes(stats, column, desc, l, r, l);
                        lemma_precedes(stats, column, desc, r, l, left@[q] as int);
                        if i < q {
                            assert(precedes(stats, column, desc, l, left@[q] as int));
                        }
                    }
                }
                merged.push(right[j]);
                assert(right@.contains(right@[j as int]));
                j = j + 1;
            }
            assert forall|p: int, q: int| 0 <= p < q < merged.len() implies #[trigger] precedes(
                stats,
                column,
                desc,
                merged@[p] as int,
                merged@[q] as int,
            ) by {
                assert(merged@[p] == before[p]);
                if q < before.len() {
                    assert(merged@[q] == before[q]);
                }
            }
        }
        merged
    }

    /// Sort the rows from `from` up to `to`.
    fn sort(&self, from: usize, to: usize, Ghost(stats): Ghost<Seq<StatsView>>) -> (order: Vec<
        usize,
    >)
        requires
            self.cover(stats),
            from <= to <= stats.len(),
        ensures
            order.len() == to - from,
            ordered(stats, self.column, self.desc, order@),
            forall|p: int| 0 <= p < order.len() ==> from <= (#[trigger] order@[p]) < to,
        decreases to - from,
    {
        let mut order: Vec<usize> = Vec::new();
        if to - from <= 1 {
            if from < to {
                order.push(from);
            }
            return order;
        }
        let middle = from + (to - from) / 2;
        let left = self.sort(from, middle, Ghost(stats));
        let right = self.sort(middle, to, Ghost(stats));
        let merged = self.merge(&left, &right, Ghost(stats));
        assert forall|p: int| 0 <= p < merged.len() implies from <= (#[trigger] merged@[p]) < to by {
            if left@.contains(merged@[p]) {
                let q = choose|q: int| 0 <= q < left@.len() && left@[q] == merged@[p];
                assert(left@[q] == merged@[p]);
            } else {
                let q = choose|q: int| 0 <= q < right@.len() && right@[q] == merged@[p];
                assert(right@[q] == merged@[p]);
            }
        }
        merged
    }
}

/// What is listed in order is listed once.
proof fn lemma_listed_once(
    stats: Seq<StatsView>,
    column: SortColumn,
    desc: bool,
    order: Seq<usize>,
)
    requires
        ordered(stats, column, desc, order),
        order.len() == stats.len(),
        forall|p: int| 0 <= p < order.len() ==> (#[trigger] order[p]) < stats.len(),
    ensures
        order.no_duplicates(),
        forall|i: usize| i < stats.len() ==> order.contains(i),
{
    assert forall|p: int, q: int| 0 <= p < q < order.len() implies order[p] != order[q] by {
        lemma_precedes(stats, column, desc, order[p] as int, order[q] as int, 0);
        assert(precedes(stats, column, desc, order[p] as int, order[q] as int));
    }
    assert(order.no_duplicates());
    let numbers = order.map_values(|i: usize| i as int);
    assert(numbers.no_duplicates());
    let listed = numbers.to_set();
    let all = vstd::set_lib::set_int_range(0, stats.len() as int);
    numbers.unique_seq_to_set();
    vstd::set_lib::lemma_int_range(0, stats.len() as int);
    assert(listed.subset_of(all));
    vstd::set_lib::lemma_subset_equality(listed, all);
    assert forall|i: usize| i < stats.len() implies order.contains(i) by {
        assert(all.contains(i as int));
        assert(listed.contains(i as int));
        let p = choose|p: int| 0 <= p < numbers.len() && numbers[p] == i;
        assert(order[p] == i);
    }
}

/// The rows of the table in the order in which they are shown, as places in
/// `processes`.
pub fn sorted_rows(
    processes: &Table<String, ProcessStats>,
    column: SortColumn,
    desc: bool,
) -> (order: Vec<usize>)
    ensures
        order.len() == processes.entries().len(),
        order@.no_duplicates(),
        forall|i: usize| i < order.len() ==> order@.contains(i),
        forall|p: int| 0 <= p < order.len() ==> (#[trigger] order@[p]) < order.len(),
        ordered(row_stats(processes.entries()), column, desc, order@),
{
    let ghost stats = row_stats(processes.entries());
    let ranks = Ranks::of(processes, column, desc);
    let order = ranks.sort(0, processes.len(), Ghost(stats));
    proof {
        lemma_listed_once(stats, column, desc, order@);
    }
    order
}

/// Read down a sorted table, the numbers of the sort column never increase if
/// the order is descending and never decrease if it is ascending.
pub proof fn law_columns_are_sorted(
    entries: Seq<(Seq<char>, StatsView)>,
    column: SortColumn,
    desc: bool,
    order: Seq<usize>,
    p: int,
    q: int,
)
    requires
        ordered(row_stats(entries), column, desc, order),
        0 <= p < q < order.len(),
        order[p] < entries.len(),
        order[q] < entries.len(),
    ensures
        ({
            let (a, b) = (entries[order[p] as int].1, entries[order[q] as int].1);
            &&& column == SortColumn::Flows && desc ==> a.flow_count >= b.flow_count
            &&& column == SortColumn::Flows && !desc ==> a.flow_count <= b.flow_count
            &&& column == SortColumn::Down && desc ==> a.down_rate >= b.down_rate
            &&& column == SortColumn::Down && !desc ==> a.down_rate <= b.down_rate
            &&& column == SortColumn::Up && desc ==> a.up_rate >= b.up_rate
            &&& column == SortColumn::Up && !desc ==> a.up_rate <= b.up_rate
            &&& column == SortColumn::DownTotal && desc ==> a.down_total >= b.down_total
            &&& column == SortColumn::DownTotal && !desc ==> a.down_total <= b.down_total
            &&& column == SortColumn::UpTotal && desc ==> a.up_total >= b.up_total
            &&& column == SortColumn::UpTotal && !desc ==> a.up_total <= b.up_total
        }),
{
    assert(precedes(
        row_stats(entries),
        column,
        desc,
        order[p] as int,
        order[q] as int,
    ));
}

/// Rows with the same number in the sort column stay in the order they came in,
/// ascending or descending; so do rows with the same name but for case.
pub proof fn law_equal_rows_keep_their_order(
    stats: Seq<StatsView>,
    column: SortColumn,
    desc: bool,
    order: Seq<usize>,
    p: int,
    q: int,
)
    requires
        ordered(stats, column, desc, order),
        0 <= p < q < order.len(),
        ({
            let (a, b) = (stats[order[p] as int], stats[order[q] as int]);
            match column {
                SortColumn::Name => lowercase(a.name) == lowercase(b.name),
                SortColumn::Flows => a.flow_count == b.flow_count,
                SortColumn::Down => a.down_rate == b.down_rate,
                SortColumn::Up => a.up_rate == b.up_rate,
                SortColumn::DownTotal => a.down_total == b.down_total,
                SortColumn::UpTotal => a.up_total == b.up_total,
            }
        }),
    ensures
        order[p] < order[q],
{
    let (a, b) = (stats[order[p] as int], stats[order[q] as int]);
    lemma_text_order(lowercase(a.name), lowercase(a.name), lowercase(a.name));
    assert(precedes(stats, column, desc, order[p] as int, order[q] as int));
}

/// Two texts agree up to, but not including, position `n`.
pub open spec fn agree_up_to(a: Seq<char>, b: Seq<char>, n: int) -> bool {
    &&& 0 <= n <= a.len()
    &&& n <= b.len()
    &&& forall|i: int| 0 <= i < n ==> a[i] == b[i]
}

/// The dictionary order goes by the first position at which two texts differ; a
/// text stands before every longer one that begins with it.
pub proof fn law_dictionary_order(a: Seq<char>, b: Seq<char>, n: int)
    requires
        agree_up_to(a, b, n),
    ensures
        n < a.len() && n < b.len() && a[n] < b[n] ==> text_before(a, b) && !text_before(b, a),
        n == a.len() && n < b.len() ==> text_before(a, b) && !text_before(b, a),
        n == a.len() && n == b.len() ==> !text_before(a, b),
    decreases n,
{
    if n > 0 {
        let (s, t) = (a.drop_first(), b.drop_first());
        assert(a[0] == b[0]);
        assert forall|i: int| 0 <= i < n - 1 implies s[i] == t[i] by {
            assert(a[i + 1] == b[i + 1]);
        }
        law_dictionary_order(s, t, n - 1);
    }
}

/// Read down a table sorted by name, no name stands before the one above it in
/// the dictionary if the order is ascending, and none after it if the order is
/// descending, all names taken in lowercase.
pub proof fn law_names_are_sorted(
    stats: Seq<StatsView>,
    desc: bool,
    order: Seq<usize>,
    p: int,
    q: int,
    n: int,
)
    requires
        ordered(stats, SortColumn::Name, desc, order),
        0 <= p < q < order.len(),
        agree_up_to(
            lowercase(stats[order[p] as int].name),
            lowercase(stats[order[q] as int].name),
            n,
        ),
    ensures
        ({
            let a = lowercase(stats[order[p] as int].name);
            let b = lowercase(stats[order[q] as int].name);
            &&& !desc && n < a.len() && n < b.len() ==> a[n] <= b[n]
            &&& desc && n < a.len() && n < b.len() ==> a[n] >= b[n]
            &&& !desc && n == b.len() ==> n == a.len()
            &&& desc && n == a.len() ==> n == b.len()
        }),
{
    let a = lowercase(stats[order[p] as int].name);
    let b = lowercase(stats[order[q] as int].name);
    law_dictionary_order(a, b, n);
    assert(agree_up_to(b, a, n));
    law_dictionary_order(b, a, n);
    assert(precedes(stats, SortColumn::Name, desc, order[p] as int, order[q] as int));
}

} // verus!
