//! The room summary: every room with the number of its live subscriptions,
//! fullest room first, rooms of equal size by name.

use crate::text::{comes_before, decimal, push_decimal, text_before};
use vstd::prelude::*;

verus! {

broadcast use {
    vstd::seq_lib::to_multiset_build,
    vstd::seq_lib::to_multiset_insert,
    vstd::seq_lib::to_multiset_remove,
};

/// A row of the summary as plain values: the room's name and its live count.
pub open spec fn row_view(row: (String, usize)) -> (Seq<char>, usize) {
    (row.0@, row.1)
}

/// The rows of a summary as plain values.
pub open spec fn rows_view(rows: Seq<(String, usize)>) -> Seq<(Seq<char>, usize)> {
    rows.map_values(|row: (String, usize)| row_view(row))
}

/// Whether the row `a` belongs strictly before the row `b`: it has the higher
/// count, or the same count and the earlier name.
pub open spec fn ranks_before(a: (Seq<char>, usize), b: (Seq<char>, usize)) -> bool {
    a.1 > b.1 || (a.1 == b.1 && text_before(a.0, b.0))
}

/// Whether no row of `rows` belongs before a row that precedes it.
pub open spec fn in_summary_order(rows: Seq<(Seq<char>, usize)>) -> bool {
    forall|i: int, j: int| 0 <= i < j < rows.len() ==> !ranks_before(rows[j], rows[i])
}

/// The summary as one line: every row as its name, its count in parentheses,
/// and a space.
pub open spec fn summary_text(rows: Seq<(Seq<char>, usize)>) -> Seq<char>
    decreases rows.len(),
{
    if rows.len() == 0 {
        Seq::empty()
    } else {
        summary_text(rows.drop_last()) + rows.last().0 + seq!['('] + decimal(rows.last().1 as nat)
            + seq![')', ' ']
    }
}

/// No text comes before itself.
pub proof fn lemma_text_before_irreflexive(a: Seq<char>)
    ensures
        !text_before(a, a),
    decreases a.len(),
{
    if a.len() > 0 {
        lemma_text_before_irreflexive(a.drop_first());
    }
}

/// Dictionary order is transitive.
pub proof fn lemma_text_before_transitive(a: Seq<char>, b: Seq<char>, c: Seq<char>)
    requires
        text_before(a, b),
        text_before(b, c),
    ensures
        text_before(a, c),
    decreases a.len(),
{
    if a.len() > 0 && a[0] == b[0] && b[0] == c[0] {
        lemma_text_before_transitive(a.drop_first(), b.drop_first(), c.drop_first());
    }
}

/// Of two different texts, one comes before the other.
pub proof fn lemma_text_before_total(a: Seq<char>, b: Seq<char>)
    ensures
        text_before(a, b) || text_before(b, a) || a == b,
    decreases a.len(),
{
    if a.len() > 0 && b.len() > 0 {
        if a[0] == b[0] {
            lemma_text_before_total(a.drop_first(), b.drop_first());
            if a.drop_first() == b.drop_first() {
                assert(a =~= seq![a[0]] + a.drop_first());
                assert(b =~= seq![b[0]] + b.drop_first());
            }
        }
    } else if a.len() == 0 && b.len() == 0 {
        assert(a =~= b);
    }
}

/// The order of rows is strict: no row belongs before itself, and the
/// order is transitive.
pub proof fn lemma_ranks_before_strict(
    a: (Seq<char>, usize),
    b: (Seq<char>, usize),
    c: (Seq<char>, usize),
)
    ensures
        !ranks_before(a, a),
        ranks_before(a, b) && ranks_before(b, c) ==> ranks_before(a, c),
{
    lemma_text_before_irreflexive(a.0);
    if ranks_before(a, b) && ranks_before(b, c) && a.1 == b.1 && b.1 == c.1 {
        lemma_text_before_transitive(a.0, b.0, c.0);
    }
}

/// Whether the row `a` belongs strictly before the row `b`.
pub fn ranks_first(a: &(String, usize), b: &(String, usize)) -> (first: bool)
    ensures
        first == ranks_before(row_view(*a), row_view(*b)),
{
    a.1 > b.1 || (a.1 == b.1 && comes_before(a.0.as_str(), b.0.as_str()))
}

/// Puts `rows` in summary order: highest count first, equal counts by name.
pub fn sort_summary(rows: Vec<(String, usize)>) -> (sorted: Vec<(String, usize)>)
    ensures
        in_summary_order(rows_view(sorted@)),
        rows_view(sorted@).to_multiset() == rows_view(rows@).to_multiset(),
{
    let mut pending = rows;
    let mut sorted: Vec<(String, usize)> = Vec::new();
    let ghost mut done: Seq<(Seq<char>, usize)> = Seq::empty();
    assert(rows_view(sorted@) =~= done);
    assert(rows_view(rows@) =~= rows_view(pending@) + done);
    while pending.len() > 0
        invariant
            in_summary_order(rows_view(sorted@)),
            rows_view(sorted@).to_multiset() == done.to_multiset(),
            rows_view(rows@) == rows_view(pending@) + done,
        decreases pending.len(),
    {
        let ghost before = pending@;
        let ghost placed = rows_view(sorted@);
        let row = pending.pop().unwrap();
        let mut at: usize = 0;
        while at < sorted.len() && !ranks_first(&row, &sorted[at])
            invariant
                at <= sorted.len(),
                placed == rows_view(sorted@),
                forall|k: int| 0 <= k < at ==> !ranks_before(row_view(row), placed[k]),
            decreases sorted.len() - at,
        {
            at = at + 1;
        }
        sorted.insert(at, row);
        proof {
            let fresh = row_view(row);
            let now = rows_view(sorted@);
            assert(now =~= placed.insert(at as int, fresh));
            assert(rows_view(before) =~= rows_view(pending@).push(fresh));
            assert forall|i: int, j: int| 0 <= i < j < now.len() implies !ranks_before(
                now[j],
                now[i],
            ) by {
                if j == at {
                } else if i == at {
                    lemma_ranks_before_strict(now[j], fresh, placed[at as int]);
                    lemma_ranks_before_strict(fresh, placed[at as int], fresh);
                    if j - 1 > at {
                        assert(!ranks_before(placed[j - 1], placed[at as int]));
                    }
                } else {
                    let pi = if i < at { i } else { i - 1 };
                    let pj = if j < at { j } else { j - 1 };
                    assert(!ranks_before(placed[pj], placed[pi]));
                }
            }
            assert(rows_view(pending@) + done.insert(0, fresh) =~= rows_view(before) + done);
            done = done.insert(0, fresh);
        }
    }
    assert(rows_view(pending@) + done =~= done);
    sorted
}

/// Appending one row to a summary appends its text.
pub proof fn lemma_summary_text_push(rows: Seq<(Seq<char>, usize)>, row: (Seq<char>, usize))
    ensures
        summary_text(rows.push(row)) == summary_text(rows) + row.0 + seq!['('] + decimal(
            row.1 as nat,
        ) + seq![')', ' '],
{
    assert(rows.push(row).drop_last() =~= rows);
}

/// Renders `rows` as one line: for every row its name, its count in
/// parentheses, and a space.
pub fn render_summary(rows: &Vec<(String, usize)>) -> (line: String)
    ensures
        line@ == summary_text(rows_view(rows@)),
{
    let ghost views = rows_view(rows@);
    let mut line = String::new();
    let mut i: usize = 0;
    while i < rows.len()
        invariant
            i <= rows.len(),
            views == rows_view(rows@),
            line@ == summary_text(views.take(i as int)),
        decreases rows.len() - i,
    {
        proof {
            lemma_summary_text_push(views.take(i as int), views[i as int]);
            assert(views.take(i as int).push(views[i as int]) =~= views.take(i as int + 1));
            reveal_strlit("(");
            reveal_strlit(") ");
            assert("("@ =~= seq!['(']);
            assert(") "@ =~= seq![')', ' ']);
        }
        line.append(rows[i].0.as_str());
        line.append("(");
        push_decimal(&mut line, rows[i].1);
        line.append(") ");
        i = i + 1;
    }
    proof {
        assert(views.take(rows.len() as int) =~= views);
    }
    line
}

/// Of two different rows, one belongs before the other.
pub proof fn lemma_ranks_before_total(a: (Seq<char>, usize), b: (Seq<char>, usize))
    ensures
        ranks_before(a, b) || ranks_before(b, a) || a == b,
{
    lemma_text_before_total(a.0, b.0);
}

/// "Does not belong after": the order of the summary with ties allowed.
pub open spec fn ranks_not_after(a: (Seq<char>, usize), b: (Seq<char>, usize)) -> bool {
    !ranks_before(b, a)
}

/// A summary is determined by the rows in it: two sequences in summary order
/// that hold the same rows, each as often as the other, are the same sequence.
pub proof fn law_summary_order_unique(a: Seq<(Seq<char>, usize)>, b: Seq<(Seq<char>, usize)>)
    requires
        in_summary_order(a),
        in_summary_order(b),
        a.to_multiset() == b.to_multiset(),
    ensures
        a == b,
{
    let leq = |x: (Seq<char>, usize), y: (Seq<char>, usize)| ranks_not_after(x, y);
    assert forall|x: (Seq<char>, usize)| #[trigger] leq(x, x) by {
        lemma_ranks_before_strict(x, x, x);
    }
    assert forall|x: (Seq<char>, usize), y: (Seq<char>, usize)| #[trigger]
        leq(x, y) && #[trigger] leq(y, x) implies x == y by {
        lemma_ranks_before_total(x, y);
    }
    assert forall|x: (Seq<char>, usize), y: (Seq<char>, usize), z: (Seq<char>, usize)| #[trigger]
        leq(x, y) && #[trigger] leq(y, z) implies leq(x, z) by {
        lemma_ranks_before_total(x, y);
        lemma_ranks_before_strict(z, x, y);
    }
    assert forall|x: (Seq<char>, usize), y: (Seq<char>, usize)| #[trigger]
        leq(x, y) || #[trigger] leq(y, x) by {
        lemma_ranks_before_strict(x, y, x);
    }
    assert(vstd::relations::total_ordering(leq));
    assert(vstd::relations::sorted_by(a, leq));
    assert(vstd::relations::sorted_by(b, leq));
    vstd::seq_lib::lemma_sorted_unique(a, b, leq);
}

/// The room names of the rows, in the order of the rows.
pub open spec fn names_of(rows: Seq<(Seq<char>, usize)>) -> Seq<Seq<char>> {
    rows.map_values(|row: (Seq<char>, usize)| row.0)
}

/// Whether `rows` is a summary of exactly the rooms in `rooms`: one row for
/// each of them, in summary order.
pub open spec fn summarizes(rows: Seq<(Seq<char>, usize)>, rooms: Set<Seq<char>>) -> bool {
    &&& in_summary_order(rows)
    &&& names_of(rows).no_duplicates()
    &&& names_of(rows).to_set() == rooms
}

/// Rows that hold each of `count` distinct names, and as many rows as that,
/// hold every name once.
pub proof fn lemma_same_rows_same_rooms(
    rows: Seq<(Seq<char>, usize)>,
    sorted: Seq<(Seq<char>, usize)>,
)
    requires
        names_of(rows).no_duplicates(),
        sorted.to_multiset() == rows.to_multiset(),
    ensures
        names_of(sorted).no_duplicates(),
        names_of(sorted).to_set() == names_of(rows).to_set(),
{
    broadcast use {vstd::seq_lib::to_multiset_len, vstd::seq_lib::to_multiset_contains};

    assert(sorted.len() == rows.len()) by {
        assert(sorted.len() == sorted.to_multiset().len());
        assert(rows.len() == rows.to_multiset().len());
    }
    assert forall|name: Seq<char>| names_of(sorted).to_set().contains(name) implies names_of(
        rows,
    ).to_set().contains(name) by {
        let i = names_of(sorted).index_of(name);
        assert(sorted.contains(sorted[i]));
        assert(rows.to_multiset().count(sorted[i]) > 0);
        let k = rows.index_of(sorted[i]);
        assert(names_of(rows)[k] == name);
    }
    assert forall|name: Seq<char>| names_of(rows).to_set().contains(name) implies names_of(
        sorted,
    ).to_set().contains(name) by {
        let i = names_of(rows).index_of(name);
        assert(rows.contains(rows[i]));
        assert(sorted.to_multiset().count(rows[i]) > 0);
        let k = sorted.index_of(rows[i]);
        assert(names_of(sorted)[k] == name);
    }
    assert(names_of(sorted).to_set() =~= names_of(rows).to_set());
    names_of(rows).unique_seq_to_set();
    names_of(sorted).lemma_no_dup_set_cardinality();
}

} // verus!
