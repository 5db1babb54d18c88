//! The order of table rows: how two rows compare for a sort column, the
//! stable insertion order that results, and the proofs that it is a sorted,
//! stable rearrangement of the rows.

use vstd::prelude::*;
use vstd::seq_lib::*;
use crate::table::RowData;
use crate::text::{lemma_lex_order_antisym, lemma_lex_order_trans, lex_order};

verus! {

/// -1, 0 or 1 as `x` is below, equal to or above `y`.
pub open spec fn int_order(x: int, y: int) -> int {
    if x < y {
        -1
    } else if x > y {
        1
    } else {
        0
    }
}

/// How row `a` compares with row `b` when the table is sorted by the column
/// at index `col` of the column keys: -1 when `a` comes first, 1 when `b` does,
/// 0 when they tie. Descriptions, volumes, day changes and (for every other
/// column) asset names order from high to low; values and prices from low to high.
pub open spec fn column_order(col: int, a: RowData, b: RowData) -> int {
    if col == 3 {
        lex_order(b.desc@, a.desc@)
    } else if col == 4 {
        int_order(a.value.hundredths as int, b.value.hundredths as int)
    } else if col == 5 {
        int_order(a.price.hundredths as int, b.price.hundredths as int)
    } else if col == 7 {
        int_order(b.day_vol.hundredths as int, a.day_vol.hundredths as int)
    } else if col == 8 {
        int_order(b.day_change.hundredths as int, a.day_change.hundredths as int)
    } else {
        lex_order(b.currency@, a.currency@)
    }
}

/// Where a stable insertion puts `x` into `s`: before the first row that `x` comes strictly before.
pub open spec fn insert_pos(col: int, s: Seq<RowData>, x: RowData) -> int
    decreases s.len(),
{
    if s.len() == 0 {
        0
    } else if column_order(col, x, s[0]) < 0 {
        0
    } else {
        1 + insert_pos(col, s.drop_first(), x)
    }
}

/// The rows of `s` in the order of column `col`, rows that tie keeping their order in `s`.
pub open spec fn sorted_by(col: int, s: Seq<RowData>) -> Seq<RowData>
    decreases s.len(),
{
    if s.len() == 0 {
        Seq::empty()
    } else {
        let r = sorted_by(col, s.drop_last());
        r.insert(insert_pos(col, r, s.last()), s.last())
    }
}

/// No row of `s` comes after a row that it should come before.
pub open spec fn is_sorted(col: int, s: Seq<RowData>) -> bool {
    forall|i: int, j: int| 0 <= i < j < s.len() ==> column_order(col, #[trigger] s[i], #[trigger] s[j]) <= 0
}

/// The rows that tie with `y` in column `col`.
pub open spec fn ties_with(col: int, y: RowData) -> spec_fn(RowData) -> bool {
    |z: RowData| column_order(col, z, y) == 0
}

/// Comparing the other way round gives the opposite answer.
pub proof fn lemma_column_order_antisym(col: int, a: RowData, b: RowData)
    ensures
        column_order(col, a, b) == -column_order(col, b, a),
        -1 <= column_order(col, a, b) <= 1,
{
    lemma_lex_order_antisym(a.desc@, b.desc@);
    lemma_lex_order_antisym(a.currency@, b.currency@);
}

/// The row order is transitive, strictly so when one step is strict.
pub proof fn lemma_column_order_trans(col: int, a: RowData, b: RowData, c: RowData)
    requires
        column_order(col, a, b) <= 0,
        column_order(col, b, c) <= 0,
    ensures
        column_order(col, a, c) <= 0,
        (column_order(col, a, b) < 0 || column_order(col, b, c) < 0) ==> column_order(col, a, c) < 0,
{
    if col == 3 {
        lemma_lex_order_trans(c.desc@, b.desc@, a.desc@);
    } else if col == 4 || col == 5 || col == 7 || col == 8 {
    } else {
        lemma_lex_order_trans(c.currency@, b.currency@, a.currency@);
    }
}

/// The insertion place splits a sorted sequence into the rows `x` does not
/// come before and the rows it comes strictly before.
pub proof fn lemma_insert_pos(col: int, s: Seq<RowData>, x: RowData)
    requires
        is_sorted(col, s),
    ensures
        0 <= insert_pos(col, s, x) <= s.len(),
        forall|j: int| 0 <= j < insert_pos(col, s, x) ==> column_order(col, x, #[trigger] s[j]) >= 0,
        forall|j: int| insert_pos(col, s, x) <= j < s.len() ==> column_order(col, x, #[trigger] s[j]) < 0,
    decreases s.len(),
{
    if s.len() == 0 {
    } else if column_order(col, x, s[0]) < 0 {
        assert forall|j: int| 0 <= j < s.len() implies column_order(col, x, #[trigger] s[j]) < 0 by {
            if j > 0 {
                assert(column_order(col, s[0], s[j]) <= 0);
                lemma_column_order_trans(col, x, s[0], s[j]);
            }
        }
    } else {
        let t = s.drop_first();
        assert(is_sorted(col, t)) by {
            assert forall|i: int, j: int| 0 <= i < j < t.len() implies column_order(col, #[trigger] t[i], #[trigger] t[j]) <= 0 by {
                assert(t[i] == s[i + 1] && t[j] == s[j + 1]);
            }
        }
        lemma_insert_pos(col, t, x);
        let p = insert_pos(col, s, x);
        assert forall|j: int| 0 <= j < p implies column_order(col, x, #[trigger] s[j]) >= 0 by {
            if j > 0 {
                assert(s[j] == t[j - 1]);
            }
        }
        assert forall|j: int| p <= j < s.len() implies column_order(col, x, #[trigger] s[j]) < 0 by {
            assert(s[j] == t[j - 1]);
        }
    }
}

/// Sorting keeps every row exactly as often as it occurs, and the result is sorted.
pub proof fn lemma_sorted_by(col: int, s: Seq<RowData>)
    ensures
        is_sorted(col, sorted_by(col, s)),
        sorted_by(col, s).len() == s.len(),
        sorted_by(col, s).to_multiset() =~= s.to_multiset(),
    decreases s.len(),
{
    if s.len() == 0 {
        assert(s =~= sorted_by(col, s));
    } else {
        let t = s.drop_last();
        let x = s.last();
        lemma_sorted_by(col, t);
        let r = sorted_by(col, t);
        let p = insert_pos(col, r, x);
        lemma_insert_pos(col, r, x);
        let out = r.insert(p, x);
        r.insert_ensures(p, x);
        to_multiset_insert(r, p, x);
        assert(s =~= t.push(x));
        to_multiset_build(t, x);
        assert forall|i: int, j: int| 0 <= i < j < out.len() implies column_order(col, #[trigger] out[i], #[trigger] out[j]) <= 0 by {
            if j < p {
                assert(out[i] == r[i] && out[j] == r[j]);
            } else if j == p {
                assert(out[i] == r[i]);
                lemma_column_order_antisym(col, x, r[i]);
            } else if i > p {
                assert(out[i] == r[i - 1] && out[j] == r[j - 1]);
            } else if i == p {
                assert(out[j] == r[j - 1]);
            } else {
                assert(out[i] == r[i] && out[j] == r[j - 1]);
            }
        }
    }
}

/// Rows that tie keep their order: for every row `y`, the rows tying with it
/// come out in the order they came in.
pub proof fn lemma_sorted_by_stable(col: int, s: Seq<RowData>, y: RowData)
    ensures
        sorted_by(col, s).filter(ties_with(col, y)) == s.filter(ties_with(col, y)),
    decreases s.len(),
{
    broadcast use Seq::filter_distributes_over_add, Seq::lemma_filter_push;

    let f = ties_with(col, y);
    if s.len() == 0 {
        assert(sorted_by(col, s) =~= s);
    } else {
        let t = s.drop_last();
        let x = s.last();
        lemma_sorted_by_stable(col, t, y);
        lemma_sorted_by(col, t);
        let r = sorted_by(col, t);
        let p = insert_pos(col, r, x);
        lemma_insert_pos(col, r, x);
        let a = r.subrange(0, p);
        let b = r.subrange(p, r.len() as int);
        assert(r =~= a + b);
        assert(r.insert(p, x) == a.push(x) + b);
        assert(s =~= t.push(x));
        assert(r.filter(f) == a.filter(f) + b.filter(f));
        if f(x) {
            assert(b.all(|z: RowData| !f(z))) by {
                assert forall|k: int| 0 <= k < b.len() implies !f(#[trigger] b[k]) by {
                    let z = b[k];
                    assert(z == r[p + k]);
                    assert(column_order(col, x, z) < 0);
                    if column_order(col, z, y) == 0 {
                        lemma_column_order_antisym(col, x, y);
                        lemma_column_order_trans(col, z, y, x);
                        lemma_column_order_antisym(col, z, x);
                    }
                }
            }
            b.lemma_all_neg_filter_empty(f);
            assert(b.filter(f) =~= Seq::<RowData>::empty());
            assert(a.filter(f).push(x) + b.filter(f) =~= (a.filter(f) + b.filter(f)).push(x));
        }
    }
}

} // verus!
