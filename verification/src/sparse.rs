//! The sparse weight storage of one column, and its flattening into the
//! compressed sparse-column (CSC) entry stream.
//!
//! A column's nonzero constraint coefficients form an ordered map from row
//! index to weight. It is stored as a vector of entries kept in strictly
//! ascending row order with no zero weights, so the structurally-nonzero set
//! equals the stored-entry set and iteration yields ascending row order, as
//! CSC assembly requires.

use vstd::prelude::*;

use crate::scalar::Scalar;

verus! {

/// One stored nonzero of a column: a row index and its weight.
#[derive(Copy, Clone, Debug)]
pub struct Entry {
    pub row: u32,
    pub weight: Scalar,
}

/// The rows of `s` strictly increase, so each row appears at most once and
/// front-to-back order is ascending row order.
pub open spec fn entries_sorted(s: Seq<Entry>) -> bool {
    forall|i: int, j: int| #![trigger s[i], s[j]] 0 <= i < j < s.len() ==> s[i].row < s[j].row
}

/// Every stored weight is numerically nonzero (canonical sparsity).
pub open spec fn entries_nonzero(s: Seq<Entry>) -> bool {
    forall|i: int| 0 <= i < s.len() ==> !(#[trigger] s[i]).weight.spec_is_zero()
}

/// Every stored row index lies below `rows`.
pub open spec fn entries_bounded(s: Seq<Entry>, rows: int) -> bool {
    forall|i: int| 0 <= i < s.len() ==> (#[trigger] s[i]).row < rows
}

/// A well-formed column: sorted, canonically sparse, rows within the model.
pub open spec fn entries_wf(s: Seq<Entry>, rows: int) -> bool {
    entries_sorted(s) && entries_nonzero(s) && entries_bounded(s, rows)
}

/// The weight stored for `row`, reading entries front to back.
pub open spec fn weight_of(s: Seq<Entry>, row: u32) -> Option<Scalar>
    decreases s.len(),
{
    if s.len() == 0 {
        None
    } else if s[0].row == row {
        Some(s[0].weight)
    } else {
        weight_of(s.drop_first(), row)
    }
}

/// The entries after giving `row` the weight `w`: a zero weight removes any
/// binding for `row`, a nonzero weight inserts or overwrites it at its place
/// in ascending row order.
pub open spec fn set_entry(s: Seq<Entry>, row: u32, w: Scalar) -> Seq<Entry>
    decreases s.len(),
{
    if s.len() == 0 {
        if w.spec_is_zero() {
            s
        } else {
            seq![Entry { row, weight: w }]
        }
    } else if s[0].row < row {
        seq![s[0]] + set_entry(s.drop_first(), row, w)
    } else if s[0].row == row {
        if w.spec_is_zero() {
            s.drop_first()
        } else {
            seq![Entry { row, weight: w }] + s.drop_first()
        }
    } else {
        if w.spec_is_zero() {
            s
        } else {
            seq![Entry { row, weight: w }] + s
        }
    }
}

/// Rebuilds a column's entry vector with `row` set to `weight`.
pub(crate) fn update_entries(entries: &Vec<Entry>, row: u32, weight: Scalar) -> (out: Vec<Entry>)
    ensures
        out@ == set_entry(entries@, row, weight),
{
    let ghost s = entries@;
    let n = entries.len();
    let mut out: Vec<Entry> = Vec::new();
    let mut i: usize = 0;
    proof {
        assert(s.skip(0) =~= s);
        assert(Seq::<Entry>::empty() + set_entry(s, row, weight) =~= set_entry(s, row, weight));
    }
    while i < n && entries[i].row < row
        invariant
            i <= n,
            n == s.len(),
            entries@ == s,
            set_entry(s, row, weight) == out@ + set_entry(s.skip(i as int), row, weight),
        decreases n - i,
    {
        proof {
            assert(s.skip(i as int)[0] == s[i as int]);
            assert(s.skip(i as int).drop_first() =~= s.skip(i as int + 1));
            assert(out@ + set_entry(s.skip(i as int), row, weight) == out@ + (seq![s[i as int]]
                + set_entry(s.skip(i as int + 1), row, weight)));
            assert(out@ + (seq![s[i as int]] + set_entry(s.skip(i as int + 1), row, weight))
                =~= out@.push(s[i as int]) + set_entry(s.skip(i as int + 1), row, weight));
        }
        out.push(entries[i]);
        i += 1;
    }
    if i < n && entries[i].row == row {
        proof {
            assert(s.skip(i as int)[0] == s[i as int]);
            assert(s.skip(i as int).drop_first() =~= s.skip(i as int + 1));
            if weight.spec_is_zero() {
                assert(set_entry(s.skip(i as int), row, weight) == s.skip(i as int + 1));
            } else {
                assert(set_entry(s.skip(i as int), row, weight) == seq![
                    Entry { row, weight },
                ] + s.skip(i as int + 1));
            }
        }
        i += 1;
    } else {
        proof {
            if i < n {
                assert(s.skip(i as int)[0] == s[i as int]);
                assert(s[i as int].row > row);
            } else {
                assert(s.skip(i as int) =~= Seq::<Entry>::empty());
            }
            if !weight.spec_is_zero() {
                assert(set_entry(s.skip(i as int), row, weight) =~= seq![
                    Entry { row, weight },
                ] + s.skip(i as int));
            } else {
                assert(set_entry(s.skip(i as int), row, weight) =~= s.skip(i as int));
            }
        }
    }
    if !weight.is_zero() {
        proof {
            assert(out@ + (seq![Entry { row, weight }] + s.skip(i as int)) =~= out@.push(
                Entry { row, weight },
            ) + s.skip(i as int));
        }
        out.push(Entry { row, weight });
    } else {
        proof {
            assert(out@ + (Seq::<Entry>::empty() + s.skip(i as int)) =~= out@ + s.skip(i as int));
        }
    }
    while i < n
        invariant
            i <= n,
            n == s.len(),
            entries@ == s,
            set_entry(s, row, weight) == out@ + s.skip(i as int),
        decreases n - i,
    {
        proof {
            assert(s.skip(i as int) =~= seq![s[i as int]] + s.skip(i as int + 1));
            assert(out@ + (seq![s[i as int]] + s.skip(i as int + 1)) =~= out@.push(s[i as int])
                + s.skip(i as int + 1));
        }
        out.push(entries[i]);
        i += 1;
    }
    proof {
        assert(s.skip(n as int) =~= Seq::<Entry>::empty());
        assert(out@ + Seq::<Entry>::empty() =~= out@);
    }
    out
}

/// Dropping the first entry keeps a column well formed.
pub proof fn lemma_drop_first_wf(s: Seq<Entry>, rows: int)
    requires
        s.len() > 0,
        entries_wf(s, rows),
    ensures
        entries_wf(s.drop_first(), rows),
{
    assert forall|i: int| 0 <= i < s.drop_first().len() implies (#[trigger] s.drop_first()[i]).row
        < rows && !s.drop_first()[i].weight.spec_is_zero() by {
        assert(s.drop_first()[i] == s[i + 1]);
    }
    assert forall|i: int, j: int| #![trigger s.drop_first()[i], s.drop_first()[j]] 0 <= i < j
        < s.drop_first().len() implies s.drop_first()[i].row < s.drop_first()[j].row by {
        assert(s.drop_first()[i] == s[i + 1]);
        assert(s.drop_first()[j] == s[j + 1]);
    }
}

/// Dropping the first entry keeps a column sorted.
pub proof fn lemma_drop_first_sorted(s: Seq<Entry>)
    requires
        s.len() > 0,
        entries_sorted(s),
    ensures
        entries_sorted(s.drop_first()),
{
    assert forall|i: int, j: int| #![trigger s.drop_first()[i], s.drop_first()[j]] 0 <= i < j
        < s.drop_first().len() implies s.drop_first()[i].row < s.drop_first()[j].row by {
        assert(s.drop_first()[i] == s[i + 1]);
        assert(s.drop_first()[j] == s[j + 1]);
    }
}

/// A column without an entry for `row` stores no weight for it.
pub proof fn lemma_weight_of_absent(s: Seq<Entry>, row: u32)
    requires
        forall|i: int| 0 <= i < s.len() ==> (#[trigger] s[i]).row != row,
    ensures
        weight_of(s, row) == None::<Scalar>,
    decreases s.len(),
{
    if s.len() > 0 {
        assert forall|i: int| 0 <= i < s.drop_first().len() implies (#[trigger] s.drop_first()[
            i
        ]).row != row by {
            assert(s.drop_first()[i] == s[i + 1]);
        }
        lemma_weight_of_absent(s.drop_first(), row);
    }
}

/// Reading a lookup off the front of a column.
pub proof fn lemma_weight_of_cons(e: Entry, t: Seq<Entry>, q: u32)
    ensures
        weight_of(seq![e] + t, q) == (if e.row == q {
            Some(e.weight)
        } else {
            weight_of(t, q)
        }),
{
    let s = seq![e] + t;
    assert(s[0] == e);
    assert(s.drop_first() =~= t);
}

/// `set_entry` keeps a column well formed, and introduces no row but the one
/// written.
pub proof fn lemma_set_entry_wf(s: Seq<Entry>, row: u32, w: Scalar, rows: int)
    requires
        entries_wf(s, rows),
        (row as int) < rows,
    ensures
        entries_wf(set_entry(s, row, w), rows),
        forall|i: int| 0 <= i < set_entry(s, row, w).len() ==> ((#[trigger] set_entry(s, row, w)[
            i
        ]).row == row || exists|j: int|
            0 <= j < s.len() && s[j] == set_entry(s, row, w)[i]),
    decreases s.len(),
{
    let res = set_entry(s, row, w);
    if s.len() == 0 {
    } else if s[0].row < row {
        lemma_drop_first_wf(s, rows);
        lemma_set_entry_wf(s.drop_first(), row, w, rows);
        let rest = set_entry(s.drop_first(), row, w);
        assert forall|i: int| 0 <= i < res.len() implies (#[trigger] res[i]).row < rows && !res[
            i
        ].weight.spec_is_zero() && (res[i].row == row || exists|j: int|
            0 <= j < s.len() && s[j] == res[i]) by {
            if i == 0 {
                assert(res[0] == s[0]);
                assert(s[0] == s[0]);
            } else {
                assert(res[i] == rest[i - 1]);
                if rest[i - 1].row != row {
                    let j = choose|j: int|
                        0 <= j < s.drop_first().len() && s.drop_first()[j] == rest[i - 1];
                    assert(s[j + 1] == rest[i - 1]);
                }
            }
        }
        assert forall|i: int, j: int| #![trigger res[i], res[j]] 0 <= i < j < res.len() implies
            res[i].row < res[j].row by {
            if 0 < i {
                assert(res[i] == rest[i - 1]);
                assert(res[j] == rest[j - 1]);
            } else {
                assert(res[0] == s[0]);
                assert(res[j] == rest[j - 1]);
                if rest[j - 1].row == row {
                } else {
                    let k = choose|k: int|
                        0 <= k < s.drop_first().len() && s.drop_first()[k] == rest[j - 1];
                    assert(s.drop_first()[k] == s[k + 1]);
                }
            }
        }
    } else if s[0].row == row {
        lemma_drop_first_wf(s, rows);
        if w.spec_is_zero() {
            assert forall|i: int| 0 <= i < res.len() implies (#[trigger] res[i]).row == row
                || exists|j: int| 0 <= j < s.len() && s[j] == res[i] by {
                assert(s[i + 1] == res[i]);
            }
        } else {
            assert forall|i: int| 0 <= i < res.len() implies (#[trigger] res[i]).row < rows
                && !res[i].weight.spec_is_zero() && (res[i].row == row || exists|j: int|
                0 <= j < s.len() && s[j] == res[i]) by {
                if i > 0 {
                    assert(res[i] == s.drop_first()[i - 1]);
                    assert(s[i] == res[i]);
                }
            }
            assert forall|i: int, j: int| #![trigger res[i], res[j]] 0 <= i < j < res.len()
                implies res[i].row < res[j].row by {
                assert(res[j] == s.drop_first()[j - 1]);
                assert(s.drop_first()[j - 1] == s[j]);
                if i > 0 {
                    assert(res[i] == s[i]);
                }
            }
        }
    } else {
        if w.spec_is_zero() {
        } else {
            assert forall|i: int| 0 <= i < res.len() implies (#[trigger] res[i]).row < rows
                && !res[i].weight.spec_is_zero() && (res[i].row == row || exists|j: int|
                0 <= j < s.len() && s[j] == res[i]) by {
                if i > 0 {
                    assert(res[i] == s[i - 1]);
                }
            }
            assert forall|i: int, j: int| #![trigger res[i], res[j]] 0 <= i < j < res.len()
                implies res[i].row < res[j].row by {
                assert(res[j] == s[j - 1]);
                if i > 0 {
                    assert(res[i] == s[i - 1]);
                } else {
                    if j - 1 > 0 {
                        assert(s[0].row < s[j - 1].row);
                    }
                }
            }
        }
    }
}

/// Sparsity canonicalization for one column: after `set_entry`, looking up
/// the written row yields exactly the written weight (nothing, when the
/// weight is zero), and every other row reads as before.
pub proof fn lemma_set_entry_lookup(s: Seq<Entry>, row: u32, w: Scalar, q: u32)
    requires
        entries_sorted(s),
    ensures
        weight_of(set_entry(s, row, w), q) == (if q == row {
            if w.spec_is_zero() {
                None
            } else {
                Some(w)
            }
        } else {
            weight_of(s, q)
        }),
    decreases s.len(),
{
    let res = set_entry(s, row, w);
    let m = Entry { row, weight: w };
    if s.len() == 0 {
        if !w.spec_is_zero() {
            assert(seq![m] + Seq::<Entry>::empty() =~= seq![m]);
            lemma_weight_of_cons(m, Seq::empty(), q);
        }
    } else if s[0].row < row {
        lemma_drop_first_sorted(s);
        lemma_set_entry_lookup(s.drop_first(), row, w, q);
        lemma_weight_of_cons(s[0], set_entry(s.drop_first(), row, w), q);
    } else if s[0].row == row {
        lemma_drop_first_sorted(s);
        assert forall|i: int| 0 <= i < s.drop_first().len() implies (#[trigger] s.drop_first()[
            i
        ]).row != row by {
            assert(s.drop_first()[i] == s[i + 1]);
        }
        if w.spec_is_zero() {
            if q == row {
                lemma_weight_of_absent(s.drop_first(), row);
            }
        } else {
            lemma_weight_of_cons(m, s.drop_first(), q);
        }
    } else {
        assert forall|i: int| 0 <= i < s.len() implies (#[trigger] s[i]).row != row by {
            if i > 0 {
                assert(s[0].row < s[i].row);
            }
        }
        if w.spec_is_zero() {
            if q == row {
                lemma_weight_of_absent(s, row);
            }
        } else {
            lemma_weight_of_cons(m, s, q);
            if q == row {
            } else {
            }
        }
    }
}

/// Setting the same weight twice leaves the entries exactly as setting it
/// once does.
pub proof fn lemma_set_entry_idempotent(s: Seq<Entry>, row: u32, w: Scalar)
    requires
        entries_sorted(s),
    ensures
        set_entry(set_entry(s, row, w), row, w) == set_entry(s, row, w),
    decreases s.len(),
{
    let res = set_entry(s, row, w);
    let m = Entry { row, weight: w };
    if s.len() == 0 {
        if !w.spec_is_zero() {
            assert(res[0] == m);
            assert(seq![m] + res.drop_first() =~= res);
        }
    } else if s[0].row < row {
        lemma_drop_first_sorted(s);
        lemma_set_entry_idempotent(s.drop_first(), row, w);
        assert(res[0] == s[0]);
        assert(res.drop_first() =~= set_entry(s.drop_first(), row, w));
        assert(set_entry(res, row, w) == seq![res[0]] + set_entry(res.drop_first(), row, w));
        assert(seq![s[0]] + set_entry(s.drop_first(), row, w) == res);
    } else if s[0].row == row {
        if w.spec_is_zero() {
            if res.len() > 0 {
                assert(res[0] == s[1]);
                assert(s[0].row < s[1].row);
            }
        } else {
            assert(res[0] == m);
            assert(seq![m] + res.drop_first() =~= res);
        }
    } else {
        if w.spec_is_zero() {
        } else {
            assert(res[0] == m);
            assert(seq![m] + res.drop_first() =~= res);
        }
    }
}

/// The concatenation of the first `n` columns' entries, in column order.
pub open spec fn flat_prefix(ws: Seq<Seq<Entry>>, n: int) -> Seq<Entry>
    decreases n,
{
    if n <= 0 {
        Seq::empty()
    } else {
        flat_prefix(ws, n - 1) + ws[n - 1]
    }
}

/// Every column's entries, concatenated in column order: the CSC entry stream.
pub open spec fn flat_entries(ws: Seq<Seq<Entry>>) -> Seq<Entry> {
    flat_prefix(ws, ws.len() as int)
}

/// A shorter flattened prefix is a prefix of a longer one.
pub proof fn lemma_flat_prefix_extends(ws: Seq<Seq<Entry>>, i: int, j: int)
    requires
        0 <= i <= j,
    ensures
        flat_prefix(ws, i).len() <= flat_prefix(ws, j).len(),
        flat_prefix(ws, j).subrange(0, flat_prefix(ws, i).len() as int) == flat_prefix(ws, i),
    decreases j - i,
{
    if j > i {
        lemma_flat_prefix_extends(ws, i, j - 1);
        assert(flat_prefix(ws, j).subrange(0, flat_prefix(ws, i).len() as int) =~= flat_prefix(
            ws,
            j - 1,
        ).subrange(0, flat_prefix(ws, i).len() as int));
    } else {
        assert(flat_prefix(ws, i).subrange(0, flat_prefix(ws, i).len() as int) =~= flat_prefix(
            ws,
            i,
        ));
    }
}

/// CSC correctness for one column: in the flattened entry stream, column
/// `c`'s entries occupy exactly the slice between the cumulative entry counts
/// of columns `c` and `c + 1`, in their stored (ascending-row) order.
pub proof fn lemma_flat_column_slice(ws: Seq<Seq<Entry>>, c: int)
    requires
        0 <= c < ws.len(),
    ensures
        flat_prefix(ws, c).len() <= flat_prefix(ws, c + 1).len() <= flat_entries(ws).len(),
        flat_prefix(ws, c + 1).len() == flat_prefix(ws, c).len() + ws[c].len(),
        flat_entries(ws).subrange(
            flat_prefix(ws, c).len() as int,
            flat_prefix(ws, c + 1).len() as int,
        ) == ws[c],
{
    lemma_flat_prefix_extends(ws, c, c + 1);
    lemma_flat_prefix_extends(ws, c + 1, ws.len() as int);
    let lc = flat_prefix(ws, c).len() as int;
    let lc1 = flat_prefix(ws, c + 1).len() as int;
    let flat = flat_entries(ws);
    assert(flat.subrange(0, lc1) == flat_prefix(ws, c + 1));
    assert(flat_prefix(ws, c + 1) == flat_prefix(ws, c) + ws[c]);
    assert forall|k: int| 0 <= k < lc1 - lc implies flat.subrange(lc, lc1)[k] == ws[c][k] by {
        assert(flat.subrange(lc, lc1)[k] == flat[lc + k]);
        assert(flat[lc + k] == flat.subrange(0, lc1)[lc + k]);
        assert((flat_prefix(ws, c) + ws[c])[lc + k] == ws[c][k]);
    }
    assert(flat.subrange(lc, lc1) =~= ws[c]);
}

} // verus!
