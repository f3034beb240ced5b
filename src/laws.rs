use vstd::prelude::*;
use crate::table::{column_of, CellView, TableView};
use crate::sync::{
    apply_mapping, apply_mappings, changes_upto, joined_row, mapping_changes, matching_row,
    overwrites, row_changes, row_from, synced_row, synced_rows, total_changes,
};

verus! {

/// The mappings write to distinct target columns, none of them the key
/// column `tk`.
pub open spec fn targets_apart(
    th: Seq<Seq<char>>,
    tk: int,
    ms: Seq<(Seq<char>, Seq<char>)>,
) -> bool {
    &&& forall|k: int| 0 <= k < ms.len() ==> column_of(th, #[trigger] ms[k].0) != Some(tk)
    &&& forall|k: int, l: int|
        0 <= k < l < ms.len() ==> #[trigger] ms[k].0 != #[trigger] ms[l].0
}

proof fn lemma_apply_mappings_shape(
    row: Seq<CellView>,
    src: Seq<CellView>,
    th: Seq<Seq<char>>,
    sh: Seq<Seq<char>>,
    ms: Seq<(Seq<char>, Seq<char>)>,
)
    ensures
        apply_mappings(row, src, th, sh, ms).len() == row.len(),
    decreases ms.len(),
{
    if ms.len() > 0 {
        lemma_apply_mappings_shape(row, src, th, sh, ms.drop_last());
    }
}

/// After the mappings are applied, none of them would overwrite a cell
/// again, and the key cell is as it was.
proof fn lemma_applied_settles(
    row: Seq<CellView>,
    src: Seq<CellView>,
    th: Seq<Seq<char>>,
    sh: Seq<Seq<char>>,
    tk: int,
    ms: Seq<(Seq<char>, Seq<char>)>,
)
    requires
        targets_apart(th, tk, ms),
        0 <= tk < row.len(),
    ensures
        ({
            let r1 = apply_mappings(row, src, th, sh, ms);
            &&& r1.len() == row.len()
            &&& r1[tk] == row[tk]
            &&& forall|k: int|
                0 <= k < ms.len() ==> !overwrites(
                    r1,
                    src,
                    column_of(th, #[trigger] ms[k].0),
                    column_of(sh, ms[k].1),
                )
        }),
    decreases ms.len(),
{
    if ms.len() > 0 {
        let init = ms.drop_last();
        assert(targets_apart(th, tk, init)) by {
            assert forall|k: int| 0 <= k < init.len() implies column_of(th, #[trigger] init[k].0)
                != Some(tk) by {
                assert(init[k] == ms[k]);
            }
            assert forall|k: int, l: int| 0 <= k < l < init.len() implies #[trigger] init[k].0
                != #[trigger] init[l].0 by {
                assert(init[k] == ms[k] && init[l] == ms[l]);
            }
        }
        lemma_applied_settles(row, src, th, sh, tk, init);
        lemma_apply_mappings_shape(row, src, th, sh, init);
        let prev = apply_mappings(row, src, th, sh, init);
        let n = ms.len() - 1;
        let ti = column_of(th, ms[n].0);
        let si = column_of(sh, ms[n].1);
        let r1 = apply_mappings(row, src, th, sh, ms);
        assert(r1 == apply_mapping(prev, src, ti, si));
        assert(ti != Some(tk));
        assert forall|k: int| 0 <= k < ms.len() implies !overwrites(
            r1,
            src,
            column_of(th, #[trigger] ms[k].0),
            column_of(sh, ms[k].1),
        ) by {
            if k < n {
                assert(init[k] == ms[k]);
                assert(ms[k].0 != ms[n].0);
                let tk2 = column_of(th, ms[k].0);
                if tk2 is Some && ti is Some {
                    crate::table::lemma_index_from_found(th, ms[k].0, 0);
                    crate::table::lemma_index_from_found(th, ms[n].0, 0);
                }
            }
        }
    }
}

/// Where no mapping would overwrite a cell, applying them changes nothing
/// and logs nothing.
proof fn lemma_settled_is_fixed(
    row: Seq<CellView>,
    src: Seq<CellView>,
    th: Seq<Seq<char>>,
    sh: Seq<Seq<char>>,
    ms: Seq<(Seq<char>, Seq<char>)>,
)
    requires
        forall|k: int|
            0 <= k < ms.len() ==> !overwrites(
                row,
                src,
                column_of(th, #[trigger] ms[k].0),
                column_of(sh, ms[k].1),
            ),
    ensures
        apply_mappings(row, src, th, sh, ms) == row,
        mapping_changes(row, src, th, sh, ms) == 0,
    decreases ms.len(),
{
    if ms.len() > 0 {
        let init = ms.drop_last();
        assert forall|k: int| 0 <= k < init.len() implies !overwrites(
            row,
            src,
            column_of(th, #[trigger] init[k].0),
            column_of(sh, init[k].1),
        ) by {
            assert(init[k] == ms[k]);
        }
        lemma_settled_is_fixed(row, src, th, sh, init);
        assert(!overwrites(
            row,
            src,
            column_of(th, ms[ms.len() - 1].0),
            column_of(sh, ms[ms.len() - 1].1),
        ));
    }
}

/// Synchronisation keeps the shape of the target: as many rows, and each
/// row with as many cells, as before.
pub proof fn lemma_sync_keeps_shape(
    t: TableView,
    s: TableView,
    tk: int,
    sk: int,
    ms: Seq<(Seq<char>, Seq<char>)>,
)
    ensures
        synced_rows(t, s, tk, sk, ms).len() == t.rows.len(),
        forall|i: int|
            0 <= i < t.rows.len() ==> (#[trigger] synced_rows(t, s, tk, sk, ms)[i]).len()
                == t.rows[i].len(),
{
    assert forall|i: int| 0 <= i < t.rows.len() implies (#[trigger] synced_rows(
        t,
        s,
        tk,
        sk,
        ms,
    )[i]).len() == t.rows[i].len() by {
        match joined_row(t.rows[i], s, tk, sk) {
            Some(j) => lemma_apply_mappings_shape(t.rows[i], s.rows[j], t.headers, s.headers, ms),
            None => {},
        }
    }
}

/// A second synchronisation with the same source and mappings overwrites
/// nothing, where the mappings write to distinct target columns other than
/// the key column.
pub proof fn lemma_sync_idempotent(
    t: TableView,
    s: TableView,
    tk: int,
    sk: int,
    ms: Seq<(Seq<char>, Seq<char>)>,
)
    requires
        targets_apart(t.headers, tk, ms),
    ensures
        ({
            let t2 = TableView { headers: t.headers, rows: synced_rows(t, s, tk, sk, ms) };
            &&& total_changes(t2, s, tk, sk, ms) == 0
            &&& synced_rows(t2, s, tk, sk, ms) == t2.rows
        }),
{
    let t2 = TableView { headers: t.headers, rows: synced_rows(t, s, tk, sk, ms) };
    assert forall|i: int| 0 <= i < t2.rows.len() implies {
        &&& row_changes(#[trigger] t2.rows[i], t2.headers, s, tk, sk, ms) == 0
        &&& synced_row(t2.rows[i], t2.headers, s, tk, sk, ms) == t2.rows[i]
    } by {
        let row = t.rows[i];
        match joined_row(row, s, tk, sk) {
            Some(j) => {
                lemma_applied_settles(row, s.rows[j], t.headers, s.headers, tk, ms);
                let r1 = apply_mappings(row, s.rows[j], t.headers, s.headers, ms);
                assert(joined_row(r1, s, tk, sk) == Some(j));
                lemma_settled_is_fixed(r1, s.rows[j], t.headers, s.headers, ms);
            },
            None => {},
        }
    }
    lemma_changes_upto_zero(t2, s, tk, sk, ms, t2.rows.len() as int);
    assert(synced_rows(t2, s, tk, sk, ms) =~= t2.rows);
}

proof fn lemma_changes_upto_zero(
    t: TableView,
    s: TableView,
    tk: int,
    sk: int,
    ms: Seq<(Seq<char>, Seq<char>)>,
    n: int,
)
    requires
        n <= t.rows.len(),
        forall|i: int|
            0 <= i < t.rows.len() ==> row_changes(#[trigger] t.rows[i], t.headers, s, tk, sk, ms)
                == 0,
    ensures
        changes_upto(t, s, tk, sk, ms, n) == 0,
    decreases n,
{
    if n > 0 {
        lemma_changes_upto_zero(t, s, tk, sk, ms, n - 1);
    }
}

proof fn lemma_row_from_first(rows: Seq<Seq<CellView>>, col: int, key: Seq<char>, k: int)
    requires
        row_from(rows, col, key, k) is Some,
    ensures
        ({
            let j = row_from(rows, col, key, k)->0;
            &&& k <= j < rows.len()
            &&& 0 <= col < rows[j].len() && rows[j][col].text == key
            &&& forall|m: int|
                k <= m < j ==> !(0 <= col < rows[m].len() && #[trigger] rows[m][col].text == key)
        }),
    decreases rows.len() + 1 - k,
{
    if k < 0 || k >= rows.len() {
    } else if 0 <= col < rows[k].len() && rows[k][col].text == key {
    } else {
        lemma_row_from_first(rows, col, key, k + 1);
    }
}

/// A target row is joined to the first source row, in document order, whose
/// key cell holds its key: every earlier source row has another key or no
/// key cell, whatever the later rows hold.
pub proof fn lemma_first_key_wins(rows: Seq<Seq<CellView>>, col: int, key: Seq<char>)
    requires
        matching_row(rows, col, key) is Some,
    ensures
        ({
            let j = matching_row(rows, col, key)->0;
            &&& 0 <= j < rows.len()
            &&& rows[j][col].text == key
            &&& forall|m: int|
                0 <= m < j ==> !(0 <= col < rows[m].len() && #[trigger] rows[m][col].text == key)
        }),
{
    lemma_row_from_first(rows, col, key, 0);
}

} // verus!
