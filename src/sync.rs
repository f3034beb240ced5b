use vstd::prelude::*;
use crate::locate::SyncError;
use crate::table::{column_of, names_view, position, row_view, Cell, CellView, Table, TableView};
use crate::text::{trim_text, trimmed};

verus! {

/// One overwritten cell: where it stands, the key of its row, the column's
/// name, and its inner markup before and after.
#[derive(Debug)]
pub struct Change {
    pub row: usize,
    pub column: usize,
    pub role_key: String,
    pub field_name: String,
    pub old_value: String,
    pub new_value: String,
}

/// The (target column, source column) pairs as character sequences.
pub open spec fn mappings_view(ms: Seq<(String, String)>) -> Seq<(Seq<char>, Seq<char>)> {
    ms.map_values(|m: (String, String)| (m.0@, m.1@))
}

/// The first row at or after `k` whose cell in column `col` has the text `key`.
pub open spec fn row_from(rows: Seq<Seq<CellView>>, col: int, key: Seq<char>, k: int) -> Option<
    int,
>
    decreases rows.len() + 1 - k,
{
    if k < 0 || k >= rows.len() {
        None
    } else if 0 <= col < rows[k].len() && rows[k][col].text == key {
        Some(k)
    } else {
        row_from(rows, col, key, k + 1)
    }
}

/// The first row, in document order, whose key cell in column `col` has the
/// text `key`.
pub open spec fn matching_row(rows: Seq<Seq<CellView>>, col: int, key: Seq<char>) -> Option<int> {
    row_from(rows, col, key, 0)
}

/// Whether a mapping resolved to columns `ti` and `si` overwrites a cell of
/// `row` from `src`: both cells exist and their markup differs once trimmed.
pub open spec fn overwrites(
    row: Seq<CellView>,
    src: Seq<CellView>,
    ti: Option<int>,
    si: Option<int>,
) -> bool {
    &&& ti is Some
    &&& si is Some
    &&& 0 <= ti->0 < row.len()
    &&& 0 <= si->0 < src.len()
    &&& trimmed(row[ti->0].inner) != trimmed(src[si->0].inner)
}

/// `row` after one mapping, resolved to columns `ti` and `si`, is applied.
pub open spec fn apply_mapping(
    row: Seq<CellView>,
    src: Seq<CellView>,
    ti: Option<int>,
    si: Option<int>,
) -> Seq<CellView> {
    if overwrites(row, src, ti, si) {
        row.update(ti->0, src[si->0])
    } else {
        row
    }
}

/// `row` after the mappings `ms` are applied in their order, the target
/// column of each looked up in `th`, its source column in `sh`.
pub open spec fn apply_mappings(
    row: Seq<CellView>,
    src: Seq<CellView>,
    th: Seq<Seq<char>>,
    sh: Seq<Seq<char>>,
    ms: Seq<(Seq<char>, Seq<char>)>,
) -> Seq<CellView>
    decreases ms.len(),
{
    if ms.len() == 0 {
        row
    } else {
        let prev = apply_mappings(row, src, th, sh, ms.drop_last());
        apply_mapping(prev, src, column_of(th, ms.last().0), column_of(sh, ms.last().1))
    }
}

/// How many cells the mappings `ms` overwrite in `row`.
pub open spec fn mapping_changes(
    row: Seq<CellView>,
    src: Seq<CellView>,
    th: Seq<Seq<char>>,
    sh: Seq<Seq<char>>,
    ms: Seq<(Seq<char>, Seq<char>)>,
) -> nat
    decreases ms.len(),
{
    if ms.len() == 0 {
        0
    } else {
        let prev = apply_mappings(row, src, th, sh, ms.drop_last());
        mapping_changes(row, src, th, sh, ms.drop_last()) + if overwrites(
            prev,
            src,
            column_of(th, ms.last().0),
            column_of(sh, ms.last().1),
        ) {
            1nat
        } else {
            0nat
        }
    }
}

/// The source row that target row `row` is joined to, by its key cell in
/// column `tk` and the source's key column `sk`.
pub open spec fn joined_row(row: Seq<CellView>, s: TableView, tk: int, sk: int) -> Option<int> {
    if 0 <= tk < row.len() {
        matching_row(s.rows, sk, row[tk].text)
    } else {
        None
    }
}

/// A target row after synchronisation: unchanged where it has no key cell or
/// no source row has its key, else with the mappings applied.
pub open spec fn synced_row(
    row: Seq<CellView>,
    th: Seq<Seq<char>>,
    s: TableView,
    tk: int,
    sk: int,
    ms: Seq<(Seq<char>, Seq<char>)>,
) -> Seq<CellView> {
    match joined_row(row, s, tk, sk) {
        Some(j) => apply_mappings(row, s.rows[j], th, s.headers, ms),
        None => row,
    }
}

/// How many cells synchronisation overwrites in a target row.
pub open spec fn row_changes(
    row: Seq<CellView>,
    th: Seq<Seq<char>>,
    s: TableView,
    tk: int,
    sk: int,
    ms: Seq<(Seq<char>, Seq<char>)>,
) -> nat {
    match joined_row(row, s, tk, sk) {
        Some(j) => mapping_changes(row, s.rows[j], th, s.headers, ms),
        None => 0,
    }
}

/// The target's rows after synchronisation with `s`.
pub open spec fn synced_rows(
    t: TableView,
    s: TableView,
    tk: int,
    sk: int,
    ms: Seq<(Seq<char>, Seq<char>)>,
) -> Seq<Seq<CellView>> {
    t.rows.map_values(|r: Seq<CellView>| synced_row(r, t.headers, s, tk, sk, ms))
}

/// How many cells synchronisation overwrites in the first `n` target rows.
pub open spec fn changes_upto(
    t: TableView,
    s: TableView,
    tk: int,
    sk: int,
    ms: Seq<(Seq<char>, Seq<char>)>,
    n: int,
) -> nat
    decreases n,
{
    if n <= 0 {
        0
    } else {
        changes_upto(t, s, tk, sk, ms, n - 1) + row_changes(t.rows[n - 1], t.headers, s, tk, sk, ms)
    }
}

/// How many cells synchronisation overwrites in the whole target.
pub open spec fn total_changes(
    t: TableView,
    s: TableView,
    tk: int,
    sk: int,
    ms: Seq<(Seq<char>, Seq<char>)>,
) -> nat {
    changes_upto(t, s, tk, sk, ms, t.rows.len() as int)
}

/// `e` records a mapping of `ms` that overwrote a cell from `src`: its name
/// is the mapping's target column, whose position is `e.column`; its new
/// value is the markup of the mapping's source cell; and the old value
/// differed from it once both are trimmed.
pub open spec fn logged_from(
    e: Change,
    src: Seq<CellView>,
    th: Seq<Seq<char>>,
    sh: Seq<Seq<char>>,
    ms: Seq<(Seq<char>, Seq<char>)>,
) -> bool {
    exists|k: int|
        0 <= k < ms.len() && #[trigger] ms[k].0 == e.field_name@ && column_of(th, ms[k].0) == Some(
            e.column as int,
        ) && column_of(sh, ms[k].1) is Some && 0 <= column_of(sh, ms[k].1)->0 < src.len()
            && e.new_value@ == src[column_of(sh, ms[k].1)->0].inner && trimmed(e.old_value@)
            != trimmed(e.new_value@)
}

/// The first row of `rows`, in document order, whose cell in column `col`
/// has the text `key`.
pub fn find_row(rows: &Vec<Vec<Cell>>, col: usize, key: &String) -> (r: Option<usize>)
    ensures
        match r {
            Some(j) => j < rows@.len() && matching_row(
                rows@.map_values(|r: Vec<Cell>| row_view(r@)),
                col as int,
                key@,
            ) == Some(j as int),
            None => matching_row(
                rows@.map_values(|r: Vec<Cell>| row_view(r@)),
                col as int,
                key@,
            ) is None,
        },
{
    let ghost rv = rows@.map_values(|r: Vec<Cell>| row_view(r@));
    let mut i: usize = 0;
    while i < rows.len()
        invariant
            i <= rows@.len(),
            rv == rows@.map_values(|r: Vec<Cell>| row_view(r@)),
            rv.len() == rows@.len(),
            matching_row(rv, col as int, key@) == row_from(rv, col as int, key@, i as int),
        decreases rows@.len() - i,
    {
        assert(rv[i as int] == row_view(rows@[i as int]@));
        if col < rows[i].len() {
            assert(rv[i as int][col as int] == rows@[i as int]@[col as int]@);
            if rows[i][col].text == *key {
                return Some(i);
            }
        }
        i = i + 1;
    }
    None
}

/// Applies the mappings to one target row from its source row, in the
/// mappings' order, and logs each overwritten cell in `changes`.
fn sync_row(
    row: &mut Vec<Cell>,
    src: &Vec<Cell>,
    th: &Vec<String>,
    sh: &Vec<String>,
    mappings: &Vec<(String, String)>,
    row_index: usize,
    role_key: &String,
    changes: &mut Vec<Change>,
)
    ensures
        row_view(final(row)@) == apply_mappings(
            row_view(old(row)@),
            row_view(src@),
            names_view(th@),
            names_view(sh@),
            mappings_view(mappings@),
        ),
        final(changes)@.len() == old(changes)@.len() + mapping_changes(
            row_view(old(row)@),
            row_view(src@),
            names_view(th@),
            names_view(sh@),
            mappings_view(mappings@),
        ),
        forall|m: int| 0 <= m < old(changes)@.len() ==> #[trigger] final(changes)@[m] == old(changes)@[m],
        forall|m: int|
            old(changes)@.len() <= m < final(changes)@.len() ==> {
                &&& #[trigger] final(changes)@[m].row == row_index
                &&& final(changes)@[m].column < old(row)@.len()
                &&& final(changes)@[m].role_key@ == role_key@
                &&& logged_from(
                    final(changes)@[m],
                    row_view(src@),
                    names_view(th@),
                    names_view(sh@),
                    mappings_view(mappings@),
                )
            },
{
    let ghost start = row_view(row@);
    assert(start.len() == row@.len());
    let ghost sv = row_view(src@);
    let ghost thv = names_view(th@);
    let ghost shv = names_view(sh@);
    let ghost mv = mappings_view(mappings@);
    let ghost logged = changes@.len();
    let ghost before_log = changes@;
    let mut k: usize = 0;
    while k < mappings.len()
        invariant
            k <= mappings@.len(),
            mv == mappings_view(mappings@),
            mv.len() == mappings@.len(),
            sv == row_view(src@),
            sv.len() == src@.len(),
            thv == names_view(th@),
            shv == names_view(sh@),
            row_view(row@) == apply_mappings(start, sv, thv, shv, mv.subrange(0, k as int)),
            changes@.len() == logged + mapping_changes(
                start,
                sv,
                thv,
                shv,
                mv.subrange(0, k as int),
            ),
            row@.len() == start.len(),
            before_log.len() == logged,
            forall|m: int| 0 <= m < logged ==> #[trigger] changes@[m] == before_log[m],
            forall|m: int|
                logged <= m < changes@.len() ==> {
                    &&& #[trigger] changes@[m].row == row_index
                    &&& changes@[m].column < start.len()
                    &&& changes@[m].role_key@ == role_key@
                    &&& logged_from(changes@[m], sv, thv, shv, mv)
                },
        decreases mappings@.len() - k,
    {
        proof {
            assert(mv.subrange(0, k + 1).drop_last() =~= mv.subrange(0, k as int));
            assert(mv.subrange(0, k + 1).last() == mv[k as int]);
        }
        let ghost before = row_view(row@);
        let ti = position(th, mappings[k].0.as_str());
        let si = position(sh, mappings[k].1.as_str());
        let ghost gti = column_of(thv, mv[k as int].0);
        let ghost gsi = column_of(shv, mv[k as int].1);
        assert(mappings@[k as int].0@ == mv[k as int].0 && mappings@[k as int].1@ == mv[k as int].1);
        if let (Some(t), Some(s)) = (ti, si) {
            if t < row.len() && s < src.len() {
                let current = trim_text(row[t].inner.as_str());
                let incoming = trim_text(src[s].inner.as_str());
                assert(before[t as int] == row@[t as int]@);
                assert(sv[s as int] == src@[s as int]@);
                if !(current == incoming) {
                    let fresh = src[s].copy();
                    let mut replaced = fresh;
                    row.set_and_swap(t, &mut replaced);
                    assert(row_view(row@) =~= before.update(t as int, sv[s as int]));
                    let ghost log_before = changes@;
                    let entry = Change {
                        row: row_index,
                        column: t,
                        role_key: role_key.clone(),
                        field_name: mappings[k].0.clone(),
                        old_value: replaced.inner,
                        new_value: src[s].inner.clone(),
                    };
                    assert(entry.role_key@ == role_key@);
                    assert(mv[k as int].0 == entry.field_name@);
                    assert(column_of(thv, mv[k as int].0) == Some(entry.column as int));
                    assert(column_of(shv, mv[k as int].1) == Some(s as int));
                    assert(entry.new_value@ == sv[s as int].inner);
                    assert(entry.old_value@ == before[t as int].inner);
                    assert(logged_from(entry, sv, thv, shv, mv));
                    changes.push(entry);
                    assert(forall|m: int| 0 <= m < log_before.len() ==> changes@[m] == log_before[m]);
                    assert(changes@[log_before.len() as int] == entry);
                    assert forall|m: int| logged <= m < changes@.len() implies {
                        &&& #[trigger] changes@[m].row == row_index
                        &&& changes@[m].column < start.len()
                        &&& changes@[m].role_key@ == role_key@
                        &&& logged_from(changes@[m], sv, thv, shv, mv)
                    } by {
                        if m < log_before.len() {
                            assert(changes@[m] == log_before[m]);
                            assert(log_before[m].row == row_index);
                        }
                    }
                }
            }
        }
        k = k + 1;
    }
    assert(mv.subrange(0, mappings@.len() as int) =~= mv);
}

/// Synchronises `target` with `source`: each target row is joined to the
/// first source row with its key, and each mapping whose columns both exist
/// copies the source cell over the target cell where their trimmed markup
/// differs. Returns the log of overwritten cells.
pub fn sync_tables(
    target: &mut Table,
    source: &Table,
    target_key: &str,
    source_key: &str,
    mappings: &Vec<(String, String)>,
) -> (r: Result<Vec<Change>, SyncError>)
    ensures
        match (column_of(old(target)@.headers, target_key@), column_of(source@.headers, source_key@)) {
            (Some(tk), Some(sk)) => {
                &&& r is Ok
                &&& final(target)@.headers == old(target)@.headers
                &&& final(target)@.rows == synced_rows(
                    old(target)@,
                    source@,
                    tk,
                    sk,
                    mappings_view(mappings@),
                )
                &&& r->Ok_0@.len() == total_changes(
                    old(target)@,
                    source@,
                    tk,
                    sk,
                    mappings_view(mappings@),
                )
                &&& forall|m: int|
                    0 <= m < r->Ok_0@.len() ==> {
                        let c = #[trigger] r->Ok_0@[m];
                        &&& c.row < old(target)@.rows.len()
                        &&& c.column < old(target)@.rows[c.row as int].len()
                        &&& c.role_key@ == old(target)@.rows[c.row as int][tk].text
                        &&& joined_row(old(target)@.rows[c.row as int], source@, tk, sk) is Some
                        &&& logged_from(
                            c,
                            source@.rows[joined_row(
                                old(target)@.rows[c.row as int],
                                source@,
                                tk,
                                sk,
                            )->0],
                            old(target)@.headers,
                            source@.headers,
                            mappings_view(mappings@),
                        )
                    }
            },
            (None, _) => {
                &&& r is Err
                &&& r->Err_0 is KeyColumnNotFound
                &&& r->Err_0->KeyColumnNotFound_0@ == target_key@
                &&& final(target)@ == old(target)@
            },
            (Some(_), None) => {
                &&& r is Err
                &&& r->Err_0 is KeyColumnNotFound
                &&& r->Err_0->KeyColumnNotFound_0@ == source_key@
                &&& final(target)@ == old(target)@
            },
        },
{
    let tk = match position(&target.headers, target_key) {
        Some(c) => c,
        None => {
            return Err(SyncError::KeyColumnNotFound(target_key.to_owned()));
        },
    };
    let sk = match position(&source.headers, source_key) {
        Some(c) => c,
        None => {
            return Err(SyncError::KeyColumnNotFound(source_key.to_owned()));
        },
    };
    let ghost orig = target@;
    let ghost orig_rows = target.rows@;
    let ghost mv = mappings_view(mappings@);
    let ghost srcv = source@;
    let mut changes: Vec<Change> = Vec::new();
    let mut i: usize = 0;
    while i < target.rows.len()
        invariant
            i <= target.rows@.len(),
            target.rows@.len() == orig_rows.len(),
            orig.rows.len() == orig_rows.len(),
            target.headers@ == old(target).headers@,
            orig == old(target)@,
            orig_rows == old(target).rows@,
            mv == mappings_view(mappings@),
            srcv == source@,
            forall|m: int|
                0 <= m < i ==> row_view(#[trigger] target.rows@[m]@) == synced_row(
                    orig.rows[m],
                    orig.headers,
                    srcv,
                    tk as int,
                    sk as int,
                    mv,
                ),
            forall|m: int| i <= m < orig_rows.len() ==> #[trigger] target.rows@[m] == orig_rows[m],
            changes@.len() == changes_upto(orig, srcv, tk as int, sk as int, mv, i as int),
            forall|m: int|
                0 <= m < changes@.len() ==> {
                    let c = #[trigger] changes@[m];
                    &&& c.row < i
                    &&& c.column < orig.rows[c.row as int].len()
                    &&& c.role_key@ == orig.rows[c.row as int][tk as int].text
                    &&& joined_row(orig.rows[c.row as int], srcv, tk as int, sk as int) is Some
                    &&& logged_from(
                        c,
                        srcv.rows[joined_row(orig.rows[c.row as int], srcv, tk as int, sk as int)->0],
                        orig.headers,
                        srcv.headers,
                        mv,
                    )
                },
        decreases orig_rows.len() - i,
    {
        let mut row: Vec<Cell> = Vec::new();
        target.rows.set_and_swap(i, &mut row);
        assert(row == orig_rows[i as int]);
        assert(orig.rows[i as int] == row_view(row@));
        if tk < row.len() {
            let key = row[tk].text.clone();
            assert(row_view(row@)[tk as int].text == key@);
            match find_row(&source.rows, sk, &key) {
                Some(j) => {
                    assert(srcv.rows[j as int] == row_view(source.rows@[j as int]@));
                    sync_row(
                        &mut row,
                        &source.rows[j],
                        &target.headers,
                        &source.headers,
                        mappings,
                        i,
                        &key,
                        &mut changes,
                    );
                },
                None => {},
            }
        }
        target.rows.set(i, row);
        i = i + 1;
    }
    assert(target@.rows =~= synced_rows(orig, srcv, tk as int, sk as int, mv));
    assert(target@.headers =~= orig.headers);
    Ok(changes)
}

} // verus!
