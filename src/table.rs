use vstd::prelude::*;
use crate::dom::{cells_apart, cells_of, html_cells, html_cells_apart, HtmlTable};
use crate::locate::SyncError;
use crate::text::{trim_text, trimmed};

verus! {

/// One cell of a table: its text with markup left out and trimmed, and the
/// markup inside it as it stands.
#[derive(Debug)]
pub struct Cell {
    pub text: String,
    pub inner: String,
}

/// What a cell holds, as character sequences.
pub struct CellView {
    pub text: Seq<char>,
    pub inner: Seq<char>,
}

impl View for Cell {
    type V = CellView;

    open spec fn view(&self) -> CellView {
        CellView { text: self.text@, inner: self.inner@ }
    }
}

impl Cell {
    pub fn new(text: &str, inner: &str) -> (r: Cell)
        ensures
            r.text@ == text@,
            r.inner@ == inner@,
    {
        Cell { text: text.to_owned(), inner: inner.to_owned() }
    }

    /// A cell that holds what this one holds.
    pub fn copy(&self) -> (r: Cell)
        ensures
            r@ == self@,
    {
        Cell { text: self.text.clone(), inner: self.inner.clone() }
    }
}

/// A table: its header names, then its data rows. Rows may be ragged.
#[derive(Debug)]
pub struct Table {
    pub headers: Vec<String>,
    pub rows: Vec<Vec<Cell>>,
}

pub open spec fn row_view(r: Seq<Cell>) -> Seq<CellView> {
    r.map_values(|c: Cell| c@)
}

pub open spec fn names_view(hs: Seq<String>) -> Seq<Seq<char>> {
    hs.map_values(|h: String| h@)
}

/// What a table holds: header names and rows of cells.
pub struct TableView {
    pub headers: Seq<Seq<char>>,
    pub rows: Seq<Seq<CellView>>,
}

impl View for Table {
    type V = TableView;

    open spec fn view(&self) -> TableView {
        TableView {
            headers: names_view(self.headers@),
            rows: self.rows@.map_values(|r: Vec<Cell>| row_view(r@)),
        }
    }
}

/// The first position at or after `k` of `name` among `hs`.
pub open spec fn index_from(hs: Seq<Seq<char>>, name: Seq<char>, k: int) -> Option<int>
    decreases hs.len() + 1 - k,
{
    if k < 0 || k >= hs.len() {
        None
    } else if hs[k] == name {
        Some(k)
    } else {
        index_from(hs, name, k + 1)
    }
}

/// The column that `name` heads: the first header equal to it.
pub open spec fn column_of(hs: Seq<Seq<char>>, name: Seq<char>) -> Option<int> {
    index_from(hs, name, 0)
}

pub proof fn lemma_index_from_found(hs: Seq<Seq<char>>, name: Seq<char>, k: int)
    requires
        index_from(hs, name, k) is Some,
    ensures
        k <= index_from(hs, name, k)->0 < hs.len(),
        hs[index_from(hs, name, k)->0] == name,
    decreases hs.len() + 1 - k,
{
    if k < 0 || k >= hs.len() {
    } else if hs[k] == name {
    } else {
        lemma_index_from_found(hs, name, k + 1);
    }
}

/// The position of the column that `name` heads, if any: the first header
/// equal to it.
pub fn position(headers: &Vec<String>, name: &str) -> (r: Option<usize>)
    ensures
        match r {
            Some(i) => column_of(names_view(headers@), name@) == Some(i as int),
            None => column_of(names_view(headers@), name@) is None,
        },
{
    let ghost hs = names_view(headers@);
    let wanted = name.to_owned();
    let mut i: usize = 0;
    while i < headers.len()
        invariant
            i <= headers@.len(),
            hs == names_view(headers@),
            hs.len() == headers@.len(),
            wanted@ == name@,
            column_of(hs, name@) == index_from(hs, name@, i as int),
        decreases headers@.len() - i,
    {
        assert(hs[i as int] == headers@[i as int]@);
        if headers[i] == wanted {
            return Some(i);
        }
        i = i + 1;
    }
    None
}

/// A cell as the table model holds it: the text trimmed, the markup as read.
pub open spec fn cell_view(c: (Seq<char>, Seq<char>)) -> CellView {
    CellView { text: trimmed(c.0), inner: c.1 }
}

pub open spec fn model_row(r: Seq<(Seq<char>, Seq<char>)>) -> Seq<CellView> {
    r.map_values(|c: (Seq<char>, Seq<char>)| cell_view(c))
}

/// The positions, among the first `n` rows, of the rows with at least one
/// cell.
pub open spec fn filled_upto(cs: Seq<Seq<(Seq<char>, Seq<char>)>>, n: int) -> Seq<int>
    decreases n,
{
    if n <= 0 {
        Seq::empty()
    } else {
        let prev = filled_upto(cs, n - 1);
        if cs[n - 1].len() > 0 {
            prev.push(n - 1)
        } else {
            prev
        }
    }
}

pub proof fn lemma_filled_in_range(cs: Seq<Seq<(Seq<char>, Seq<char>)>>, n: int)
    requires
        n <= cs.len(),
    ensures
        forall|k: int| 0 <= k < filled_upto(cs, n).len() ==> 0 <= #[trigger] filled_upto(cs, n)[k] < n,
    decreases n,
{
    if n > 0 {
        lemma_filled_in_range(cs, n - 1);
        let prev = filled_upto(cs, n - 1);
        assert forall|k: int| 0 <= k < filled_upto(cs, n).len() implies 0 <= #[trigger] filled_upto(
            cs,
            n,
        )[k] < n by {
            if k < prev.len() {
                assert(filled_upto(cs, n)[k] == prev[k]);
            }
        }
    }
}

/// The positions of the rows with at least one cell.
pub open spec fn filled_rows(cs: Seq<Seq<(Seq<char>, Seq<char>)>>) -> Seq<int> {
    filled_upto(cs, cs.len() as int)
}

/// The table that rows of cells make: the first row with a cell names the
/// columns, the later rows with a cell are the data rows, rows without a cell
/// are left out; none where no row has a cell.
pub open spec fn table_model(cs: Seq<Seq<(Seq<char>, Seq<char>)>>) -> Option<TableView> {
    let f = filled_rows(cs);
    if f.len() == 0 {
        None
    } else {
        Some(
            TableView {
                headers: model_row(cs[f[0]]).map_values(|c: CellView| c.text),
                rows: f.drop_first().map_values(|k: int| model_row(cs[k])),
            },
        )
    }
}

pub open spec fn positions_view(v: Seq<usize>) -> Seq<int> {
    v.map_values(|k: usize| k as int)
}

/// A table parsed out of its markup: the model of it, the tree it was read
/// from, and for each data row the row of the tree it stands for.
pub struct ParsedTable {
    pub table: Table,
    pub tree: HtmlTable,
    pub rows: Vec<usize>,
}

/// Reads the cells of row `i` of the tree into the model.
fn read_row(tree: &HtmlTable, i: usize) -> (r: Vec<Cell>)
    requires
        i < cells_of(*tree).len(),
    ensures
        row_view(r@) == model_row(cells_of(*tree)[i as int]),
{
    let ghost cs = cells_of(*tree)[i as int];
    let n = tree.cell_count(i);
    let mut row: Vec<Cell> = Vec::new();
    let mut j: usize = 0;
    while j < n
        invariant
            j <= n,
            n == cs.len(),
            cs == cells_of(*tree)[i as int],
            i < cells_of(*tree).len(),
            row@.len() == j,
            row_view(row@) == model_row(cs).subrange(0, j as int),
        decreases n - j,
    {
        let raw = tree.cell_text(i, j);
        let text = trim_text(raw.as_str());
        let inner = tree.inner_html(i, j);
        let ghost before = row@;
        let cell = Cell { text, inner };
        assert(cell@ == cell_view(cs[j as int]));
        row.push(cell);
        assert(row_view(row@)[j as int] == cell@);
        assert(model_row(cs)[j as int] == cell_view(cs[j as int]));
        assert(row_view(row@) =~= model_row(cs).subrange(0, j + 1)) by {
            assert forall|m: int| 0 <= m < j implies row_view(row@)[m] == row_view(before)[m] by {
                assert(row@[m] == before[m]);
            }
        }
        j = j + 1;
    }
    assert(model_row(cs).subrange(0, n as int) =~= model_row(cs));
    row
}

/// Parses the markup of one table: each `tr` with at least one `th` or `td`
/// is a row; the first such row names the columns, the later ones are the
/// data rows.
pub fn parse_table(table_html: &str) -> (r: Result<ParsedTable, SyncError>)
    ensures
        match html_cells(table_html@) {
            None => r is Err && r->Err_0 is EmptyTable,
            Some(cs) => match table_model(cs) {
                None => r is Err && r->Err_0 is EmptyTable,
                Some(tv) => {
                    &&& r is Ok
                    &&& r->Ok_0.table@ == tv
                    &&& cells_of(r->Ok_0.tree) == cs
                    &&& cells_apart(r->Ok_0.tree) == html_cells_apart(table_html@)
                    &&& positions_view(r->Ok_0.rows@) == filled_rows(cs).drop_first()
                },
            },
        },
{
    let tree = match HtmlTable::parse(table_html) {
        Some(t) => t,
        None => {
            return Err(SyncError::EmptyTable);
        },
    };
    let ghost cs = cells_of(tree);
    let n = tree.row_count();
    let mut headers: Vec<String> = Vec::new();
    let mut have_header = false;
    let mut rows: Vec<Vec<Cell>> = Vec::new();
    let mut positions: Vec<usize> = Vec::new();
    let mut i: usize = 0;
    while i < n
        invariant
            i <= n,
            n == cs.len(),
            cs == cells_of(tree),
            have_header == (filled_upto(cs, i as int).len() > 0),
            have_header ==> names_view(headers@) == model_row(cs[filled_upto(cs, i as int)[0]]).map_values(
                |c: CellView| c.text,
            ),
            have_header ==> positions_view(positions@) == filled_upto(cs, i as int).drop_first(),
            !have_header ==> positions@.len() == 0,
            rows@.len() == positions@.len(),
            forall|k: int| 0 <= k < positions@.len() ==> #[trigger] positions@[k] < i,
            forall|k: int|
                0 <= k < rows@.len() ==> row_view(#[trigger] rows@[k]@) == model_row(
                    cs[positions@[k] as int],
                ),
        decreases n - i,
    {
        let ghost before = filled_upto(cs, i as int);
        assert(filled_upto(cs, i + 1) == if cs[i as int].len() > 0 {
            before.push(i as int)
        } else {
            before
        });
        let row = read_row(&tree, i);
        assert(row_view(row@).len() == row@.len());
        assert(model_row(cs[i as int]).len() == cs[i as int].len());
        if row.len() > 0 {
            if !have_header {
                let mut names: Vec<String> = Vec::new();
                let mut j: usize = 0;
                while j < row.len()
                    invariant
                        j <= row@.len(),
                        names@.len() == j,
                        names_view(names@) == row_view(row@).map_values(|c: CellView| c.text).subrange(
                            0,
                            j as int,
                        ),
                    decreases row@.len() - j,
                {
                    let name = row[j].text.clone();
                    names.push(name);
                    assert(names_view(names@) =~= row_view(row@).map_values(|c: CellView| c.text).subrange(
                        0,
                        j + 1,
                    ));
                    j = j + 1;
                }
                assert(row_view(row@).map_values(|c: CellView| c.text).subrange(0, j as int)
                    =~= row_view(row@).map_values(|c: CellView| c.text));
                headers = names;
                have_header = true;
                assert(filled_upto(cs, i + 1) =~= seq![i as int]);
                assert(positions_view(positions@) =~= filled_upto(cs, i + 1).drop_first());
            } else {
                let ghost old_rows = rows@;
                let ghost old_pos = positions@;
                let ghost new_row = row;
                assert(row_view(new_row@) == model_row(cs[i as int]));

                rows.push(row);
                positions.push(i);
                assert(filled_upto(cs, i + 1)[0] == before[0]);
                assert(positions_view(positions@) =~= positions_view(old_pos).push(i as int));
                assert(before.push(i as int).drop_first() =~= before.drop_first().push(i as int));
                assert(positions_view(positions@) =~= filled_upto(cs, i + 1).drop_first());
                assert forall|k: int| 0 <= k < positions@.len() implies #[trigger] positions@[k] < i + 1 by {
                    if k < old_pos.len() {
                        assert(positions@[k] == old_pos[k]);
                    }
                }
                assert forall|k: int| 0 <= k < rows@.len() implies row_view(
                    #[trigger] rows@[k]@,
                ) == model_row(cs[positions@[k] as int]) by {
                    if k < old_rows.len() {
                        assert(rows@[k] == old_rows[k]);
                        assert(positions@[k] == old_pos[k]);
                    } else {
                        assert(rows@[k] == new_row);
                        assert(positions@[k] == i);
                    }
                }
            }
        }
        i = i + 1;
    }
    if !have_header {
        return Err(SyncError::EmptyTable);
    }
    let table = Table { headers, rows };
    proof {
        let f = filled_rows(cs);
        assert(table@.rows =~= f.drop_first().map_values(|k: int| model_row(cs[k])));
        assert(table@.headers == model_row(cs[f[0]]).map_values(|c: CellView| c.text));
    }
    Ok(ParsedTable { table, tree, rows: positions })
}

} // verus!
