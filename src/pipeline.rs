use vstd::prelude::*;
use crate::dom::{
    cells_apart, cells_of, fragment_markup, fragment_text, html_cells, html_cells_apart,
    markup_of, same_shape, HtmlTable,
};
use crate::locate::{locate, table_span, SyncError};
use crate::splice::{lemma_splice_preserves_outside, splice, spliced};
use crate::sync::{mappings_view, sync_tables, total_changes, Change};
use crate::table::{column_of, parse_table, positions_view, table_model, TableView};

verus! {

/// What a run yields: the new target document, the log of overwritten
/// cells, and the target's tree with those cells written.
pub struct SyncOutcome {
    pub document: String,
    pub changes: Vec<Change>,
    pub tree: HtmlTable,
}

/// The model of the table that `html` parses into, if any.
pub open spec fn parsed_model(html: Seq<char>) -> Option<TableView> {
    match html_cells(html) {
        Some(cs) => table_model(cs),
        None => None,
    }
}

/// The cells of a tree after the logged values are written in order, each
/// into the tree row that data row `c.row` stands for (`pos`).
pub open spec fn written(
    cs: Seq<Seq<(Seq<char>, Seq<char>)>>,
    pos: Seq<int>,
    ch: Seq<Change>,
) -> Seq<Seq<(Seq<char>, Seq<char>)>>
    decreases ch.len(),
{
    if ch.len() == 0 {
        cs
    } else {
        let prev = written(cs, pos, ch.drop_last());
        let c = ch.last();
        let i = pos[c.row as int];
        prev.update(
            i,
            prev[i].update(
                c.column as int,
                (fragment_text(c.new_value@), fragment_markup(c.new_value@)),
            ),
        )
    }
}

/// Writes each logged value into the tree cell it belongs to, in order.
pub fn apply_changes(tree: &mut HtmlTable, positions: &Vec<usize>, changes: &Vec<Change>)
    requires
        forall|m: int|
            0 <= m < changes@.len() ==> {
                let c = #[trigger] changes@[m];
                &&& c.row < positions@.len()
                &&& positions@[c.row as int] < cells_of(*old(tree)).len()
                &&& c.column < cells_of(*old(tree))[positions@[c.row as int] as int].len()
            },
    ensures
        same_shape(cells_of(*final(tree)), cells_of(*old(tree))),
        cells_apart(*old(tree)) ==> cells_apart(*final(tree)),
        cells_apart(*old(tree)) ==> cells_of(*final(tree)) == written(
            cells_of(*old(tree)),
            positions_view(positions@),
            changes@,
        ),
{
    let ghost start = cells_of(*tree);
    let ghost pos = positions_view(positions@);
    let mut k: usize = 0;
    while k < changes.len()
        invariant
            k <= changes@.len(),
            start == cells_of(*old(tree)),
            pos == positions_view(positions@),
            same_shape(cells_of(*tree), start),
            cells_apart(*old(tree)) ==> cells_apart(*tree),
            cells_apart(*old(tree)) ==> cells_of(*tree) == written(start, pos, changes@.subrange(0, k as int)),
            forall|m: int|
                0 <= m < changes@.len() ==> {
                    let c = #[trigger] changes@[m];
                    &&& c.row < positions@.len()
                    &&& positions@[c.row as int] < start.len()
                    &&& c.column < start[positions@[c.row as int] as int].len()
                },
        decreases changes@.len() - k,
    {
        let c = &changes[k];
        assert(changes@.subrange(0, k + 1).drop_last() =~= changes@.subrange(0, k as int));
        assert(cells_of(*tree)[positions@[c.row as int] as int].len() == start[positions@[c.row as int] as int].len());
        tree.set_inner_html(positions[c.row], c.column, c.new_value.as_str());
        k = k + 1;
    }
    assert(changes@.subrange(0, changes@.len() as int) =~= changes@);
}

/// Synchronises the table after `target_heading` in `target_doc` with the
/// table after `source_heading` in `source_doc`: rows are joined on the key
/// columns, the mappings' cells are copied over, and the target document is
/// returned with only that table replaced.
pub fn sync_documents(
    target_doc: &str,
    source_doc: &str,
    target_heading: &str,
    source_heading: &str,
    target_key: &str,
    source_key: &str,
    mappings: &Vec<(String, String)>,
) -> (r: Result<SyncOutcome, SyncError>)
    ensures
        match (table_span(target_doc@, target_heading@), table_span(source_doc@, source_heading@)) {
            (Err(e), _) => r is Err && r->Err_0 == e,
            (Ok(_), Err(e)) => r is Err && r->Err_0 == e,
            (Ok((a, b)), Ok((c, d))) => {
                let th = target_doc@.subrange(a, b);
                let sh = source_doc@.subrange(c, d);
                match (parsed_model(th), parsed_model(sh)) {
                    (Some(tv), Some(sv)) => match (
                        column_of(tv.headers, target_key@),
                        column_of(sv.headers, source_key@),
                    ) {
                        (Some(tk), Some(sk)) => r is Ok && {
                            let out = r->Ok_0;
                            let cs = html_cells(th)->0;
                            &&& out.changes@.len() == total_changes(
                                tv,
                                sv,
                                tk,
                                sk,
                                mappings_view(mappings@),
                            )
                            &&& out.document@ == spliced(target_doc@, a, b, markup_of(out.tree))
                            &&& out.document@.subrange(0, a) == target_doc@.subrange(0, a)
                            &&& out.document@.subrange(
                                out.document@.len() - (target_doc@.len() - b),
                                out.document@.len() as int,
                            ) == target_doc@.subrange(b, target_doc@.len() as int)
                            &&& same_shape(cells_of(out.tree), cs)
                            &&& html_cells_apart(th) ==> cells_of(out.tree) == written(
                                cs,
                                crate::table::filled_rows(cs).drop_first(),
                                out.changes@,
                            )
                        },
                        (None, _) => r is Err && r->Err_0 is KeyColumnNotFound
                            && r->Err_0->KeyColumnNotFound_0@ == target_key@,
                        (Some(_), None) => r is Err && r->Err_0 is KeyColumnNotFound
                            && r->Err_0->KeyColumnNotFound_0@ == source_key@,
                    },
                    _ => r is Err && r->Err_0 is EmptyTable,
                }
            },
        },
{
    let target_span = locate(target_doc, target_heading)?;
    let source_span = locate(source_doc, source_heading)?;
    let target_html = target_doc.substring_char(target_span.start, target_span.end);
    let source_html = source_doc.substring_char(source_span.start, source_span.end);
    let mut target = parse_table(target_html)?;
    let source = parse_table(source_html)?;
    let ghost t0 = target.table@;
    let changes = sync_tables(&mut target.table, &source.table, target_key, source_key, mappings)?;
    proof {
        let cs = cells_of(target.tree);
        let f = crate::table::filled_rows(cs);
        assert forall|m: int| 0 <= m < changes@.len() implies {
            let c = #[trigger] changes@[m];
            &&& c.row < target.rows@.len()
            &&& target.rows@[c.row as int] < cells_of(target.tree).len()
            &&& c.column < cells_of(target.tree)[target.rows@[c.row as int] as int].len()
        } by {
            let c = changes@[m];
            assert(positions_view(target.rows@)[c.row as int] == f.drop_first()[c.row as int]);
            crate::table::lemma_filled_in_range(cs, cs.len() as int);
            assert(t0.rows[c.row as int] == crate::table::model_row(cs[target.rows@[c.row as int] as int]));
        }
    }
    apply_changes(&mut target.tree, &target.rows, &changes);
    let table = target.tree.markup();
    let document = match splice(target_doc, target_heading, target_span, table.as_str()) {
        Ok(d) => d,
        Err(e) => {
            return Err(e);
        },
    };
    proof {
        lemma_splice_preserves_outside(
            target_doc@,
            target_span.start as int,
            target_span.end as int,
            table@,
        );
    }
    Ok(SyncOutcome { document, changes, tree: target.tree })
}

} // verus!
