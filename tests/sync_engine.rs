use md_role_sync::locate::{extract_html_table, locate, SyncError, TableSpan};
use md_role_sync::pipeline::sync_documents;
use md_role_sync::splice::splice;
use md_role_sync::sync::{find_row, sync_tables};
use md_role_sync::dom::HtmlTable;
use md_role_sync::table::{parse_table, position, Cell, Table};
use md_role_sync::options::{parse_field_mapping, resolve_headings};
use md_role_sync::text::{chars_of, trim_text};

fn cell(text: &str) -> Cell {
    Cell::new(text, text)
}

fn row(texts: &[&str]) -> Vec<Cell> {
    texts.iter().map(|t| cell(t)).collect()
}

fn table(headers: &[&str], rows: &[&[&str]]) -> Table {
    Table {
        headers: headers.iter().map(|h| h.to_string()).collect(),
        rows: rows.iter().map(|r| row(r)).collect(),
    }
}

fn mapping(target: &str, source: &str) -> Vec<(String, String)> {
    vec![(target.to_string(), source.to_string())]
}

fn inners(t: &Table) -> Vec<Vec<String>> {
    t.rows.iter().map(|r| r.iter().map(|c| c.inner.clone()).collect()).collect()
}

const TARGET_DOC: &str = "# Roles\n\nIntro text.\n\n## Role table\n\n<table>\n<tr><th>Role</th><th>Description</th><th>Note</th></tr>\n<tr><td>R1</td><td>old desc</td><td>note1</td></tr>\n<tr><td>R2</td><td>other</td><td>note2</td></tr>\n</table>\n\nTrailing text.\n";

const SOURCE_DOC: &str = "# Catalogue\n\n## Role table\n\n<table>\n<tr><th>Role ID</th><th>Owner</th><th>Description</th></tr>\n<tr><td>R1</td><td>-</td><td>new desc</td></tr>\n</table>\n";

#[test]
fn scenario_a_description_is_copied() {
    let mut t = table(&["Role", "Description", "Note"], &[&["R1", "old desc", "note1"]]);
    let s = table(&["Role ID", "Owner", "Description"], &[&["R1", "-", "new desc"]]);
    let changes = sync_tables(&mut t, &s, "Role", "Role ID", &mapping("Description", "Description")).unwrap();
    assert_eq!(changes.len(), 1);
    assert_eq!(inners(&t), vec![vec!["R1", "new desc", "note1"]]);
    assert_eq!(t.rows[0][1].text, "new desc");
    assert_eq!(changes[0].row, 0);
    assert_eq!(changes[0].column, 1);
    assert_eq!(changes[0].role_key, "R1");
    assert_eq!(changes[0].field_name, "Description");
    assert_eq!(changes[0].old_value, "old desc");
    assert_eq!(changes[0].new_value, "new desc");
}

#[test]
fn scenario_a_through_documents() {
    let out = sync_documents(TARGET_DOC, SOURCE_DOC, "## Role table", "## Role table", "Role", "Role ID", &mapping("Description", "Description")).unwrap();
    assert_eq!(out.changes.len(), 1);
    assert!(out.document.contains("<td>new desc</td>"));
    assert!(!out.document.contains("old desc"));
    assert!(out.document.contains("<td>note1</td>"));
    assert!(out.document.contains("<td>other</td>"));
}

#[test]
fn scenario_b_unmatched_row_is_untouched() {
    let mut t = table(&["Role", "Description", "Note"], &[&["R2", "keep", "n"]]);
    let s = table(&["Role ID", "Owner", "Description"], &[&["R1", "-", "new desc"]]);
    let changes = sync_tables(&mut t, &s, "Role", "Role ID", &mapping("Description", "Description")).unwrap();
    assert_eq!(changes.len(), 0);
    assert_eq!(inners(&t), vec![vec!["R2", "keep", "n"]]);
}

#[test]
fn scenario_c_unresolvable_mapping_is_skipped() {
    let mut t = table(&["Role", "Description", "Note"], &[&["R1", "old desc", "old note"]]);
    let s = table(&["Role ID", "Описание", "Note"], &[&["R1", "new desc", "new note"]]);
    let maps = vec![
        ("Descripton".to_string(), "Описание".to_string()),
        ("Note".to_string(), "Note".to_string()),
    ];
    let changes = sync_tables(&mut t, &s, "Role", "Role ID", &maps).unwrap();
    assert_eq!(changes.len(), 1);
    assert_eq!(inners(&t), vec![vec!["R1", "old desc", "new note"]]);
}

#[test]
fn scenario_d_missing_heading_aborts() {
    let r = sync_documents(TARGET_DOC, SOURCE_DOC, "## Absent", "## Role table", "Role", "Role ID", &mapping("Description", "Description"));
    assert!(matches!(r, Err(SyncError::HeadingNotFound)));
}

#[test]
fn scenario_e_nested_markup_is_kept() {
    let src = "## T\n<table><tr><th>Role ID</th><th>Description</th></tr><tr><td>R1</td><td><em>new</em> desc</td></tr></table>";
    let out = sync_documents(TARGET_DOC, src, "## Role table", "## T", "Role", "Role ID", &mapping("Description", "Description")).unwrap();
    assert_eq!(out.changes.len(), 1);
    assert_eq!(out.changes[0].new_value, "<em>new</em> desc");
    assert!(out.document.contains("<td><em>new</em> desc</td>"));
}

#[test]
fn second_run_changes_nothing() {
    let maps = mapping("Description", "Description");
    let first = sync_documents(TARGET_DOC, SOURCE_DOC, "## Role table", "## Role table", "Role", "Role ID", &maps).unwrap();
    assert_eq!(first.changes.len(), 1);
    let second = sync_documents(&first.document, SOURCE_DOC, "## Role table", "## Role table", "Role", "Role ID", &maps).unwrap();
    assert_eq!(second.changes.len(), 0);
    let table_of = |d: &str| d[d.find("<table").unwrap()..].to_string();
    assert_eq!(table_of(&second.document), table_of(&first.document));
}

#[test]
fn bytes_outside_table_are_kept() {
    let out = sync_documents(TARGET_DOC, SOURCE_DOC, "## Role table", "## Role table", "Role", "Role ID", &mapping("Description", "Description")).unwrap();
    let start = TARGET_DOC.find("<table").unwrap();
    let end = TARGET_DOC.find("</table>").unwrap() + 8;
    assert!(out.document.starts_with(&TARGET_DOC[..start]));
    assert!(out.document.ends_with(&TARGET_DOC[end..]));
    assert_eq!(&out.document[start..start + 2], "\n\n");
}

#[test]
fn shape_is_kept() {
    let mut t = table(&["Role", "Description", "Note"], &[&["R1", "a", "b"], &["R2"], &["R3", "c"]]);
    let s = table(&["Role ID", "Description"], &[&["R1", "x"], &["R3", "y"], &["R2", "z"]]);
    let changes = sync_tables(&mut t, &s, "Role", "Role ID", &mapping("Description", "Description")).unwrap();
    assert_eq!(changes.len(), 2);
    assert_eq!(t.rows.len(), 3);
    assert_eq!(t.rows.iter().map(|r| r.len()).collect::<Vec<_>>(), vec![3, 1, 2]);
    assert_eq!(inners(&t), vec![vec!["R1", "x", "b"], vec!["R2"], vec!["R3", "y"]]);
}

#[test]
fn first_duplicate_key_wins() {
    let mut t = table(&["Role", "Description"], &[&["R1", "old"]]);
    let s = table(&["Role ID", "Description"], &[&["R1", "first"], &["R1", "second"]]);
    sync_tables(&mut t, &s, "Role", "Role ID", &mapping("Description", "Description")).unwrap();
    assert_eq!(t.rows[0][1].inner, "first");
    assert_eq!(find_row(&s.rows, 0, &"R1".to_string()), Some(0));
    assert_eq!(find_row(&s.rows, 0, &"R9".to_string()), None);
    assert_eq!(find_row(&s.rows, 5, &"R1".to_string()), None);
}

#[test]
fn equal_markup_after_trim_is_not_rewritten() {
    let mut t = Table { headers: vec!["Role".into(), "D".into()], rows: vec![vec![cell("R1"), Cell::new("same", "  same ")]] };
    let s = table(&["Role", "D"], &[&["R1", "same"]]);
    let changes = sync_tables(&mut t, &s, "Role", "Role", &mapping("D", "D")).unwrap();
    assert!(changes.is_empty());
    assert_eq!(t.rows[0][1].inner, "  same ");
}

#[test]
fn key_columns_must_exist() {
    let mut t = table(&["Role", "D"], &[&["R1", "a"]]);
    let s = table(&["Role ID", "D"], &[&["R1", "b"]]);
    let r = sync_tables(&mut t, &s, "Rolle", "Role ID", &mapping("D", "D"));
    assert!(matches!(r, Err(SyncError::KeyColumnNotFound(ref n)) if n == "Rolle"));
    let r = sync_tables(&mut t, &s, "Role", "Ident", &mapping("D", "D"));
    assert!(matches!(r, Err(SyncError::KeyColumnNotFound(ref n)) if n == "Ident"));
    assert_eq!(inners(&t), vec![vec!["R1", "a"]]);
}

#[test]
fn locate_finds_first_table_after_heading() {
    let doc = "<table>x</table> ## H text <table a=1><tr></tr></table> <table></table>";
    let span = locate(doc, "## H").unwrap();
    assert_eq!(span, TableSpan { start: 27, end: 55 });
    assert_eq!(extract_html_table(doc, "## H").unwrap(), "<table a=1><tr></tr></table>");
}

#[test]
fn locate_reports_each_failure() {
    assert!(matches!(locate("no heading", "## H"), Err(SyncError::HeadingNotFound)));
    assert!(matches!(locate("<table></table> ## H", "## H"), Err(SyncError::TableOpenNotFound)));
    assert!(matches!(locate("## H <table><tr>", "## H"), Err(SyncError::TableCloseNotFound)));
    assert_eq!(extract_html_table("## H only", "## H"), None);
}

#[test]
fn locate_counts_characters() {
    let doc = "## Заголовок\n<table></table>";
    let span = locate(doc, "## Заголовок").unwrap();
    assert_eq!(span, TableSpan { start: 13, end: 28 });
}

#[test]
fn splice_replaces_only_the_table() {
    let doc = "## H\n<table>old</table>\nrest";
    let span = locate(doc, "## H").unwrap();
    let out = splice(doc, "## H", span, "<table>new</table>").unwrap();
    assert_eq!(out, "## H\n\n\n<table>new</table>\nrest");
}

#[test]
fn splice_refuses_a_moved_span() {
    let doc = "## H\n<table>old</table>\nrest";
    let r = splice(doc, "## H", TableSpan { start: 0, end: 4 }, "<table></table>");
    assert!(matches!(r, Err(SyncError::TableSpanInvalidated)));
    let r = splice(doc, "## X", TableSpan { start: 5, end: 23 }, "<table></table>");
    assert!(matches!(r, Err(SyncError::TableSpanInvalidated)));
}

#[test]
fn parse_reads_headers_rows_and_markup() {
    let html = "<table><tr></tr><tr><th> Role </th><th>Desc</th></tr><tr><td>R1</td><td> <b>bold</b> text </td></tr><tr><td>R2</td></tr></table>";
    let p = parse_table(html).unwrap();
    assert_eq!(p.table.headers, vec!["Role", "Desc"]);
    assert_eq!(p.table.rows.len(), 2);
    assert_eq!(p.table.rows[0][1].text, "bold text");
    assert_eq!(p.table.rows[0][1].inner, " <b>bold</b> text ");
    assert_eq!(p.table.rows[1].len(), 1);
    assert_eq!(p.rows, vec![2, 3]);
    assert_eq!(p.tree.inner_html(2, 1), " <b>bold</b> text ");
}

#[test]
fn parse_without_cells_is_empty_table() {
    assert!(matches!(parse_table("<table><tr></tr></table>"), Err(SyncError::EmptyTable)));
    assert!(matches!(parse_table("<table></table>"), Err(SyncError::EmptyTable)));
}

#[test]
fn parse_skips_rows_without_cells() {
    let html = "<table><tr></tr><tr><th>A</th><th>B</th></tr><tr></tr><tr><td>1</td></tr><tr><td>2</td><td>3</td></tr></table>";
    let p = parse_table(html).unwrap();
    assert_eq!(p.table.headers, vec!["A", "B"]);
    assert_eq!(inners(&p.table), vec![vec!["1"], vec!["2", "3"]]);
    assert_eq!(p.rows, vec![3, 4]);
    assert_eq!(p.tree.row_count(), 5);
    assert_eq!(p.tree.cell_count(4), 2);
}

#[test]
fn cell_markup_reads_children_in_order() {
    let t = HtmlTable::parse("<table><tr><td><em>x</em> y</td><td></td><td> a &amp; <i>b</i> </td></tr></table>").unwrap();
    assert_eq!(t.inner_html(0, 0), "<em>x</em> y");
    assert_eq!(t.inner_html(0, 1), "");
    assert_eq!(t.inner_html(0, 2), " a &amp; <i>b</i> ");
    assert_eq!(t.cell_text(0, 2), " a & b ");
    let before = t.markup();
    let _ = t.inner_html(0, 0);
    assert_eq!(t.markup(), before);
}

#[test]
fn cell_markup_written_reads_back() {
    let mut t = HtmlTable::parse("<table><tr><th>Роль</th><th>Описание</th></tr><tr><td>R1</td><td class=\"d\">old</td></tr></table>").unwrap();
    t.set_inner_html(1, 1, "<em>new</em> desc");
    assert_eq!(t.inner_html(1, 1), "<em>new</em> desc");
    assert_eq!(t.cell_text(1, 1), "new desc");
    assert!(t.markup().contains("<td class=\"d\"><em>new</em> desc</td>"));
    assert_eq!(t.inner_html(1, 0), "R1");
    assert_eq!(t.inner_html(0, 1), "Описание");
    let once = t.markup();
    t.set_inner_html(1, 1, "<em>new</em> desc");
    assert_eq!(t.markup(), once);
    t.set_inner_html(1, 1, " <b>x</b> &amp; y");
    assert_eq!(t.inner_html(1, 1), " <b>x</b> &amp; y");
    t.set_inner_html(1, 1, "");
    assert_eq!(t.inner_html(1, 1), "");
    assert_eq!(t.row_count(), 2);
    assert_eq!(t.cell_count(1), 2);
}

#[test]
fn synced_table_parses_back_to_same_shape() {
    let out = sync_documents(TARGET_DOC, SOURCE_DOC, "## Role table", "## Role table", "Role", "Role ID", &mapping("Description", "Description")).unwrap();
    let html = extract_html_table(&out.document, "## Role table").unwrap();
    let again = parse_table(&html).unwrap();
    let before = parse_table(&extract_html_table(TARGET_DOC, "## Role table").unwrap()).unwrap();
    assert_eq!(again.table.headers, before.table.headers);
    assert_eq!(again.table.rows.len(), before.table.rows.len());
    for (a, b) in again.table.rows.iter().zip(before.table.rows.iter()) {
        assert_eq!(a.len(), b.len());
    }
    assert_eq!(again.table.rows[0][1].inner, "new desc");
    assert_eq!(out.tree.inner_html(1, 1), "new desc");
}

#[test]
fn position_takes_first_equal_header() {
    let hs = vec!["a".to_string(), "b".to_string(), "a".to_string()];
    assert_eq!(position(&hs, "a"), Some(0));
    assert_eq!(position(&hs, "b"), Some(1));
    assert_eq!(position(&hs, "c"), None);
}

#[test]
fn text_helpers() {
    assert_eq!(trim_text("  a b \n"), "a b");
    assert_eq!(chars_of("añ"), vec!['a', 'ñ']);
}

#[test]
fn field_mappings_need_one_equals_sign() {
    let (t, s) = parse_field_mapping(" Description = Описание ").unwrap();
    assert_eq!(t, "Description");
    assert_eq!(s, "Описание");
    assert!(matches!(parse_field_mapping("Description"), Err(SyncError::UsageError(_))));
    assert!(matches!(parse_field_mapping("a=b=c"), Err(SyncError::UsageError(_))));
    let (t, s) = parse_field_mapping("=x").unwrap();
    assert_eq!((t.as_str(), s.as_str()), ("", "x"));
}

#[test]
fn headings_come_as_one_or_as_a_pair() {
    let (t, s) = resolve_headings(Some("## H".into()), None, None).unwrap();
    assert_eq!((t.as_str(), s.as_str()), ("## H", "## H"));
    let (t, s) = resolve_headings(None, Some("## S".into()), Some("## T".into())).unwrap();
    assert_eq!((t.as_str(), s.as_str()), ("## T", "## S"));
    assert!(matches!(resolve_headings(None, Some("## S".into()), None), Err(SyncError::UsageError(_))));
    assert!(matches!(resolve_headings(None, None, None), Err(SyncError::UsageError(_))));
    assert!(matches!(resolve_headings(Some("a".into()), Some("b".into()), Some("c".into())), Err(SyncError::UsageError(_))));
}
