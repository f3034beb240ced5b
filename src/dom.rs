use vstd::prelude::*;
use kuchiki::traits::TendrilSink;

verus! {

/// A parsed HTML table: the tree that kuchiki built for it, and a handle on
/// each `th`/`td` cell of each `tr` of it, in document order. Writing a cell
/// changes the tree in place, so the tree can be written out again with
/// everything else as it was.
#[verifier::external_body]
pub struct HtmlTable {
    root: kuchiki::NodeRef,
    rows: Vec<Vec<kuchiki::NodeRef>>,
}

/// For each `tr` of the first `table` element that `html` parses into, the
/// text (markup left out) and the inner markup of each of its `th`/`td`
/// cells, in document order; `None` where there is no `table` element.
pub uninterp spec fn html_cells(html: Seq<char>) -> Option<Seq<Seq<(Seq<char>, Seq<char>)>>>;

/// For each row of `t`, the text and the inner markup of each of its cells
/// as the tree holds them now.
pub uninterp spec fn cells_of(t: HtmlTable) -> Seq<Seq<(Seq<char>, Seq<char>)>>;

/// No cell of `t` lies inside another of its cells (no nested tables).
pub uninterp spec fn cells_apart(t: HtmlTable) -> bool;

/// No cell of the table that `html` parses into lies inside another of its
/// cells.
pub uninterp spec fn html_cells_apart(html: Seq<char>) -> bool;

/// `a` and `b` have as many rows, and each row as many cells.
pub open spec fn same_shape(
    a: Seq<Seq<(Seq<char>, Seq<char>)>>,
    b: Seq<Seq<(Seq<char>, Seq<char>)>>,
) -> bool {
    a.len() == b.len() && forall|k: int| 0 <= k < a.len() ==> #[trigger] a[k].len() == b[k].len()
}

/// The markup of the table element of `t`, itself and its subtree.
pub uninterp spec fn markup_of(t: HtmlTable) -> Seq<char>;

/// The text of the nodes that `html` parses into as the content of a table
/// cell.
pub uninterp spec fn fragment_text(html: Seq<char>) -> Seq<char>;

/// The markup that the nodes that `html` parses into, as the content of a
/// table cell, are written out as.
pub uninterp spec fn fragment_markup(html: Seq<char>) -> Seq<char>;

impl HtmlTable {
    /// Relies on `kuchiki::parse_html`, `NodeRef::select_first` and
    /// `NodeRef::select`: parses `html` as a document, takes its first `table`
    /// element, and keeps a handle on each `th`/`td` of each `tr` under it.
    #[verifier::external_body]
    pub fn parse(html: &str) -> (r: Option<HtmlTable>)
        ensures
            match r {
                Some(t) => html_cells(html@) == Some(cells_of(t)) && cells_apart(t)
                    == html_cells_apart(html@),
                None => html_cells(html@) is None,
            },
    {
        let document = kuchiki::parse_html().one(html);
        let root = document.select_first("table").ok()?.as_node().clone();
        let trs: Vec<kuchiki::NodeRef> = root.select("tr").ok()?.map(|m| m.as_node().clone()).collect();
        let rows = trs.iter().map(|tr| match tr.select("th, td") {
            Ok(found) => found.map(|m| m.as_node().clone()).collect(),
            Err(()) => Vec::new(),
        }).collect();
        Some(HtmlTable { root, rows })
    }

    /// The number of rows.
    #[verifier::external_body]
    pub fn row_count(&self) -> (r: usize)
        ensures
            r == cells_of(*self).len(),
    {
        self.rows.len()
    }

    /// The number of cells of row `i`.
    #[verifier::external_body]
    pub fn cell_count(&self, i: usize) -> (r: usize)
        requires
            i < cells_of(*self).len(),
        ensures
            r == cells_of(*self)[i as int].len(),
    {
        self.rows[i].len()
    }

    /// Relies on `kuchiki::NodeRef::text_contents`: the text of cell `j` of
    /// row `i`, markup left out.
    #[verifier::external_body]
    pub fn cell_text(&self, i: usize, j: usize) -> (r: String)
        requires
            i < cells_of(*self).len(),
            j < cells_of(*self)[i as int].len(),
        ensures
            r@ == cells_of(*self)[i as int][j as int].0,
    {
        self.rows[i][j].text_contents()
    }

    /// Relies on `kuchiki::NodeRef::serialize`, applied to each child of cell
    /// `j` of row `i`: the markup inside the cell, its own tags left out.
    #[verifier::external_body]
    pub fn inner_html(&self, i: usize, j: usize) -> (r: String)
        requires
            i < cells_of(*self).len(),
            j < cells_of(*self)[i as int].len(),
        ensures
            r@ == cells_of(*self)[i as int][j as int].1,
    {
        let mut bytes: Vec<u8> = Vec::new();
        for child in self.rows[i][j].children() {
            let _ = child.serialize(&mut bytes);
        }
        String::from_utf8(bytes).unwrap_or_default()
    }

    /// Relies on `kuchiki::parse_fragment`, `NodeRef::detach` and
    /// `NodeRef::append`: the children of cell `j` of row `i` are detached
    /// and replaced by the nodes that `html` parses into in the cell's
    /// context. The cell keeps its tag, attributes and place.
    #[verifier::external_body]
    pub fn set_inner_html(&mut self, i: usize, j: usize, html: &str)
        requires
            i < cells_of(*old(self)).len(),
            j < cells_of(*old(self))[i as int].len(),
        ensures
            same_shape(cells_of(*final(self)), cells_of(*old(self))),
            cells_apart(*old(self)) ==> cells_apart(*final(self)),
            cells_apart(*old(self)) ==> cells_of(*final(self)) == cells_of(*old(self)).update(
                i as int,
                cells_of(*old(self))[i as int].update(
                    j as int,
                    (fragment_text(html@), fragment_markup(html@)),
                ),
            ),
    {
        let node = &self.rows[i][j];
        for child in node.children().collect::<Vec<_>>() {
            child.detach();
        }
        if let Some(element) = node.as_element() {
            let parsed = kuchiki::parse_fragment(element.name.clone(), Vec::new()).one(html);
            if let Some(wrapper) = parsed.first_child() {
                for child in wrapper.children().collect::<Vec<_>>() {
                    node.append(child);
                }
            }
        }
    }

    /// Relies on `kuchiki::NodeRef`'s `ToString`: the markup of the table
    /// element and its subtree.
    #[verifier::external_body]
    pub fn markup(&self) -> (r: String)
        ensures
            r@ == markup_of(*self),
    {
        self.root.to_string()
    }
}

} // verus!
