use vstd::prelude::*;
use crate::text::chars_of;

verus! {

/// The failures of a run: each one aborts it before anything is written.
#[derive(Debug)]
pub enum SyncError {
    /// The heading does not occur in the document.
    HeadingNotFound,
    /// No `<table` follows the heading.
    TableOpenNotFound,
    /// No `</table>` follows the `<table` found after the heading.
    TableCloseNotFound,
    /// The table has no row with a cell, so no header row.
    EmptyTable,
    /// The named key column is not among the table's headers.
    KeyColumnNotFound(String),
    /// Located again before splicing, the table is no longer where it was.
    TableSpanInvalidated,
    /// The options given do not describe a run.
    UsageError(String),
}

/// The characters `[start, end)` of a document that a table takes up, from
/// its `<table` through its `</table>`.
#[derive(Clone, Copy, Debug, PartialEq, Eq, Structural)]
pub struct TableSpan {
    pub start: usize,
    pub end: usize,
}

pub open spec fn open_tag() -> Seq<char> {
    seq!['<', 't', 'a', 'b', 'l', 'e']
}

pub open spec fn close_tag() -> Seq<char> {
    seq!['<', '/', 't', 'a', 'b', 'l', 'e', '>']
}

/// `pat` stands in `doc` at position `i`.
pub open spec fn occurs_at(doc: Seq<char>, pat: Seq<char>, i: int) -> bool {
    0 <= i && i + pat.len() <= doc.len() && doc.subrange(i, i + pat.len()) == pat
}

/// The first position at or after `k` at which `pat` stands in `doc`.
pub open spec fn find_from(doc: Seq<char>, pat: Seq<char>, k: int) -> Option<int>
    decreases doc.len() + 1 - k,
{
    if k < 0 || k + pat.len() > doc.len() {
        None
    } else if occurs_at(doc, pat, k) {
        Some(k)
    } else {
        find_from(doc, pat, k + 1)
    }
}

/// Where the first table after the first occurrence of `heading` stands in
/// `doc`, or why there is none.
pub open spec fn table_span(doc: Seq<char>, heading: Seq<char>) -> Result<(int, int), SyncError> {
    match find_from(doc, heading, 0) {
        None => Err(SyncError::HeadingNotFound),
        Some(h) => match find_from(doc, open_tag(), h + heading.len()) {
            None => Err(SyncError::TableOpenNotFound),
            Some(o) => match find_from(doc, close_tag(), o) {
                None => Err(SyncError::TableCloseNotFound),
                Some(c) => Ok((o, c + close_tag().len())),
            },
        },
    }
}

pub proof fn lemma_find_from_found(doc: Seq<char>, pat: Seq<char>, k: int)
    requires
        find_from(doc, pat, k) is Some,
    ensures
        k <= find_from(doc, pat, k)->0,
        occurs_at(doc, pat, find_from(doc, pat, k)->0),
    decreases doc.len() + 1 - k,
{
    if k < 0 || k + pat.len() > doc.len() {
    } else if occurs_at(doc, pat, k) {
    } else {
        lemma_find_from_found(doc, pat, k + 1);
    }
}

/// Whether `pat` stands in `doc` at `i`.
fn matches_at(doc: &Vec<char>, pat: &Vec<char>, i: usize) -> (r: bool)
    requires
        i + pat@.len() <= doc@.len(),
    ensures
        r == occurs_at(doc@, pat@, i as int),
{
    let n: usize = doc.len();
    let mut j: usize = 0;
    while j < pat.len()
        invariant
            n == doc@.len(),
            j <= pat@.len(),
            i + pat@.len() <= doc@.len(),
            forall|m: int| 0 <= m < j ==> doc@[i + m] == pat@[m],
        decreases pat@.len() - j,
    {
        if doc[i + j] != pat[j] {
            assert(doc@.subrange(i as int, i + pat@.len())[j as int] != pat@[j as int]);
            return false;
        }
        j = j + 1;
    }
    assert(doc@.subrange(i as int, i + pat@.len()) =~= pat@);
    true
}

/// The first position at or after `k` at which `pat` stands in `doc`.
pub fn find_chars(doc: &Vec<char>, pat: &Vec<char>, k: usize) -> (r: Option<usize>)
    ensures
        match r {
            Some(i) => find_from(doc@, pat@, k as int) == Some(i as int),
            None => find_from(doc@, pat@, k as int) is None,
        },
{
    if pat.len() > doc.len() {
        assert(find_from(doc@, pat@, k as int) is None);
        return None;
    }
    if pat.len() == 0 {
        if k <= doc.len() {
            assert(occurs_at(doc@, pat@, k as int)) by {
                assert(doc@.subrange(k as int, k as int) =~= pat@);
            }
            return Some(k);
        }
        return None;
    }
    let n: usize = doc.len();
    let last: usize = n - pat.len();
    let mut i: usize = k;
    while i <= last
        invariant
            last + pat@.len() == doc@.len(),
            pat@.len() >= 1,
            n == doc@.len(),
            k <= i,
            find_from(doc@, pat@, k as int) == find_from(doc@, pat@, i as int),
        decreases last + 1 - i,
    {
        if matches_at(doc, pat, i) {
            return Some(i);
        }
        i = i + 1;
    }
    None
}

/// Where the first table after the first occurrence of `heading` stands in
/// `document`.
pub fn locate(document: &str, heading: &str) -> (r: Result<TableSpan, SyncError>)
    ensures
        match (r, table_span(document@, heading@)) {
            (Ok(s), Ok((a, b))) => s.start == a && s.end == b,
            (Err(SyncError::HeadingNotFound), Err(SyncError::HeadingNotFound)) => true,
            (Err(SyncError::TableOpenNotFound), Err(SyncError::TableOpenNotFound)) => true,
            (Err(SyncError::TableCloseNotFound), Err(SyncError::TableCloseNotFound)) => true,
            _ => false,
        },
        r is Ok ==> {
            let s = r->Ok_0;
            s.start < s.end <= document@.len() && occurs_at(document@, open_tag(), s.start as int)
                && occurs_at(document@, close_tag(), s.end - close_tag().len())
        },
{
    let doc = chars_of(document);
    let head = chars_of(heading);
    let n: usize = doc.len();
    let open: Vec<char> = vec!['<', 't', 'a', 'b', 'l', 'e'];
    let close: Vec<char> = vec!['<', '/', 't', 'a', 'b', 'l', 'e', '>'];
    assert(open@ =~= open_tag());
    assert(close@ =~= close_tag());
    let h = match find_chars(&doc, &head, 0) {
        Some(h) => h,
        None => {
            return Err(SyncError::HeadingNotFound);
        },
    };
    proof {
        lemma_find_from_found(doc@, head@, 0);
    }
    let o = match find_chars(&doc, &open, h + head.len()) {
        Some(o) => o,
        None => {
            return Err(SyncError::TableOpenNotFound);
        },
    };
    proof {
        lemma_find_from_found(doc@, open@, (h + head@.len()) as int);
    }
    let c = match find_chars(&doc, &close, o) {
        Some(c) => c,
        None => {
            return Err(SyncError::TableCloseNotFound);
        },
    };
    proof {
        lemma_find_from_found(doc@, close@, o as int);
    }
    Ok(TableSpan { start: o, end: c + 8 })
}

/// The markup of the first table after the first occurrence of `header` in
/// `content`, or `None` where there is no such table.
pub fn extract_html_table(content: &str, header: &str) -> (r: Option<String>)
    ensures
        match table_span(content@, header@) {
            Ok((a, b)) => r is Some && r->0@ == content@.subrange(a, b),
            Err(_) => r is None,
        },
{
    match locate(content, header) {
        Ok(span) => Some(content.substring_char(span.start, span.end).to_owned()),
        Err(_) => None,
    }
}

} // verus!
