use vstd::prelude::*;
use crate::locate::{locate, table_span, SyncError, TableSpan};

verus! {

/// `doc` with its characters `[a, b)` replaced by a blank line and `table`.
pub open spec fn spliced(doc: Seq<char>, a: int, b: int, table: Seq<char>) -> Seq<char> {
    doc.subrange(0, a) + seq!['\n', '\n'] + table + doc.subrange(b, doc.len() as int)
}

/// Replaces the table that `span` gives in `document` with a blank line and
/// `table`, after locating it again after `heading`: where it is no longer
/// where `span` says, nothing is replaced.
pub fn splice(document: &str, heading: &str, span: TableSpan, table: &str) -> (r: Result<
    String,
    SyncError,
>)
    ensures
        match table_span(document@, heading@) {
            Ok((a, b)) => if a == span.start && b == span.end {
                r is Ok && r->Ok_0@ == spliced(document@, a, b, table@)
            } else {
                r is Err && r->Err_0 is TableSpanInvalidated
            },
            Err(_) => r is Err && r->Err_0 is TableSpanInvalidated,
        },
{
    let found = match locate(document, heading) {
        Ok(found) => found,
        Err(_) => {
            return Err(SyncError::TableSpanInvalidated);
        },
    };
    if found != span {
        return Err(SyncError::TableSpanInvalidated);
    }
    let n: usize = document.unicode_len();
    let mut out = document.substring_char(0, span.start).to_owned();
    let blank = "\n\n";
    proof {
        reveal_strlit("\n\n");
    }
    assert(blank@ =~= seq!['\n', '\n']);
    out.append(blank);
    out.append(table);
    out.append(document.substring_char(span.end, n));
    Ok(out)
}

/// Splicing leaves every character outside the replaced span as it was and
/// where it was, counted from the start before the span and from the end
/// after it.
pub proof fn lemma_splice_preserves_outside(doc: Seq<char>, a: int, b: int, table: Seq<char>)
    requires
        0 <= a <= b <= doc.len(),
    ensures
        ({
            let out = spliced(doc, a, b, table);
            &&& out.len() == doc.len() - (b - a) + 2 + table.len()
            &&& out.subrange(0, a) == doc.subrange(0, a)
            &&& out.subrange(out.len() - (doc.len() - b), out.len() as int) == doc.subrange(
                b,
                doc.len() as int,
            )
        }),
{
    let out = spliced(doc, a, b, table);
    assert(out.subrange(0, a) =~= doc.subrange(0, a));
    assert(out.subrange(out.len() - (doc.len() - b), out.len() as int) =~= doc.subrange(
        b,
        doc.len() as int,
    ));
}

} // verus!
