use vstd::prelude::*;
use crate::locate::SyncError;
use crate::text::{chars_of, trim_text, trimmed};

verus! {

/// How many times `c` occurs in `s`.
pub open spec fn count_of(s: Seq<char>, c: char) -> nat
    decreases s.len(),
{
    if s.len() == 0 {
        0
    } else {
        count_of(s.drop_last(), c) + if s.last() == c {
            1nat
        } else {
            0nat
        }
    }
}

/// Reads a field mapping written `Target=Source`: it holds exactly one `=`,
/// and both names are trimmed.
pub fn parse_field_mapping(arg: &str) -> (r: Result<(String, String), SyncError>)
    ensures
        count_of(arg@, '=') == 1 <==> r is Ok,
        r is Err ==> r->Err_0 is UsageError,
        r is Ok ==> exists|i: int|
            0 <= i < arg@.len() && arg@[i] == '=' && r->Ok_0.0@ == trimmed(arg@.subrange(0, i))
                && r->Ok_0.1@ == trimmed(arg@.subrange(i + 1, arg@.len() as int)),
{
    let cs = chars_of(arg);
    let mut seen: usize = 0;
    let mut at: usize = 0;
    let mut i: usize = 0;
    while i < cs.len()
        invariant
            i <= cs@.len(),
            cs@ == arg@,
            seen == count_of(cs@.subrange(0, i as int), '='),
            seen <= i,
            seen >= 1 ==> at < i && cs@[at as int] == '=',
        decreases cs@.len() - i,
    {
        assert(cs@.subrange(0, i + 1).drop_last() =~= cs@.subrange(0, i as int));
        if cs[i] == '=' {
            at = i;
            seen = seen + 1;
        }
        i = i + 1;
    }
    assert(cs@.subrange(0, cs@.len() as int) =~= cs@);
    if seen != 1 {
        return Err(SyncError::UsageError(arg.to_owned()));
    }
    let n: usize = arg.unicode_len();
    let left = trim_text(arg.substring_char(0, at));
    let right = trim_text(arg.substring_char(at + 1, n));
    Ok((left, right))
}

/// Picks the headings for the target and the source documents: either one
/// heading for both, or a heading for each, given together.
pub fn resolve_headings(
    header: Option<String>,
    header_source: Option<String>,
    header_target: Option<String>,
) -> (r: Result<(String, String), SyncError>)
    ensures
        match (header, header_source, header_target) {
            (Some(h), None, None) => r is Ok && r->Ok_0.0 == h && r->Ok_0.1 == h,
            (None, Some(s), Some(t)) => r is Ok && r->Ok_0.0 == t && r->Ok_0.1 == s,
            _ => r is Err && r->Err_0 is UsageError,
        },
{
    match (header, header_source, header_target) {
        (Some(h), None, None) => {
            let both = h.clone();
            Ok((h, both))
        },
        (None, Some(s), Some(t)) => Ok((t, s)),
        _ => Err(
            SyncError::UsageError(
                "give --header, or --header-source and --header-target together".to_owned(),
            ),
        ),
    }
}

} // verus!
