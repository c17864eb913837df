//! Extraction from the quote-delimited, line-oriented files the steam
//! client keeps (library folders, app manifests): a line like
//! `"path"  "/mnt/games"` splits on `"` into fields, the key standing in
//! field one and the value in field three.

use vstd::prelude::*;

verus! {

use crate::text::chars_of;
use crate::text::split_on;

/// The quote-separated fields of a line.
pub open spec fn line_fields(line: Seq<char>) -> Seq<Seq<char>> {
    split_on(line, '"')
}

/// The `n`-th quote-separated field of the line, when the line has that
/// many fields.
pub fn quoted_field(line: &str, n: usize) -> (r: Option<String>)
    ensures
        r matches Some(f) ==> n < line_fields(line@).len() && f@ == line_fields(line@)[n as int],
        r is None <==> line_fields(line@).len() <= n,
{
    let chars = chars_of(line);
    proof {
        assert(chars@.skip(0) =~= chars@);
    }
    let fields = crate::text::split_from(&chars, 0, '"');
    proof {
        assert(fields@.map(|i: int, s: String| s@).len() == fields@.len());
    }
    if n < fields.len() {
        let f = fields[n].clone();
        proof {
            assert(fields@.map(|i: int, s: String| s@)[n as int] == fields@[n as int]@);
        }
        Some(f)
    } else {
        None
    }
}

/// Whether the line is a key-value line for the given key: its first
/// quoted field equals the key.
pub fn line_has_key(line: &str, key: &str) -> (b: bool)
    ensures
        b == (line_fields(line@).len() > 1 && line_fields(line@)[1] == key@),
{
    let wanted = key.to_owned();
    match quoted_field(line, 1) {
        Some(f) => f.eq(&wanted),
        None => false,
    }
}

/// The value of a key-value line: its third quoted field.
pub fn line_value(line: &str) -> (r: Option<String>)
    ensures
        r matches Some(f) ==> line_fields(line@).len() > 3 && f@ == line_fields(line@)[3],
        r is None <==> line_fields(line@).len() <= 3,
{
    quoted_field(line, 3)
}

} // verus!
