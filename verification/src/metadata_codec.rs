//! The durable format of the installed-localization store: a structured
//! text document with a format-version line and one line per installed
//! record, each field a quoted, escaped string. A save writes the whole
//! document in one piece; a load parses it back. Parsing a rendered
//! document reproduces the records exactly (proved below), so the on-disk
//! file is always a completely parseable snapshot.

use vstd::prelude::*;

verus! {

use crate::errors::Error;
use crate::models::InstalledEntryV;
use crate::models::InstalledLocalization;
use crate::models::InstalledMetadata;
use crate::models::record_views;
use crate::text::chars_of;
use crate::text::string_from_chars;

/// The keyword opening the version line.
pub open spec fn kw_header() -> Seq<char> {
    seq!['f', 'o', 'r', 'm', 'a', 't', '_', 'v', 'e', 'r', 's', 'i', 'o', 'n', ' ', '=', ' ']
}

/// The keyword opening one record line.
pub open spec fn kw_installed() -> Seq<char> {
    seq!['i', 'n', 's', 't', 'a', 'l', 'l', 'e', 'd', ' ']
}

/// How one character is escaped inside a quoted field: backslash, quote and
/// newline get a backslash escape, everything else stands for itself.
pub open spec fn esc_char(c: char) -> Seq<char> {
    if c == '\\' {
        seq!['\\', '\\']
    } else if c == '"' {
        seq!['\\', '"']
    } else if c == '\n' {
        seq!['\\', 'n']
    } else {
        seq![c]
    }
}

/// A whole field, escaped.
pub open spec fn esc(s: Seq<char>) -> Seq<char>
    decreases s.len(),
{
    if s.len() == 0 {
        Seq::<char>::empty()
    } else {
        esc(s.drop_last()) + esc_char(s.last())
    }
}

/// A field as it stands in the document: quoted and escaped.
pub open spec fn quoted(s: Seq<char>) -> Seq<char> {
    seq!['"'] + esc(s) + seq!['"']
}

/// The decimal digit character for `d` (meaningful for 0 through 9).
pub open spec fn digit_char(d: int) -> char {
    if d == 0 {
        '0'
    } else if d == 1 {
        '1'
    } else if d == 2 {
        '2'
    } else if d == 3 {
        '3'
    } else if d == 4 {
        '4'
    } else if d == 5 {
        '5'
    } else if d == 6 {
        '6'
    } else if d == 7 {
        '7'
    } else if d == 8 {
        '8'
    } else {
        '9'
    }
}

/// Whether `c` is a decimal digit.
pub open spec fn is_digit(c: char) -> bool {
    48 <= c as u32 <= 57
}

/// The numeric value of a digit character (0 for a non-digit).
pub open spec fn digit_val(c: char) -> int {
    if is_digit(c) {
        c as u32 - 48
    } else {
        0
    }
}

/// The decimal rendering of a natural number, most significant digit first.
pub open spec fn dec_digits(n: nat) -> Seq<char>
    decreases n,
{
    if n < 10 {
        seq![digit_char(n as int)]
    } else {
        dec_digits(n / 10).push(digit_char((n % 10) as int))
    }
}

/// The rendering of one installed record: keyword, then the three fields
/// quoted and space-separated, then a newline.
pub open spec fn render_entry_spec(e: InstalledEntryV) -> Seq<char> {
    kw_installed() + quoted(e.id) + seq![' '] + quoted(e.version) + seq![' '] + quoted(e.source)
        + seq!['\n']
}

/// The rendering of a record sequence, in order.
pub open spec fn render_entries_spec(es: Seq<InstalledEntryV>) -> Seq<char>
    decreases es.len(),
{
    if es.len() == 0 {
        Seq::<char>::empty()
    } else {
        render_entries_spec(es.drop_last()) + render_entry_spec(es.last())
    }
}

/// The whole document: the version line, then one line per record.
pub open spec fn render_spec(v: nat, es: Seq<InstalledEntryV>) -> Seq<char> {
    kw_header() + dec_digits(v) + seq!['\n'] + render_entries_spec(es)
}

/// Whether `p` is a prefix of `s`.
pub open spec fn starts_with(s: Seq<char>, p: Seq<char>) -> bool {
    p.len() <= s.len() && s.take(p.len() as int) == p
}

/// The longest digit prefix of `s`.
pub open spec fn take_digits(s: Seq<char>) -> Seq<char>
    decreases s.len(),
{
    if s.len() > 0 && is_digit(s[0]) {
        seq![s[0]] + take_digits(s.drop_first())
    } else {
        Seq::<char>::empty()
    }
}

/// The value of a digit string, most significant digit first.
pub open spec fn digits_val(d: Seq<char>) -> int
    decreases d.len(),
{
    if d.len() == 0 {
        0
    } else {
        digits_val(d.drop_last()) * 10 + digit_val(d.last())
    }
}

/// Scanning the inside of a quoted field: the unescaped content and what
/// follows the closing quote, or nothing when the field is malformed.
pub open spec fn scan_string(s: Seq<char>) -> Option<(Seq<char>, Seq<char>)>
    decreases s.len(),
{
    if s.len() == 0 {
        None
    } else if s[0] == '"' {
        Some((Seq::<char>::empty(), s.drop_first()))
    } else if s[0] == '\\' {
        if s.len() < 2 {
            None
        } else if s[1] == '\\' || s[1] == '"' || s[1] == 'n' {
            let c = if s[1] == 'n' {
                '\n'
            } else {
                s[1]
            };
            match scan_string(s.skip(2)) {
                Some((t, r)) => Some((seq![c] + t, r)),
                None => None,
            }
        } else {
            None
        }
    } else if s[0] == '\n' {
        None
    } else {
        match scan_string(s.drop_first()) {
            Some((t, r)) => Some((seq![s[0]] + t, r)),
            None => None,
        }
    }
}

/// A quoted field: an opening quote, then its scanned inside.
pub open spec fn parse_quoted(s: Seq<char>) -> Option<(Seq<char>, Seq<char>)> {
    if s.len() > 0 && s[0] == '"' {
        scan_string(s.drop_first())
    } else {
        None
    }
}

/// One record line.
pub open spec fn parse_entry_spec(s: Seq<char>) -> Option<(InstalledEntryV, Seq<char>)> {
    if !starts_with(s, kw_installed()) {
        None
    } else {
        match parse_quoted(s.skip(kw_installed().len() as int)) {
            None => None,
            Some((id, s1)) => if s1.len() > 0 && s1[0] == ' ' {
                match parse_quoted(s1.drop_first()) {
                    None => None,
                    Some((version, s2)) => if s2.len() > 0 && s2[0] == ' ' {
                        match parse_quoted(s2.drop_first()) {
                            None => None,
                            Some((source, s3)) => if s3.len() > 0 && s3[0] == '\n' {
                                Some(
                                    (
                                        InstalledEntryV { id, version, source },
                                        s3.drop_first(),
                                    ),
                                )
                            } else {
                                None
                            },
                        }
                    } else {
                        None
                    },
                }
            } else {
                None
            },
        }
    }
}

/// All record lines to the end of the document.
pub open spec fn parse_entries_spec(s: Seq<char>) -> Option<Seq<InstalledEntryV>>
    decreases s.len(),
{
    if s.len() == 0 {
        Some(Seq::<InstalledEntryV>::empty())
    } else {
        match parse_entry_spec(s) {
            None => None,
            Some((e, r)) => if r.len() < s.len() {
                match parse_entries_spec(r) {
                    Some(es) => Some(seq![e] + es),
                    None => None,
                }
            } else {
                None
            },
        }
    }
}

/// The whole document: the version line, then the records.
pub open spec fn parse_meta_spec(s: Seq<char>) -> Option<(int, Seq<InstalledEntryV>)> {
    if !starts_with(s, kw_header()) {
        None
    } else {
        let s1 = s.skip(kw_header().len() as int);
        let d = take_digits(s1);
        if d.len() == 0 {
            None
        } else {
            let s2 = s1.skip(d.len() as int);
            if s2.len() > 0 && s2[0] == '\n' {
                match parse_entries_spec(s2.drop_first()) {
                    Some(es) => Some((digits_val(d), es)),
                    None => None,
                }
            } else {
                None
            }
        }
    }
}

/// No two entries carry the same id.
pub open spec fn unique_ids(es: Seq<InstalledEntryV>) -> bool {
    forall|i: int, j: int| 0 <= i < j < es.len() ==> es[i].id != es[j].id
}

/// Appends every character of `cs`.
fn push_all(out: &mut Vec<char>, cs: &Vec<char>)
    ensures
        final(out)@ == old(out)@ + cs@,
{
    let mut i: usize = 0;
    while i < cs.len()
        invariant
            0 <= i <= cs@.len(),
            out@ == old(out)@ + cs@.take(i as int),
        decreases cs@.len() - i,
    {
        out.push(cs[i]);
        proof {
            assert(out@ =~= old(out)@ + cs@.take(i as int + 1));
        }
        i += 1;
    }
    proof {
        assert(cs@.take(cs@.len() as int) =~= cs@);
    }
}

fn kw_header_exec() -> (r: Vec<char>)
    ensures
        r@ == kw_header(),
{
    let r = vec![
        'f',
        'o',
        'r',
        'm',
        'a',
        't',
        '_',
        'v',
        'e',
        'r',
        's',
        'i',
        'o',
        'n',
        ' ',
        '=',
        ' ',
    ];
    proof {
        assert(r@ =~= kw_header());
    }
    r
}

fn kw_installed_exec() -> (r: Vec<char>)
    ensures
        r@ == kw_installed(),
{
    let r = vec!['i', 'n', 's', 't', 'a', 'l', 'l', 'e', 'd', ' '];
    proof {
        assert(r@ =~= kw_installed());
    }
    r
}

fn digit_char_exec(d: u32) -> (c: char)
    requires
        d < 10,
    ensures
        c == digit_char(d as int),
{
    if d == 0 {
        '0'
    } else if d == 1 {
        '1'
    } else if d == 2 {
        '2'
    } else if d == 3 {
        '3'
    } else if d == 4 {
        '4'
    } else if d == 5 {
        '5'
    } else if d == 6 {
        '6'
    } else if d == 7 {
        '7'
    } else if d == 8 {
        '8'
    } else {
        '9'
    }
}

fn dec_digits_exec(n: u32) -> (r: Vec<char>)
    ensures
        r@ == dec_digits(n as nat),
    decreases n,
{
    if n < 10 {
        let r = vec![digit_char_exec(n)];
        proof {
            assert(r@ =~= dec_digits(n as nat));
        }
        r
    } else {
        let mut r = dec_digits_exec(n / 10);
        r.push(digit_char_exec(n % 10));
        proof {
            assert((n as nat) / 10 == (n / 10) as nat);
            assert((n as nat) % 10 == (n % 10) as nat);
        }
        r
    }
}

/// Appends one field, quoted and escaped.
fn push_quoted(out: &mut Vec<char>, s: &String)
    ensures
        final(out)@ == old(out)@ + quoted(s@),
{
    out.push('"');
    let cs = chars_of(s.as_str());
    let mut i: usize = 0;
    while i < cs.len()
        invariant
            cs@ == s@,
            0 <= i <= cs@.len(),
            out@ == old(out)@ + seq!['"'] + esc(s@.take(i as int)),
        decreases cs@.len() - i,
    {
        let c = cs[i];
        if c == '\\' {
            out.push('\\');
            out.push('\\');
        } else if c == '"' {
            out.push('\\');
            out.push('"');
        } else if c == '\n' {
            out.push('\\');
            out.push('n');
        } else {
            out.push(c);
        }
        proof {
            assert(s@.take(i as int + 1).drop_last() =~= s@.take(i as int));
            assert(s@.take(i as int + 1).last() == s@[i as int]);
            assert(out@ =~= old(out)@ + seq!['"'] + esc(s@.take(i as int + 1)));
        }
        i += 1;
    }
    out.push('"');
    proof {
        assert(s@.take(s@.len() as int) =~= s@);
        assert(out@ =~= old(out)@ + quoted(s@));
    }
}

/// Renders the whole store as one document: the version line, then one
/// line per installed record, in storage order.
pub fn render_metadata(m: &InstalledMetadata) -> (r: String)
    ensures
        r@ == render_spec(m.format_version as nat, m.entries()),
{
    let mut out: Vec<char> = Vec::new();
    let kwh = kw_header_exec();
    push_all(&mut out, &kwh);
    let digs = dec_digits_exec(m.format_version);
    push_all(&mut out, &digs);
    out.push('\n');
    let ghost pre = out@;
    proof {
        assert(pre =~= kw_header() + dec_digits(m.format_version as nat) + seq!['\n']);
    }
    let n = m.installed.len();
    let mut i: usize = 0;
    while i < n
        invariant
            0 <= i <= n,
            n == m.installed@.len(),
            out@ == pre + render_entries_spec(m.entries().take(i as int)),
        decreases n - i,
    {
        let e = &m.installed[i];
        let kwi = kw_installed_exec();
        push_all(&mut out, &kwi);
        push_quoted(&mut out, &e.id);
        out.push(' ');
        push_quoted(&mut out, &e.version);
        out.push(' ');
        push_quoted(&mut out, &e.source);
        out.push('\n');
        proof {
            assert(e@ == m.entries()[i as int]);
            assert(m.entries().take(i as int + 1).drop_last() =~= m.entries().take(i as int));
            assert(m.entries().take(i as int + 1).last() == m.entries()[i as int]);
            assert(out@ =~= pre + render_entries_spec(m.entries().take(i as int + 1)));
        }
        i += 1;
    }
    proof {
        assert(m.entries().take(n as int) =~= m.entries());
        assert(out@ =~= render_spec(m.format_version as nat, m.entries()));
    }
    string_from_chars(&out)
}

fn is_digit_exec(c: char) -> (b: bool)
    ensures
        b == is_digit(c),
{
    let cu = c as u32;
    48 <= cu && cu <= 57
}

/// Whether `kw` stands at position `pos` of `v`.
fn match_at(v: &Vec<char>, pos: usize, kw: &Vec<char>) -> (b: bool)
    requires
        pos <= v@.len(),
    ensures
        b == starts_with(v@.skip(pos as int), kw@),
        b ==> pos + kw@.len() <= v@.len(),
{
    let ghost s = v@.skip(pos as int);
    if v.len() - pos < kw.len() {
        return false;
    }
    let mut j: usize = 0;
    while j < kw.len()
        invariant
            0 <= j <= kw@.len(),
            pos + kw@.len() <= v@.len(),
            v@.len() <= usize::MAX,
            s == v@.skip(pos as int),
            forall|t: int| 0 <= t < j ==> v@[pos + t] == kw@[t],
        decreases kw@.len() - j,
    {
        if v[pos + j] != kw[j] {
            proof {
                if starts_with(s, kw@) {
                    assert(s.take(kw@.len() as int)[j as int] == kw@[j as int]);
                    assert(s[j as int] == v@[pos + j]);
                    assert(false);
                }
            }
            return false;
        }
        j += 1;
    }
    proof {
        assert(s.take(kw@.len() as int) =~= kw@);
    }
    true
}

/// First position at or after `pos` holding a non-digit.
fn scan_digits(v: &Vec<char>, pos: usize) -> (k: usize)
    requires
        pos <= v@.len(),
    ensures
        pos <= k <= v@.len(),
        v@.subrange(pos as int, k as int) == take_digits(v@.skip(pos as int)),
        k < v@.len() ==> !is_digit(v@[k as int]),
{
    let n = v.len();
    let mut k = pos;
    while k < n && is_digit_exec(v[k])
        invariant
            pos <= k <= n,
            n == v@.len(),
            take_digits(v@.skip(pos as int)) == v@.subrange(pos as int, k as int) + take_digits(
                v@.skip(k as int),
            ),
        decreases n - k,
    {
        proof {
            assert(v@.skip(k as int)[0] == v@[k as int]);
            assert(v@.skip(k as int).drop_first() =~= v@.skip(k as int + 1));
            assert(v@.subrange(pos as int, k as int + 1) =~= v@.subrange(pos as int, k as int)
                + seq![v@[k as int]]);
            assert(take_digits(v@.skip(k as int)) == seq![v@[k as int]] + take_digits(
                v@.skip(k as int + 1),
            ));
        }
        k += 1;
    }
    proof {
        if k < n {
            assert(v@.skip(k as int)[0] == v@[k as int]);
        }
        assert(take_digits(v@.skip(k as int)) =~= Seq::<char>::empty());
        assert(v@.subrange(pos as int, k as int) =~= v@.subrange(pos as int, k as int)
            + Seq::<char>::empty());
    }
    k
}

proof fn lemma_digits_val_nonneg(d: Seq<char>)
    ensures
        digits_val(d) >= 0,
    decreases d.len(),
{
    if d.len() > 0 {
        lemma_digits_val_nonneg(d.drop_last());
    }
}

proof fn lemma_digits_val_take_mono(d: Seq<char>, i: int)
    requires
        0 <= i <= d.len(),
    ensures
        digits_val(d.take(i)) <= digits_val(d),
    decreases d.len(),
{
    if i == d.len() {
        assert(d.take(i) =~= d);
    } else {
        assert(d.take(i) =~= d.drop_last().take(i));
        lemma_digits_val_take_mono(d.drop_last(), i);
        lemma_digits_val_nonneg(d.drop_last());
    }
}

/// The value of the digit run `v[a .. b]`, unless it exceeds `u32::MAX`.
fn digits_value(v: &Vec<char>, a: usize, b: usize) -> (r: Result<u32, ()>)
    requires
        a <= b <= v@.len(),
    ensures
        r matches Ok(x) ==> digits_val(v@.subrange(a as int, b as int)) == x,
        r is Ok <==> digits_val(v@.subrange(a as int, b as int)) <= u32::MAX,
{
    let ghost d = v@.subrange(a as int, b as int);
    let mut val: u64 = 0;
    let mut i = a;
    while i < b
        invariant
            a <= i <= b <= v@.len(),
            d == v@.subrange(a as int, b as int),
            val == digits_val(v@.subrange(a as int, i as int)),
            val <= u32::MAX as u64,
        decreases b - i,
    {
        let c = v[i];
        let cu = c as u32;
        let dv: u64 = if 48 <= cu && cu <= 57 {
            (cu - 48) as u64
        } else {
            0
        };
        proof {
            assert(dv == digit_val(c));
        }
        let nv = val * 10 + dv;
        proof {
            assert(v@.subrange(a as int, i as int + 1).drop_last() =~= v@.subrange(
                a as int,
                i as int,
            ));
            assert(v@.subrange(a as int, i as int + 1).last() == v@[i as int]);
            assert(digits_val(v@.subrange(a as int, i as int + 1)) == nv);
        }
        if nv > u32::MAX as u64 {
            proof {
                assert(d.take(i as int + 1 - a) =~= v@.subrange(a as int, i as int + 1));
                lemma_digits_val_take_mono(d, i as int + 1 - a);
            }
            return Err(());
        }
        val = nv;
        i += 1;
    }
    proof {
        assert(v@.subrange(a as int, i as int) =~= d);
    }
    Ok(val as u32)
}

/// The inside of a quoted field starting at `pos` (after the quote).
fn scan_string_exec(v: &Vec<char>, pos: usize) -> (r: Option<(Vec<char>, usize)>)
    requires
        pos <= v@.len(),
    ensures
        (match r {
            Some((c, np)) => pos <= np <= v@.len() && scan_string(v@.skip(pos as int)) == Some(
                (c@, v@.skip(np as int)),
            ),
            None => scan_string(v@.skip(pos as int)) is None,
        }),
    decreases v@.len() - pos,
{
    let ghost s = v@.skip(pos as int);
    if pos == v.len() {
        return None;
    }
    let c0 = v[pos];
    proof {
        assert(s[0] == c0);
        assert(s.drop_first() =~= v@.skip(pos as int + 1));
    }
    if c0 == '"' {
        return Some((Vec::new(), pos + 1));
    }
    if c0 == '\\' {
        if pos + 1 == v.len() {
            return None;
        }
        let c1 = v[pos + 1];
        proof {
            assert(s[1] == c1);
            assert(s.skip(2) =~= v@.skip(pos as int + 2));
        }
        if c1 == '\\' || c1 == '"' || c1 == 'n' {
            let dec = if c1 == 'n' {
                '\n'
            } else {
                c1
            };
            match scan_string_exec(v, pos + 2) {
                Some((t, np)) => {
                    let ghost tv = t@;
                    let mut t2 = t;
                    t2.insert(0, dec);
                    proof {
                        assert(t2@ =~= seq![dec] + tv);
                    }
                    return Some((t2, np));
                },
                None => {
                    return None;
                },
            }
        } else {
            return None;
        }
    }
    if c0 == '\n' {
        return None;
    }
    match scan_string_exec(v, pos + 1) {
        Some((t, np)) => {
            let ghost tv = t@;
            let mut t2 = t;
            t2.insert(0, c0);
            proof {
                assert(t2@ =~= seq![c0] + tv);
            }
            Some((t2, np))
        },
        None => None,
    }
}

/// A quoted field starting at `pos`.
fn parse_quoted_exec(v: &Vec<char>, pos: usize) -> (r: Option<(Vec<char>, usize)>)
    requires
        pos <= v@.len(),
    ensures
        (match r {
            Some((c, np)) => pos < np <= v@.len() && parse_quoted(v@.skip(pos as int)) == Some(
                (c@, v@.skip(np as int)),
            ),
            None => parse_quoted(v@.skip(pos as int)) is None,
        }),
{
    let ghost s = v@.skip(pos as int);
    if pos == v.len() {
        return None;
    }
    proof {
        assert(s[0] == v@[pos as int]);
        assert(s.drop_first() =~= v@.skip(pos as int + 1));
    }
    if v[pos] != '"' {
        return None;
    }
    scan_string_exec(v, pos + 1)
}

/// One record line starting at `pos`.
fn parse_entry_exec(v: &Vec<char>, pos: usize, kwi: &Vec<char>) -> (r: Option<
    (InstalledLocalization, usize),
>)
    requires
        pos <= v@.len(),
        kwi@ == kw_installed(),
    ensures
        (match r {
            Some((e, np)) => pos < np <= v@.len() && parse_entry_spec(v@.skip(pos as int))
                == Some((e@, v@.skip(np as int))),
            None => parse_entry_spec(v@.skip(pos as int)) is None,
        }),
{
    let ghost s = v@.skip(pos as int);
    let vn = v.len();
    if !match_at(v, pos, kwi) {
        return None;
    }
    let p1 = pos + kwi.len();
    proof {
        assert(s.skip(kw_installed().len() as int) =~= v@.skip(p1 as int));
    }
    let (idc, p2) = match parse_quoted_exec(v, p1) {
        Some(x) => x,
        None => {
            return None;
        },
    };
    if p2 == v.len() {
        return None;
    }
    proof {
        assert(v@.skip(p2 as int)[0] == v@[p2 as int]);
        assert(v@.skip(p2 as int).drop_first() =~= v@.skip(p2 as int + 1));
    }
    if v[p2] != ' ' {
        return None;
    }
    let (verc, p3) = match parse_quoted_exec(v, p2 + 1) {
        Some(x) => x,
        None => {
            return None;
        },
    };
    if p3 == v.len() {
        return None;
    }
    proof {
        assert(v@.skip(p3 as int)[0] == v@[p3 as int]);
        assert(v@.skip(p3 as int).drop_first() =~= v@.skip(p3 as int + 1));
    }
    if v[p3] != ' ' {
        return None;
    }
    let (srcc, p4) = match parse_quoted_exec(v, p3 + 1) {
        Some(x) => x,
        None => {
            return None;
        },
    };
    if p4 == v.len() {
        return None;
    }
    proof {
        assert(v@.skip(p4 as int)[0] == v@[p4 as int]);
        assert(v@.skip(p4 as int).drop_first() =~= v@.skip(p4 as int + 1));
    }
    if v[p4] != '\n' {
        return None;
    }
    let e = InstalledLocalization {
        id: string_from_chars(&idc),
        version: string_from_chars(&verc),
        source: string_from_chars(&srcc),
    };
    Some((e, p4 + 1))
}

/// All record lines from `pos` to the end of the document.
fn parse_entries_exec(v: &Vec<char>, pos: usize, kwi: &Vec<char>) -> (r: Option<
    Vec<InstalledLocalization>,
>)
    requires
        pos <= v@.len(),
        kwi@ == kw_installed(),
    ensures
        (match r {
            Some(list) => parse_entries_spec(v@.skip(pos as int)) == Some(record_views(list@)),
            None => parse_entries_spec(v@.skip(pos as int)) is None,
        }),
    decreases v@.len() - pos,
{
    let ghost s = v@.skip(pos as int);
    if pos == v.len() {
        proof {
            assert(s =~= Seq::<char>::empty());
            assert(record_views(Seq::<InstalledLocalization>::empty())
                =~= Seq::<InstalledEntryV>::empty());
        }
        return Some(Vec::new());
    }
    match parse_entry_exec(v, pos, kwi) {
        None => None,
        Some((e, np)) => {
            proof {
                assert(v@.skip(np as int).len() < s.len());
            }
            match parse_entries_exec(v, np, kwi) {
                None => None,
                Some(rest) => {
                    let ghost ev = e@;
                    let ghost restv = rest@;
                    let mut out = rest;
                    out.insert(0, e);
                    proof {
                        assert(out@ =~= seq![InstalledLocalization {
                            id: out@[0].id,
                            version: out@[0].version,
                            source: out@[0].source,
                        }] + restv) by {
                            assert(out@ == restv.insert(0, out@[0]));
                        }
                        assert forall|t: int| 0 <= t < out@.len() implies record_views(out@)[t]
                            == (seq![ev] + record_views(restv))[t] by {
                            if t == 0 {
                                assert(out@[0]@ == ev);
                            } else {
                                assert(out@[t] == restv[t - 1]);
                                assert(record_views(restv)[t - 1] == restv[t - 1]@);
                            }
                        }
                        assert(record_views(out@) =~= seq![ev] + record_views(restv));
                    }
                    Some(out)
                },
            }
        },
    }
}

/// Whether no two records share an id.
fn ids_unique_exec(list: &Vec<InstalledLocalization>) -> (b: bool)
    ensures
        b == unique_ids(record_views(list@)),
{
    let n = list.len();
    let mut i: usize = 0;
    while i < n
        invariant
            0 <= i <= n,
            n == list@.len(),
            forall|a: int, c: int|
                0 <= a < c < n && a < i ==> record_views(list@)[a].id != record_views(
                    list@,
                )[c].id,
        decreases n - i,
    {
        let mut j = i + 1;
        while j < n
            invariant
                0 <= i < j <= n,
                n == list@.len(),
                forall|c: int| i < c < j ==> record_views(list@)[i as int].id != record_views(
                    list@,
                )[c].id,
            decreases n - j,
        {
            if list[i].id.eq(&list[j].id) {
                proof {
                    assert(record_views(list@)[i as int].id == record_views(list@)[j as int].id);
                }
                return false;
            }
            j += 1;
        }
        i += 1;
    }
    true
}

/// Parses a whole document back into the store. Succeeds exactly on a
/// well-formed document whose format version fits and whose record ids are
/// pairwise distinct; everything else is a decode error.
pub fn parse_metadata(s: &str) -> (r: Result<InstalledMetadata, Error>)
    ensures
        r matches Ok(m) ==> m.wf() && parse_meta_spec(s@) == Some(
            (m.format_version as int, m.entries()),
        ),
        r is Ok <==> (match parse_meta_spec(s@) {
            Some(p) => p.0 <= u32::MAX && unique_ids(p.1),
            None => false,
        }),
        r matches Err(e) ==> e is DecodeError,
{
    let v = chars_of(s);
    let kwh = kw_header_exec();
    let kwi = kw_installed_exec();
    proof {
        assert(v@.skip(0) =~= v@);
    }
    if !match_at(&v, 0, &kwh) {
        return Err(Error::DecodeError { detail: "missing format version line".to_owned() });
    }
    let p1 = kwh.len();
    let k = scan_digits(&v, p1);
    proof {
        assert(v@.skip(0).skip(kw_header().len() as int) =~= v@.skip(p1 as int));
    }
    if k == p1 {
        return Err(Error::DecodeError { detail: "missing format version number".to_owned() });
    }
    let val = match digits_value(&v, p1, k) {
        Ok(x) => x,
        Err(()) => {
            return Err(
                Error::DecodeError { detail: "format version number too large".to_owned() },
            );
        },
    };
    proof {
        assert(v@.skip(p1 as int).skip(
            take_digits(v@.skip(p1 as int)).len() as int,
        ) =~= v@.skip(k as int));
        if k < v@.len() {
            assert(v@.skip(k as int)[0] == v@[k as int]);
            assert(v@.skip(k as int).drop_first() =~= v@.skip(k as int + 1));
        }
    }
    if k == v.len() {
        return Err(Error::DecodeError { detail: "truncated document".to_owned() });
    }
    if v[k] != '\n' {
        return Err(
            Error::DecodeError { detail: "malformed format version line".to_owned() },
        );
    }
    match parse_entries_exec(&v, k + 1, &kwi) {
        None => Err(Error::DecodeError { detail: "malformed record line".to_owned() }),
        Some(list) => {
            if !ids_unique_exec(&list) {
                return Err(
                    Error::DecodeError { detail: "duplicate localization id".to_owned() },
                );
            }
            let m = InstalledMetadata { format_version: val, installed: list };
            proof {
                assert(m.entries() == record_views(m.installed@));
            }
            Ok(m)
        },
    }
}

proof fn lemma_esc_cons(s: Seq<char>)
    requires
        s.len() > 0,
    ensures
        esc(s) == esc_char(s[0]) + esc(s.drop_first()),
    decreases s.len(),
{
    if s.len() == 1 {
        assert(s.drop_last() =~= Seq::<char>::empty());
        assert(s.drop_first() =~= Seq::<char>::empty());
        assert(esc(s) =~= esc_char(s[0]) + esc(s.drop_first()));
    } else {
        lemma_esc_cons(s.drop_last());
        assert(s.drop_last()[0] == s[0]);
        assert(s.drop_last().drop_first() =~= s.drop_first().drop_last());
        assert(s.drop_first().last() == s.last());
        assert(s.drop_first().len() > 0);
        assert(esc(s.drop_first()) == esc(s.drop_first().drop_last()) + esc_char(
            s.drop_first().last(),
        ));
        assert(esc(s) =~= esc_char(s[0]) + esc(s.drop_first()));
    }
}

proof fn lemma_scan_esc(s: Seq<char>, rest: Seq<char>)
    ensures
        scan_string(esc(s) + seq!['"'] + rest) == Some((s, rest)),
    decreases s.len(),
{
    let w = esc(s) + seq!['"'] + rest;
    if s.len() == 0 {
        assert(esc(s) =~= Seq::<char>::empty());
        assert(w[0] == '"');
        assert(w.drop_first() =~= rest);
        assert(Seq::<char>::empty() =~= s);
    } else {
        lemma_esc_cons(s);
        lemma_scan_esc(s.drop_first(), rest);
        let c = s[0];
        let tailw = esc(s.drop_first()) + seq!['"'] + rest;
        if c == '\\' {
            assert(w =~= seq!['\\', '\\'] + tailw);
            assert(w[0] == '\\' && w[1] == '\\');
            assert(w.skip(2) =~= tailw);
            assert(seq![c] + s.drop_first() =~= s);
        } else if c == '"' {
            assert(w =~= seq!['\\', '"'] + tailw);
            assert(w[0] == '\\' && w[1] == '"');
            assert(w.skip(2) =~= tailw);
            assert(seq![c] + s.drop_first() =~= s);
        } else if c == '\n' {
            assert(w =~= seq!['\\', 'n'] + tailw);
            assert(w[0] == '\\' && w[1] == 'n');
            assert(w.skip(2) =~= tailw);
            assert(seq![c] + s.drop_first() =~= s);
        } else {
            assert(w =~= seq![c] + tailw);
            assert(w[0] == c);
            assert(w.drop_first() =~= tailw);
            assert(seq![c] + s.drop_first() =~= s);
        }
    }
}

proof fn lemma_dec_digits_are_digits(n: nat)
    ensures
        dec_digits(n).len() >= 1,
        forall|i: int| 0 <= i < dec_digits(n).len() ==> is_digit(#[trigger] dec_digits(n)[i]),
    decreases n,
{
    if n < 10 {
        assert(is_digit(digit_char(n as int)));
    } else {
        lemma_dec_digits_are_digits(n / 10);
        assert(is_digit(digit_char((n % 10) as int)));
        assert forall|i: int| 0 <= i < dec_digits(n).len() implies is_digit(
            #[trigger] dec_digits(n)[i],
        ) by {
            if i < dec_digits(n / 10).len() {
                assert(dec_digits(n)[i] == dec_digits(n / 10)[i]);
            } else {
                assert(dec_digits(n)[i] == digit_char((n % 10) as int));
            }
        }
    }
}

proof fn lemma_take_digits_concat(d: Seq<char>, rest: Seq<char>)
    requires
        forall|i: int| 0 <= i < d.len() ==> is_digit(#[trigger] d[i]),
        rest.len() == 0 || !is_digit(rest[0]),
    ensures
        take_digits(d + rest) == d,
    decreases d.len(),
{
    if d.len() == 0 {
        assert(d + rest =~= rest);
        assert(take_digits(d + rest) =~= d);
    } else {
        assert((d + rest)[0] == d[0]);
        assert((d + rest).drop_first() =~= d.drop_first() + rest);
        lemma_take_digits_concat(d.drop_first(), rest);
        assert(take_digits(d + rest) =~= d);
    }
}

proof fn lemma_dec_digits_val(n: nat)
    ensures
        digits_val(dec_digits(n)) == n,
    decreases n,
{
    if n < 10 {
        let d = dec_digits(n);
        assert(d.len() == 1);
        assert(d.last() == digit_char(n as int));
        assert(d.drop_last() =~= Seq::<char>::empty());
        assert(digit_val(digit_char(n as int)) == n);
        assert(digits_val(d) == digits_val(d.drop_last()) * 10 + digit_val(d.last()));
    } else {
        lemma_dec_digits_val(n / 10);
        let dd = dec_digits(n / 10);
        let d = dec_digits(n);
        assert(d.drop_last() =~= dd);
        assert(d.last() == digit_char((n % 10) as int));
        assert(digit_val(digit_char((n % 10) as int)) == n % 10);
        assert(digits_val(d) == (n / 10) * 10 + n % 10);
        assert((n / 10) * 10 + n % 10 == n);
    }
}

proof fn lemma_render_entries_cons(es: Seq<InstalledEntryV>)
    requires
        es.len() > 0,
    ensures
        render_entries_spec(es) == render_entry_spec(es[0]) + render_entries_spec(
            es.drop_first(),
        ),
    decreases es.len(),
{
    if es.len() == 1 {
        assert(es.drop_last() =~= Seq::<InstalledEntryV>::empty());
        assert(es.drop_first() =~= Seq::<InstalledEntryV>::empty());
        assert(render_entries_spec(es) =~= render_entry_spec(es[0]) + render_entries_spec(
            es.drop_first(),
        ));
    } else {
        lemma_render_entries_cons(es.drop_last());
        assert(es.drop_last()[0] == es[0]);
        assert(es.drop_last().drop_first() =~= es.drop_first().drop_last());
        assert(es.drop_first().last() == es.last());
        assert(es.drop_first().len() > 0);
        assert(render_entries_spec(es.drop_first()) == render_entries_spec(
            es.drop_first().drop_last(),
        ) + render_entry_spec(es.drop_first().last()));
        assert(render_entries_spec(es) =~= render_entry_spec(es[0]) + render_entries_spec(
            es.drop_first(),
        ));
    }
}

#[verifier::rlimit(100)]
#[verifier::spinoff_prover]
proof fn lemma_parse_entry_round(e: InstalledEntryV, rest: Seq<char>)
    ensures
        parse_entry_spec(render_entry_spec(e) + rest) == Some((e, rest)),
{
    let w = render_entry_spec(e) + rest;
    let t3 = seq!['\n'] + rest;
    let t2 = seq![' '] + quoted(e.source) + t3;
    let t1 = seq![' '] + quoted(e.version) + t2;
    let a1 = quoted(e.id) + t1;
    assert(w =~= kw_installed() + a1);
    assert(w.take(kw_installed().len() as int) =~= kw_installed());
    assert(w.skip(kw_installed().len() as int) =~= a1);
    assert(a1[0] == '"');
    assert(a1.drop_first() =~= esc(e.id) + seq!['"'] + t1);
    lemma_scan_esc(e.id, t1);
    assert(parse_quoted(a1) == Some((e.id, t1)));
    assert(t1[0] == ' ');
    let a2 = quoted(e.version) + t2;
    assert(t1.drop_first() =~= a2);
    assert(a2[0] == '"');
    assert(a2.drop_first() =~= esc(e.version) + seq!['"'] + t2);
    lemma_scan_esc(e.version, t2);
    assert(parse_quoted(a2) == Some((e.version, t2)));
    assert(t2[0] == ' ');
    let a3 = quoted(e.source) + t3;
    assert(t2.drop_first() =~= a3);
    assert(a3[0] == '"');
    assert(a3.drop_first() =~= esc(e.source) + seq!['"'] + t3);
    lemma_scan_esc(e.source, t3);
    assert(parse_quoted(a3) == Some((e.source, t3)));
    assert(t3[0] == '\n');
    assert(t3.drop_first() =~= rest);
    assert(InstalledEntryV { id: e.id, version: e.version, source: e.source } == e);
}

#[verifier::rlimit(100)]
#[verifier::spinoff_prover]
proof fn lemma_parse_entries_round_step(e: InstalledEntryV, tail: Seq<char>, es2: Seq<
    InstalledEntryV,
>)
    requires
        parse_entries_spec(tail) == Some(es2),
    ensures
        parse_entries_spec(render_entry_spec(e) + tail) == Some(seq![e] + es2),
{
    let w = render_entry_spec(e) + tail;
    lemma_parse_entry_round(e, tail);
    assert(render_entry_spec(e).len() >= kw_installed().len());
    assert(w.len() > tail.len());
    assert(parse_entry_spec(w) == Some((e, tail)));
    assert(parse_entries_spec(w) == Some(seq![e] + es2));
}

#[verifier::spinoff_prover]
proof fn lemma_parse_entries_round(es: Seq<InstalledEntryV>)
    ensures
        parse_entries_spec(render_entries_spec(es)) == Some(es),
    decreases es.len(),
{
    let w = render_entries_spec(es);
    if es.len() == 0 {
        assert(w.len() == 0);
        assert(Seq::<InstalledEntryV>::empty() =~= es);
    } else {
        lemma_render_entries_cons(es);
        let tail = render_entries_spec(es.drop_first());
        lemma_parse_entries_round(es.drop_first());
        lemma_parse_entries_round_step(es[0], tail, es.drop_first());
        assert(w == render_entry_spec(es[0]) + tail);
        assert(seq![es[0]] + es.drop_first() =~= es);
    }
}

/// The round-trip law of the store format: parsing a rendered document
/// yields exactly the version and the record sequence that were rendered,
/// so saving and then loading the installed-localization store reproduces
/// an equal set of installed records.
pub proof fn lemma_metadata_round_trip(v: nat, es: Seq<InstalledEntryV>)
    ensures
        parse_meta_spec(render_spec(v, es)) == Some((v as int, es)),
{
    let w = render_spec(v, es);
    let tail0 = dec_digits(v) + seq!['\n'] + render_entries_spec(es);
    assert(w =~= kw_header() + tail0);
    assert(w.take(kw_header().len() as int) =~= kw_header());
    assert(w.skip(kw_header().len() as int) =~= tail0);
    lemma_dec_digits_are_digits(v);
    let nlrest = seq!['\n'] + render_entries_spec(es);
    assert(tail0 =~= dec_digits(v) + nlrest);
    assert(!is_digit('\n'));
    assert(nlrest[0] == '\n');
    lemma_take_digits_concat(dec_digits(v), nlrest);
    lemma_dec_digits_val(v);
    assert(tail0.skip(dec_digits(v).len() as int) =~= nlrest);
    assert(nlrest.drop_first() =~= render_entries_spec(es));
    lemma_parse_entries_round(es);
}

} // verus!
