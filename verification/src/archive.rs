//! Zip archive extraction planning: every entry of the archive is read, its
//! stored path is split into segments and held to a path-traversal guard,
//! and the survivors become a list of extraction actions (make a directory,
//! write a file) whose paths are confined to the destination. An entry whose
//! stored path would escape the destination is skipped, never extracted.

use vstd::prelude::*;

verus! {

use crate::errors::Error;
use crate::text::chars_of;
use crate::text::chars_range;
use crate::text::split_from;

/// Declares std's in-memory cursor so archives over owned bytes can stand
/// in verified signatures; its value is opaque here.
#[verifier::external_type_specification]
#[verifier::external_body]
#[verifier::reject_recursive_types(T)]
pub struct ExCursor<T>(std::io::Cursor<T>);

/// Declares the zip crate's archive reader; what it holds is spoken of
/// only through `zip_entries`.
#[verifier::external_type_specification]
#[verifier::external_body]
#[verifier::reject_recursive_types(R)]
pub struct ExZipArchive<R>(zip::read::ZipArchive<R>);

/// One archive entry as read back from the zip: its stored name, whether it
/// is a directory entry, its stored POSIX mode bits if any, and its
/// decompressed bytes (empty for a directory).
pub struct ZipEntry {
    pub name: String,
    pub is_dir: bool,
    pub mode: Option<u32>,
    pub data: Vec<u8>,
}

impl View for ZipEntry {
    type V = (Seq<char>, bool, Option<u32>, Seq<u8>);

    open spec fn view(&self) -> (Seq<char>, bool, Option<u32>, Seq<u8>) {
        (self.name@, self.is_dir, self.mode, self.data@)
    }
}

/// The entries a zip archive holds, in index order: for each entry its
/// stored name, whether it is a directory, its POSIX mode bits, and its
/// decompressed contents. A function of the archive alone.
pub uninterp spec fn zip_entries(a: zip::read::ZipArchive<std::io::Cursor<Vec<u8>>>) -> Seq<
    (Seq<char>, bool, Option<u32>, Seq<u8>),
>;

/// What a byte sequence decodes to as a zip archive: its entries, or
/// nothing when the bytes are not a well-formed archive. A function of the
/// bytes alone.
pub uninterp spec fn zip_of(bytes: Seq<u8>) -> Option<
    Seq<(Seq<char>, bool, Option<u32>, Seq<u8>)>,
>;

/// Whether entry `i` of the archive reads back in full: opening it by index
/// and decompressing it to the end succeeds. Over an in-memory cursor this
/// depends on the archive alone, and reading one entry does not change
/// whether any entry reads.
pub uninterp spec fn zip_entry_ok(
    a: zip::read::ZipArchive<std::io::Cursor<Vec<u8>>>,
    i: int,
) -> bool;

/// Relies on zip::ZipArchive::new over an in-memory cursor: it reads the
/// central directory and succeeds exactly on well-formed archive bytes.
#[verifier::external_body]
pub fn open_archive(bytes: Vec<u8>) -> (r: Result<
    zip::read::ZipArchive<std::io::Cursor<Vec<u8>>>,
    Error,
>)
    ensures
        r is Ok <==> zip_of(bytes@) is Some,
        r matches Ok(a) ==> zip_of(bytes@) == Some(zip_entries(a)),
        r matches Err(e) ==> e is DecodeError,
{
    match zip::ZipArchive::new(std::io::Cursor::new(bytes)) {
        Ok(a) => Ok(a),
        Err(e) => Err(
            Error::DecodeError { detail: format!("failed to read zip archive: {}", e) },
        ),
    }
}

/// Relies on zip::ZipArchive::len: the number of entries.
#[verifier::external_body]
pub fn archive_len(a: &zip::read::ZipArchive<std::io::Cursor<Vec<u8>>>) -> (n: usize)
    ensures
        n == zip_entries(*a).len(),
{
    a.len()
}

/// Relies on zip::ZipArchive::by_index and the accessors name, is_dir and
/// unix_mode of the returned entry, plus Read::read_to_end for its
/// decompressed bytes. Reading moves only the cursor: it changes neither
/// what the archive holds nor which entries read; it fails exactly on an
/// entry whose stored data does not decompress.
#[verifier::external_body]
pub fn read_entry(a: &mut zip::read::ZipArchive<std::io::Cursor<Vec<u8>>>, i: usize) -> (r: Result<
    ZipEntry,
    Error,
>)
    requires
        i < zip_entries(*old(a)).len(),
    ensures
        zip_entries(*final(a)) == zip_entries(*old(a)),
        forall|j: int| #[trigger] zip_entry_ok(*final(a), j) == zip_entry_ok(*old(a), j),
        r is Ok <==> zip_entry_ok(*old(a), i as int),
        r matches Ok(e) ==> e@ == zip_entries(*old(a))[i as int],
        r matches Err(e) ==> e is FilesystemError,
{
    let mut f = match a.by_index(i) {
        Ok(f) => f,
        Err(e) => return Err(Error::FilesystemError { detail: format!("zip entry: {}", e) }),
    };
    let name = f.name().to_string();
    let is_dir = f.is_dir();
    let mode = f.unix_mode();
    let mut data = Vec::new();
    if let Err(e) = std::io::Read::read_to_end(&mut f, &mut data) {
        return Err(Error::FilesystemError { detail: format!("zip entry: {}", e) });
    }
    Ok(ZipEntry { name, is_dir, mode, data })
}

/// The `/`-separated segments of a path string.
pub open spec fn split_path(s: Seq<char>) -> Seq<Seq<char>> {
    crate::text::split_on(s, '/')
}

/// The path segments of an archive entry name: a trailing `/` (a directory
/// entry marker) is dropped, then the name splits on `/`.
pub open spec fn entry_segments(name: Seq<char>) -> Seq<Seq<char>> {
    if name.len() > 0 && name.last() == '/' {
        split_path(name.drop_last())
    } else {
        split_path(name)
    }
}

/// Whether one path segment is harmless: non-empty, not a current- or
/// parent-directory reference, and free of separator and drive characters
/// that could re-anchor the path on some platform.
pub open spec fn segment_ok(seg: Seq<char>) -> bool {
    &&& seg.len() > 0
    &&& seg != seq!['.']
    &&& seg != seq!['.', '.']
    &&& forall|i: int| 0 <= i < seg.len() ==> seg[i] != '\\' && seg[i] != ':' && seg[i] != '\u{0}'
}

/// The path-traversal guard: an entry name is safe exactly when it is
/// non-empty and every one of its segments is harmless, so the resolved
/// destination stays confined below the extraction directory.
pub open spec fn safe_entry_path(name: Seq<char>) -> bool {
    &&& name.len() > 0
    &&& forall|i: int|
        0 <= i < entry_segments(name).len() ==> segment_ok(#[trigger] entry_segments(name)[i])
}

/// Whether one segment passes the guard.
fn segment_ok_exec(seg: &String) -> (b: bool)
    ensures
        b == segment_ok(seg@),
{
    let cs = chars_of(seg.as_str());
    let n = cs.len();
    if n == 0 {
        proof {
            assert(!segment_ok(seg@));
        }
        return false;
    }
    if n == 1 && cs[0] == '.' {
        proof {
            assert(seg@ =~= seq!['.']);
        }
        return false;
    }
    if n == 2 && cs[0] == '.' && cs[1] == '.' {
        proof {
            assert(seg@ =~= seq!['.', '.']);
        }
        return false;
    }
    let mut k: usize = 0;
    while k < n
        invariant
            0 <= k <= n,
            n == cs@.len(),
            cs@ == seg@,
            forall|j: int| 0 <= j < k ==> seg@[j] != '\\' && seg@[j] != ':' && seg@[j] != '\u{0}',
        decreases n - k,
    {
        let c = cs[k];
        if c == '\\' || c == ':' || c == '\u{0}' {
            return false;
        }
        k += 1;
    }
    proof {
        if seg@ =~= seq!['.'] {
            assert(false);
        }
        if seg@ =~= seq!['.', '.'] {
            assert(false);
        }
    }
    true
}

/// One planned extraction step, with a guard-checked relative path.
#[derive(Clone)]
pub struct ExtractAction {
    /// The path below the destination directory, as segments.
    pub path: Vec<String>,
    /// Create a directory rather than write a file.
    pub is_dir: bool,
    /// POSIX mode bits to reapply after extraction, where stored.
    pub mode: Option<u32>,
    /// The file's decompressed bytes (empty for a directory).
    pub data: Vec<u8>,
}

/// Ghost image of an extraction action.
pub struct ActionV {
    pub path: Seq<Seq<char>>,
    pub is_dir: bool,
    pub mode: Option<u32>,
    pub data: Seq<u8>,
}

impl View for ExtractAction {
    type V = ActionV;

    open spec fn view(&self) -> ActionV {
        ActionV {
            path: self.path@.map(|i: int, s: String| s@),
            is_dir: self.is_dir,
            mode: self.mode,
            data: self.data@,
        }
    }
}

/// The ghost images of a sequence of read entries, in order.
pub open spec fn entry_views(s: Seq<ZipEntry>) -> Seq<(Seq<char>, bool, Option<u32>, Seq<u8>)> {
    s.map(|i: int, e: ZipEntry| e@)
}

/// The ghost images of a sequence of extraction actions, in order.
pub open spec fn action_views(s: Seq<ExtractAction>) -> Seq<ActionV> {
    s.map(|i: int, a: ExtractAction| a@)
}

/// The action a single safe entry turns into.
pub open spec fn action_of(e: (Seq<char>, bool, Option<u32>, Seq<u8>)) -> ActionV {
    ActionV { path: entry_segments(e.0), is_dir: e.1, mode: e.2, data: e.3 }
}

/// The extraction plan for a sequence of entries: safe entries become
/// actions in order, unsafe entries are skipped.
pub open spec fn plan_of(entries: Seq<(Seq<char>, bool, Option<u32>, Seq<u8>)>) -> Seq<ActionV>
    decreases entries.len(),
{
    if entries.len() == 0 {
        Seq::<ActionV>::empty()
    } else {
        plan_of(entries.drop_last()) + (if safe_entry_path(entries.last().0) {
            seq![action_of(entries.last())]
        } else {
            Seq::<ActionV>::empty()
        })
    }
}

/// Turns entries read from an archive into the extraction plan: exactly the
/// entries whose stored path passes the traversal guard, in order.
pub fn plan_for_entries(entries: Vec<ZipEntry>) -> (r: Vec<ExtractAction>)
    ensures
        action_views(r@) == plan_of(
            entry_views(entries@),
        ),
{
    let ghost evs = entry_views(entries@);
    let mut r: Vec<ExtractAction> = Vec::new();
    let n = entries.len();
    let mut idx: usize = 0;
    while idx < n
        invariant
            0 <= idx <= n,
            n == entries@.len(),
            evs == entry_views(entries@),
            action_views(r@) == plan_of(evs.take(idx as int)),
        decreases n - idx,
    {
        let e = &entries[idx];
        let name_chars = chars_of(e.name.as_str());
        let m = if name_chars.len() > 0 && name_chars[name_chars.len() - 1] == '/' {
            name_chars.len() - 1
        } else {
            name_chars.len()
        };
        let stem = chars_range(&name_chars, 0, m);
        let segs = split_from(&stem, 0, '/');
        proof {
            assert(stem@.skip(0) =~= stem@);
            if e.name@.len() > 0 && e.name@.last() == '/' {
                assert(stem@ =~= e.name@.drop_last());
            } else {
                assert(stem@ =~= e.name@);
            }
            assert(segs@.map(|i: int, s: String| s@) == entry_segments(e.name@));
        }
        let mut all_ok = name_chars.len() > 0;
        let mut k: usize = 0;
        while k < segs.len()
            invariant
                0 <= k <= segs@.len(),
                segs@.map(|i: int, s: String| s@) == entry_segments(e.name@),
                all_ok == (e.name@.len() > 0 && forall|j: int|
                    0 <= j < k ==> segment_ok(#[trigger] entry_segments(e.name@)[j])),
            decreases segs@.len() - k,
        {
            let ok = segment_ok_exec(&segs[k]);
            proof {
                assert(segs@[k as int]@ == entry_segments(e.name@)[k as int]);
            }
            all_ok = all_ok && ok;
            k += 1;
        }
        proof {
            assert(all_ok == safe_entry_path(e.name@));
        }
        if all_ok {
            let mode = match &e.mode {
                Some(b) => Some(*b),
                None => None,
            };
            let mut data: Vec<u8> = Vec::new();
            let mut t: usize = 0;
            while t < e.data.len()
                invariant
                    0 <= t <= e.data@.len(),
                    data@ == e.data@.take(t as int),
                decreases e.data@.len() - t,
            {
                data.push(e.data[t]);
                proof {
                    assert(data@ =~= e.data@.take(t as int + 1));
                }
                t += 1;
            }
            proof {
                assert(data@ =~= e.data@);
            }
            let action = ExtractAction { path: segs, is_dir: e.is_dir, mode, data };
            r.push(action);
            proof {
                assert(action@ == action_of(evs[idx as int]));
            }
        }
        proof {
            assert(evs.take(idx as int + 1).drop_last() =~= evs.take(idx as int));
            assert(evs.take(idx as int + 1).last() == evs[idx as int]);
            assert(action_views(r@) =~= plan_of(evs.take(idx as int + 1)));
        }
        idx += 1;
    }
    proof {
        assert(evs.take(n as int) =~= evs);
    }
    r
}

/// Reads every entry of the archive and returns the extraction plan for
/// it. It succeeds exactly when every entry reads back in full; one corrupt
/// entry aborts the whole extraction (no partial-archive recovery).
pub fn extract_plan(a: &mut zip::read::ZipArchive<std::io::Cursor<Vec<u8>>>) -> (r: Result<
    Vec<ExtractAction>,
    Error,
>)
    ensures
        zip_entries(*final(a)) == zip_entries(*old(a)),
        r is Ok <==> (forall|i: int|
            0 <= i < zip_entries(*old(a)).len() ==> #[trigger] zip_entry_ok(*old(a), i)),
        r matches Ok(v) ==> action_views(v@) == plan_of(
            zip_entries(*old(a)),
        ),
        r matches Err(e) ==> e is FilesystemError,
{
    let n = archive_len(a);
    let mut entries: Vec<ZipEntry> = Vec::new();
    let mut i: usize = 0;
    while i < n
        invariant
            0 <= i <= n,
            n == zip_entries(*a).len(),
            zip_entries(*a) == zip_entries(*old(a)),
            forall|j: int| #[trigger] zip_entry_ok(*a, j) == zip_entry_ok(*old(a), j),
            forall|j: int| 0 <= j < i ==> #[trigger] zip_entry_ok(*old(a), j),
            entry_views(entries@) == zip_entries(*old(a)).take(i as int),
        decreases n - i,
    {
        let ghost before = *a;
        match read_entry(a, i) {
            Ok(e) => {
                proof {
                    assert(zip_entry_ok(before, i as int));
                    assert(zip_entry_ok(*old(a), i as int));
                }
                let ghost prev = entries@;
                entries.push(e);
                proof {
                    assert(entry_views(prev).len() == prev.len());
                    assert(zip_entries(*old(a)).take(i as int).len() == i as int);
                    assert(prev.len() == i as int);
                    assert(entries@ == prev.push(e));
                    assert forall|k: int| 0 <= k < i as int + 1 implies entry_views(entries@)[k]
                        == zip_entries(*old(a))[k] by {
                        assert(entry_views(entries@)[k] == entries@[k]@);
                        if k < i as int {
                            assert(entries@[k] == prev[k]);
                            assert(entry_views(prev)[k] == prev[k]@);
                            assert(entry_views(prev)[k] == zip_entries(*old(a)).take(i as int)[k]);
                        } else {
                            assert(entries@[k] == e);
                        }
                    }
                    assert(entry_views(entries@) =~= zip_entries(*old(a)).take(
                        i as int + 1,
                    ));
                }
            },
            Err(e) => {
                proof {
                    assert(!zip_entry_ok(before, i as int));
                    assert(!zip_entry_ok(*old(a), i as int));
                }
                return Err(e);
            },
        }
        i += 1;
    }
    proof {
        assert(zip_entries(*old(a)).take(n as int) =~= zip_entries(*old(a)));
        assert(entry_views(entries@) == zip_entries(*old(a)));
    }
    Ok(plan_for_entries(entries))
}

/// The path-traversal guard law: every action an extraction plan emits has
/// a non-empty path made of harmless segments only, so nothing the plan
/// writes can land outside the destination directory.
pub proof fn lemma_plan_paths_safe(entries: Seq<(Seq<char>, bool, Option<u32>, Seq<u8>)>)
    ensures
        forall|i: int, j: int|
            0 <= i < plan_of(entries).len() && 0 <= j < plan_of(entries)[i].path.len()
                ==> segment_ok(#[trigger] plan_of(entries)[i].path[j]),
        forall|i: int| 0 <= i < plan_of(entries).len() ==> #[trigger] plan_of(
            entries,
        )[i].path.len() > 0,
    decreases entries.len(),
{
    if entries.len() > 0 {
        lemma_plan_paths_safe(entries.drop_last());
        if safe_entry_path(entries.last().0) {
            assert(plan_of(entries) == plan_of(entries.drop_last()) + seq![
                action_of(entries.last()),
            ]);
            let a = action_of(entries.last());
            assert(a.path.len() >= 1);
        }
    }
}

} // verus!
