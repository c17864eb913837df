//! The shared, content-addressed font cache: cache keys derived from the
//! expected content hash and a normalized extension, and the decisions that
//! make the cache self-healing (a cached file that no longer matches its
//! claimed hash is deleted and downloaded again, never trusted).

use vstd::prelude::*;

verus! {

use crate::models::Font;
use crate::text::chars_of;
use crate::text::string_from_chars;

/// The extension of the final path segment of a URL: the characters after
/// the last `.` that is not followed by a `/`, if any.
pub open spec fn url_ext(u: Seq<char>) -> Option<Seq<char>>
    decreases u.len(),
{
    if u.len() == 0 {
        None
    } else if u.last() == '/' {
        None
    } else if u.last() == '.' {
        Some(Seq::<char>::empty())
    } else {
        match url_ext(u.drop_last()) {
            None => None,
            Some(e) => Some(e.push(u.last())),
        }
    }
}

/// Case-insensitively the extension `ttf`.
pub open spec fn is_ttf_ext(e: Seq<char>) -> bool {
    e.len() == 3 && (e[0] == 't' || e[0] == 'T') && (e[1] == 't' || e[1] == 'T') && (e[2] == 'f'
        || e[2] == 'F')
}

/// Case-insensitively the extension `otf`.
pub open spec fn is_otf_ext(e: Seq<char>) -> bool {
    e.len() == 3 && (e[0] == 'o' || e[0] == 'O') && (e[1] == 't' || e[1] == 'T') && (e[2] == 'f'
        || e[2] == 'F')
}

/// The normalized extension a cache entry is stored under: the URL's own
/// extension when it is `ttf` or `otf` in any casing, and `ttf` otherwise.
pub open spec fn normalized_extension(u: Seq<char>) -> Seq<char> {
    match url_ext(u) {
        Some(e) => if is_otf_ext(e) {
            seq!['o', 't', 'f']
        } else {
            seq!['t', 't', 'f']
        },
        None => seq!['t', 't', 'f'],
    }
}

/// The cache key a font is stored under: its expected content hash, a dot,
/// and the normalized extension. Content-addressed: independent of the
/// localization the font belongs to.
pub open spec fn cache_file_name_spec(f: Font) -> Seq<char> {
    f.hash@ + seq!['.'] + normalized_extension(f.url@)
}

/// Computes the file name a font is cached under.
pub fn font_cache_file_name(font: &Font) -> (r: String)
    ensures
        r@ == cache_file_name_spec(*font),
{
    let url_chars = chars_of(font.url.as_str());
    let ext = find_url_ext(&url_chars, url_chars.len());
    proof {
        assert(url_chars@.subrange(0, url_chars@.len() as int) =~= url_chars@);
    }
    let otf = match &ext {
        Some(e) => {
            let is_otf = e.len() == 3 && (e[0] == 'o' || e[0] == 'O') && (e[1] == 't' || e[1]
                == 'T') && (e[2] == 'f' || e[2] == 'F');
            is_otf
        },
        None => false,
    };
    let mut name = chars_of(font.hash.as_str());
    name.push('.');
    if otf {
        name.push('o');
        name.push('t');
        name.push('f');
    } else {
        name.push('t');
        name.push('t');
        name.push('f');
    }
    proof {
        assert(name@ =~= cache_file_name_spec(*font));
    }
    string_from_chars(&name)
}

/// The extension of `u[0 .. n]`, as `url_ext` defines it.
fn find_url_ext(u: &Vec<char>, n: usize) -> (r: Option<Vec<char>>)
    requires
        n <= u@.len(),
    ensures
        (match r {
            Some(e) => url_ext(u@.subrange(0, n as int)) == Some(e@),
            None => url_ext(u@.subrange(0, n as int)) is None,
        }),
    decreases n,
{
    if n == 0 {
        return None;
    }
    let c = u[n - 1];
    proof {
        assert(u@.subrange(0, n as int).last() == c);
        assert(u@.subrange(0, n as int).drop_last() =~= u@.subrange(0, n as int - 1));
    }
    if c == '/' {
        None
    } else if c == '.' {
        Some(Vec::new())
    } else {
        match find_url_ext(u, n - 1) {
            None => None,
            Some(mut e) => {
                e.push(c);
                Some(e)
            },
        }
    }
}

/// What is known of a file that may already hold the wanted content: it is
/// absent, it exists but could not be read and digested, or it exists and
/// digests to the given hash.
pub enum CachedFileStatus {
    Absent,
    Unreadable,
    Hashed(String),
}

/// What to do about a cache entry before it can be reused.
pub struct FontCachePlan {
    /// Delete the existing cache file first: it exists but does not
    /// provably hold the expected content.
    pub delete_cached: bool,
    /// Download the font anew: no valid cache entry remains.
    pub download: bool,
}

/// Decides how to bring a cache entry into a valid state: a cached file is
/// reused exactly when its recomputed digest equals the expected hash; a
/// mismatched or unreadable file is deleted and downloaded again (the cache
/// repairs corruption, it never trusts the entry).
pub fn plan_cache_refresh(status: &CachedFileStatus, expected_hash: &String) -> (r: FontCachePlan)
    ensures
        r.download == !(status matches CachedFileStatus::Hashed(h) && h@ == expected_hash@),
        r.delete_cached == (status is Unreadable || (status matches CachedFileStatus::Hashed(h)
            && h@ != expected_hash@)),
{
    match status {
        CachedFileStatus::Absent => FontCachePlan { delete_cached: false, download: true },
        CachedFileStatus::Unreadable => FontCachePlan { delete_cached: true, download: true },
        CachedFileStatus::Hashed(h) => {
            if h.eq(expected_hash) {
                FontCachePlan { delete_cached: false, download: false }
            } else {
                FontCachePlan { delete_cached: true, download: true }
            }
        },
    }
}

/// Decides whether the font must be copied from the cache into the
/// localization's `Font` directory: the copy is skipped exactly when a file
/// already present at the destination digests to the expected hash
/// (idempotent re-install); an absent, unreadable, or mismatched destination
/// file is overwritten.
pub fn plan_target_copy(status: &CachedFileStatus, expected_hash: &String) -> (copy: bool)
    ensures
        copy == !(status matches CachedFileStatus::Hashed(h) && h@ == expected_hash@),
{
    match status {
        CachedFileStatus::Hashed(h) => !h.eq(expected_hash),
        _ => true,
    }
}

} // verus!
