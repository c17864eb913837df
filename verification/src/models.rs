//! The data model of the engine: catalog records received from a remote
//! source and the durable record of what is installed locally.

use vstd::prelude::*;

verus! {

/// Layout of a localization archive: where the installable payload sits
/// inside the extracted tree.
#[derive(Clone)]
pub enum Format {
    /// The payload is wrapped in a nested tree and must be located by
    /// searching for the marker directory.
    Compatible,
    /// The archive root is the payload itself.
    New,
    /// Same search strategy as `Compatible`.
    Auto,
    /// An unrecognized tag, kept verbatim; it is a hard error to resolve
    /// a layout with it, never a silent default.
    Unknown(String),
}

/// A font needed by a localization. Identity for caching purposes is the
/// expected content hash, not the filename.
#[derive(Clone)]
pub struct Font {
    /// Where the font file is downloaded from.
    pub url: String,
    /// Expected lowercase hex digest of the font file contents.
    pub hash: String,
    /// Filename the font gets inside the localization's `Font` directory.
    pub name: String,
}

/// One localization as listed by the remote catalog. Immutable once
/// received; one record per id per fetch.
#[derive(Clone)]
pub struct Localization {
    /// Stable unique identifier.
    pub id: String,
    /// Opaque version string, compared only for equality.
    pub version: String,
    /// Human readable name.
    pub name: String,
    /// Country code for the flag.
    pub flag: String,
    /// Icon URL.
    pub icon: String,
    /// Description in markdown.
    pub description: String,
    /// List of authors.
    pub authors: Vec<String>,
    /// URL of the zip archive.
    pub url: String,
    /// Expected size of the zip archive in bytes, checked for integrity.
    pub size: u64,
    /// Fonts to install alongside the payload.
    pub fonts: Vec<Font>,
    /// Archive layout.
    pub format: Format,
}

/// The decoded catalog envelope: a format-version field and the record list.
#[derive(Clone)]
pub struct AvailableLocalizations {
    /// Version tag of the catalog format.
    pub format_version: u32,
    /// The records themselves.
    pub localizations: Vec<Localization>,
}

/// The durable record of one installed localization.
#[derive(Clone)]
pub struct InstalledLocalization {
    /// Stable unique identifier.
    pub id: String,
    /// The installed version.
    pub version: String,
    /// Name of the source the package came from.
    pub source: String,
}

/// Ghost image of an installed record: its three fields as character
/// sequences.
pub struct InstalledEntryV {
    pub id: Seq<char>,
    pub version: Seq<char>,
    pub source: Seq<char>,
}

impl View for InstalledLocalization {
    type V = InstalledEntryV;

    open spec fn view(&self) -> InstalledEntryV {
        InstalledEntryV { id: self.id@, version: self.version@, source: self.source@ }
    }
}

/// The set of installed localizations, with a format version tag. At most
/// one entry per localization id.
#[derive(Clone)]
pub struct InstalledMetadata {
    /// Version tag of the persisted format.
    pub format_version: u32,
    /// The installed records, at most one per id.
    pub installed: Vec<InstalledLocalization>,
}

/// The current version tag written into fresh metadata.
pub const METADATA_FORMAT_VERSION: u32 = 1;

/// The ghost images of a sequence of installed records, in order.
pub open spec fn record_views(s: Seq<InstalledLocalization>) -> Seq<InstalledEntryV> {
    s.map(|i: int, e: InstalledLocalization| e@)
}

impl InstalledMetadata {
    /// The records as a sequence of ghost entries, in storage order.
    pub open spec fn entries(self) -> Seq<InstalledEntryV> {
        record_views(self.installed@)
    }

    /// Whether some record carries the given id.
    pub open spec fn has_id(self, id: Seq<char>) -> bool {
        exists|i: int| 0 <= i < self.entries().len() && self.entries()[i].id == id
    }

    /// The record carrying the given id; meaningful only under `wf`.
    pub open spec fn entry_for(self, id: Seq<char>) -> InstalledEntryV {
        self.entries()[choose|i: int|
            0 <= i < self.entries().len() && self.entries()[i].id == id]
    }

    /// At most one record per localization id.
    pub open spec fn wf(self) -> bool {
        forall|i: int, j: int|
            0 <= i < j < self.entries().len() ==> self.entries()[i].id != self.entries()[j].id
    }

    /// A fresh, empty record set at the current format version.
    pub fn new() -> (r: Self)
        ensures
            r.format_version == METADATA_FORMAT_VERSION,
            r.entries() == Seq::<InstalledEntryV>::empty(),
            r.wf(),
    {
        let r = Self { format_version: METADATA_FORMAT_VERSION, installed: Vec::new() };
        proof {
            assert(r.entries() =~= Seq::<InstalledEntryV>::empty());
        }
        r
    }

    /// A fresh record set holding exactly the given localization, attributed
    /// to the given source.
    pub fn with_localization(localization: &Localization, source: &String) -> (r: Self)
        ensures
            r.format_version == METADATA_FORMAT_VERSION,
            r.entries() =~= seq![
                InstalledEntryV {
                    id: localization.id@,
                    version: localization.version@,
                    source: source@,
                },
            ],
            r.wf(),
    {
        let mut r = Self::new();
        r.upsert(&localization.id, &localization.version, source);
        r
    }

    /// Inserts or replaces the record for the given id (replace keeps the
    /// record's position; insert appends).
    pub fn upsert(&mut self, id: &String, version: &String, source: &String)
        requires
            old(self).wf(),
        ensures
            final(self).wf(),
            final(self).format_version == old(self).format_version,
            final(self).has_id(id@),
            old(self).has_id(id@) ==> exists|i: int|
                0 <= i < old(self).entries().len() && old(self).entries()[i].id == id@
                    && final(self).entries() == old(self).entries().update(
                    i,
                    InstalledEntryV { id: id@, version: version@, source: source@ },
                ),
            !old(self).has_id(id@) ==> final(self).entries() == old(self).entries().push(
                InstalledEntryV { id: id@, version: version@, source: source@ },
            ),
    {
        let entry = InstalledLocalization {
            id: id.clone(),
            version: version.clone(),
            source: source.clone(),
        };
        let n = self.installed.len();
        let mut k: usize = 0;
        while k < n
            invariant
                n == self.installed.len(),
                0 <= k <= n,
                forall|j: int| 0 <= j < k ==> self.entries()[j].id != id@,
                *self == *old(self),
                old(self).wf(),
                entry@ == (InstalledEntryV { id: id@, version: version@, source: source@ }),
            decreases n - k,
        {
            if self.installed[k].id.eq(id) {
                proof {
                    assert(old(self).entries()[k as int].id == id@);
                }
                self.installed.remove(k);
                self.installed.insert(k, entry);
                proof {
                    let g = InstalledEntryV { id: id@, version: version@, source: source@ };
                    assert(self.entries() =~= old(self).entries().update(k as int, g));
                    assert forall|i: int, j: int|
                        0 <= i < j < self.entries().len() implies self.entries()[i].id
                        != self.entries()[j].id by {
                        if i != k && j != k {
                            assert(old(self).entries()[i].id != old(self).entries()[j].id);
                        } else if i == k {
                            assert(old(self).entries()[k as int].id != old(
                                self,
                            ).entries()[j].id);
                        } else {
                            assert(old(self).entries()[i].id != old(
                                self,
                            ).entries()[k as int].id);
                        }
                    }
                    assert(self.entries()[k as int].id == id@);
                }
                return ;
            }
            k += 1;
        }
        self.installed.push(entry);
        proof {
            assert(self.entries() =~= old(self).entries().push(entry@));
            assert(self.entries()[self.entries().len() - 1].id == id@);
        }
    }

    /// Removes the record for the given id, if present; reports whether one
    /// was removed.
    pub fn remove(&mut self, id: &String) -> (removed: bool)
        requires
            old(self).wf(),
        ensures
            final(self).wf(),
            final(self).format_version == old(self).format_version,
            removed == old(self).has_id(id@),
            !final(self).has_id(id@),
            removed ==> exists|i: int|
                0 <= i < old(self).entries().len() && old(self).entries()[i].id == id@
                    && final(self).entries() == old(self).entries().remove(i),
            !removed ==> final(self).entries() == old(self).entries(),
    {
        let n = self.installed.len();
        let mut k: usize = 0;
        while k < n
            invariant
                n == self.installed.len(),
                0 <= k <= n,
                forall|j: int| 0 <= j < k ==> self.entries()[j].id != id@,
                *self == *old(self),
                old(self).wf(),
            decreases n - k,
        {
            if self.installed[k].id.eq(id) {
                proof {
                    assert(old(self).entries()[k as int].id == id@);
                }
                self.installed.remove(k);
                proof {
                    assert(self.entries() =~= old(self).entries().remove(k as int));
                    assert forall|m: int| 0 <= m < self.entries().len() implies self.entries()[m].id
                        != id@ by {
                        if m < k as int {
                            assert(self.entries()[m] == old(self).entries()[m]);
                            assert(old(self).entries()[m].id != old(
                                self,
                            ).entries()[k as int].id);
                        } else {
                            assert(self.entries()[m] == old(self).entries()[m + 1]);
                            assert(old(self).entries()[m + 1].id != old(
                                self,
                            ).entries()[k as int].id);
                        }
                    }
                    assert forall|i: int, j: int|
                        0 <= i < j < self.entries().len() implies self.entries()[i].id
                        != self.entries()[j].id by {
                        let ii: int = if i < k as int {
                            i
                        } else {
                            i + 1
                        };
                        let jj: int = if j < k as int {
                            j
                        } else {
                            j + 1
                        };
                        assert(self.entries()[i] == old(self).entries()[ii]);
                        assert(self.entries()[j] == old(self).entries()[jj]);
                        assert(old(self).entries()[ii].id != old(self).entries()[jj].id);
                    }
                }
                return true;
            }
            k += 1;
        }
        false
    }

    /// Looks up the record for the given id.
    pub fn get(&self, id: &String) -> (r: Option<&InstalledLocalization>)
        requires
            self.wf(),
        ensures
            r is Some <==> self.has_id(id@),
            r matches Some(e) ==> e@ == self.entry_for(id@) && e@.id == id@,
    {
        let n = self.installed.len();
        let mut k: usize = 0;
        while k < n
            invariant
                n == self.installed.len(),
                0 <= k <= n,
                self.wf(),
                forall|j: int| 0 <= j < k ==> self.entries()[j].id != id@,
            decreases n - k,
        {
            if self.installed[k].id.eq(id) {
                let e = &self.installed[k];
                proof {
                    let i = choose|i: int|
                        0 <= i < self.entries().len() && self.entries()[i].id == id@;
                    assert(self.entries()[k as int].id == id@);
                    assert(i == k as int);
                }
                return Some(e);
            }
            k += 1;
        }
        None
    }
}

} // verus!
