//! Application settings: the remote sources to fetch catalogs from, the
//! selected source, the optional game-directory override, and the preferred
//! language, with a config-version tag and the forward migration that fills
//! in newly bundled default sources without overwriting the user's own.

use vstd::prelude::*;

verus! {

/// One remote catalog source.
pub struct LocalizationSource {
    pub name: String,
    pub url: String,
}

impl View for LocalizationSource {
    type V = (Seq<char>, Seq<char>);

    open spec fn view(&self) -> (Seq<char>, Seq<char>) {
        (self.name@, self.url@)
    }
}

/// One keyed source entry of the settings.
pub struct SourceEntry {
    pub key: String,
    pub source: LocalizationSource,
}

/// Ghost image of a source entry.
pub struct SourceEntryV {
    pub key: Seq<char>,
    pub name: Seq<char>,
    pub url: Seq<char>,
}

impl View for SourceEntry {
    type V = SourceEntryV;

    open spec fn view(&self) -> SourceEntryV {
        SourceEntryV { key: self.key@, name: self.source.name@, url: self.source.url@ }
    }
}

/// The ghost images of a list of source entries.
pub open spec fn source_views(s: Seq<SourceEntry>) -> Seq<SourceEntryV> {
    s.map(|i: int, e: SourceEntry| e@)
}

/// Whether some entry carries the given key.
pub open spec fn has_source_key(s: Seq<SourceEntryV>, key: Seq<char>) -> bool {
    exists|i: int| 0 <= i < s.len() && s[i].key == key
}

/// The persisted application settings.
pub struct AppSettings {
    /// Version tag of the settings format, for forward migration.
    pub config_version: u32,
    /// The known catalog sources, keyed by name.
    pub sources: Vec<SourceEntry>,
    /// The key of the selected source, if any.
    pub selected_source: Option<String>,
    /// An explicit game install directory, overriding discovery.
    pub game_directory: Option<String>,
    /// The preferred interface language.
    pub language: Option<String>,
}

/// The settings version this build writes.
pub const CURRENT_CONFIG_VERSION: u32 = 1;

impl AppSettings {
    /// The hardcoded fallback: current version, no sources, nothing chosen.
    pub fn default() -> (r: Self)
        ensures
            r.config_version == CURRENT_CONFIG_VERSION,
            r.sources@.len() == 0,
            r.selected_source is None,
            r.game_directory is None,
            r.language is None,
    {
        Self {
            config_version: CURRENT_CONFIG_VERSION,
            sources: Vec::new(),
            selected_source: None,
            game_directory: None,
            language: None,
        }
    }
}

/// The source list after considering the first `n` defaults: each default
/// whose key is still unknown is appended, in order.
pub open spec fn grown_sources(cur: Seq<SourceEntryV>, defs: Seq<SourceEntryV>, n: int) -> Seq<
    SourceEntryV,
>
    decreases n,
{
    if n <= 0 {
        cur
    } else {
        let g = grown_sources(cur, defs, n - 1);
        if has_source_key(g, defs[n - 1].key) {
            g
        } else {
            g.push(defs[n - 1])
        }
    }
}

/// Whether the list holds the key.
fn contains_source_key(list: &Vec<SourceEntry>, key: &String) -> (b: bool)
    ensures
        b == has_source_key(source_views(list@), key@),
{
    let n = list.len();
    let mut k: usize = 0;
    while k < n
        invariant
            0 <= k <= n,
            n == list@.len(),
            forall|t: int| 0 <= t < k ==> source_views(list@)[t].key != key@,
        decreases n - k,
    {
        if list[k].key.eq(key) {
            proof {
                assert(source_views(list@)[k as int].key == key@);
            }
            return true;
        }
        proof {
            assert(source_views(list@)[k as int] == list@[k as int]@);
        }
        k += 1;
    }
    proof {
        assert forall|t: int|
            0 <= t < source_views(list@).len() implies (#[trigger] source_views(list@)[t]).key
            != key@ by {
            assert(source_views(list@)[t].key != key@);
        }
    }
    false
}

/// Migrates settings from an older config version: defaults whose key the
/// settings do not know yet are appended (the user's own sources are never
/// overwritten), the version tag moves to the current one, and everything
/// else stays. Settings already at or past the current version are left
/// untouched, and the call reports whether anything changed.
pub fn migrate_settings(settings: &mut AppSettings, defaults: &AppSettings) -> (changed: bool)
    ensures
        changed == (old(settings).config_version < CURRENT_CONFIG_VERSION),
        !changed ==> *final(settings) == *old(settings),
        changed ==> final(settings).config_version == CURRENT_CONFIG_VERSION,
        changed ==> final(settings).selected_source == old(settings).selected_source,
        changed ==> final(settings).game_directory == old(settings).game_directory,
        changed ==> final(settings).language == old(settings).language,
        changed ==> source_views(final(settings).sources@) == grown_sources(
            source_views(old(settings).sources@),
            source_views(defaults.sources@),
            defaults.sources@.len() as int,
        ),
{
    if settings.config_version >= CURRENT_CONFIG_VERSION {
        return false;
    }
    let n = defaults.sources.len();
    let mut i: usize = 0;
    while i < n
        invariant
            0 <= i <= n,
            n == defaults.sources@.len(),
            settings.config_version == old(settings).config_version,
            settings.selected_source == old(settings).selected_source,
            settings.game_directory == old(settings).game_directory,
            settings.language == old(settings).language,
            source_views(settings.sources@) == grown_sources(
                source_views(old(settings).sources@),
                source_views(defaults.sources@),
                i as int,
            ),
        decreases n - i,
    {
        let def = &defaults.sources[i];
        proof {
            assert(def@ == source_views(defaults.sources@)[i as int]);
        }
        if !contains_source_key(&settings.sources, &def.key) {
            let entry = SourceEntry {
                key: def.key.clone(),
                source: LocalizationSource {
                    name: def.source.name.clone(),
                    url: def.source.url.clone(),
                },
            };
            let ghost prev = settings.sources@;
            proof {
                assert(entry@ == def@);
            }
            settings.sources.push(entry);
            proof {
                assert(prev.map(|t: int, e: SourceEntry| e@).len() == prev.len());
                assert forall|t: int|
                    0 <= t < settings.sources@.len() implies (#[trigger] source_views(
                    settings.sources@,
                )[t]) == grown_sources(
                    source_views(old(settings).sources@),
                    source_views(defaults.sources@),
                    i as int + 1,
                )[t] by {
                    assert(source_views(settings.sources@)[t] == settings.sources@[t]@);
                    if t < settings.sources@.len() - 1 {
                        assert(settings.sources@[t] == prev[t]);
                        assert(source_views(prev)[t] == prev[t]@);
                    }
                }
                assert(source_views(settings.sources@) =~= grown_sources(
                    source_views(old(settings).sources@),
                    source_views(defaults.sources@),
                    i as int + 1,
                ));
            }
        }
        i += 1;
    }
    settings.config_version = CURRENT_CONFIG_VERSION;
    true
}

} // verus!
