use limbus_localization_manager::archive::{extract_plan, open_archive, ExtractAction};
use limbus_localization_manager::download::DownloadSession;
use limbus_localization_manager::errors::Error;
use limbus_localization_manager::fontcache::{
    font_cache_file_name, plan_cache_refresh, plan_target_copy, CachedFileStatus,
};
use limbus_localization_manager::gamedir::{
    game_config_action, validate_game_directory, GameConfigAction,
};
use limbus_localization_manager::hashing::{hash_bytes, ContentHasher};
use limbus_localization_manager::install::{commit_plan, lang_directory_segments};
use limbus_localization_manager::locks::LockRegistry;
use limbus_localization_manager::metadata_codec::{parse_metadata, render_metadata};
use limbus_localization_manager::models::{
    Font, Format, InstalledMetadata, Localization,
};
use limbus_localization_manager::orchestrator::{
    ensure_game_not_running, evaluate_updates, UpdateDecision,
};
use limbus_localization_manager::resolver::find_language_directory;
use limbus_localization_manager::settings::{
    migrate_settings, AppSettings, LocalizationSource, SourceEntry, CURRENT_CONFIG_VERSION,
};
use limbus_localization_manager::vdf::{line_has_key, line_value, quoted_field};

use std::collections::HashMap;
use std::io::Write;

fn sample_localization(id: &str, version: &str) -> Localization {
    Localization {
        id: id.to_string(),
        version: version.to_string(),
        name: format!("Localization {}", id),
        flag: "kr".to_string(),
        icon: "https://example.invalid/icon.png".to_string(),
        description: "a package".to_string(),
        authors: vec!["author".to_string()],
        url: "https://example.invalid/localization.zip".to_string(),
        size: 1000,
        fonts: Vec::new(),
        format: Format::New,
    }
}

// ---- ContentHasher (determinism, exact digest) ----

#[test]
fn hash_is_deterministic_across_calls() {
    let data = b"the same bytes fed twice".to_vec();
    let first = hash_bytes(&data);
    let second = hash_bytes(&data);
    assert_eq!(first, second);
}

#[test]
fn hash_matches_known_digest() {
    // MD5("abc"), the classic reference value.
    let digest = hash_bytes(b"abc");
    assert_eq!(digest, "900150983cd24fb0d6963f7d28e17f72");
    let empty = hash_bytes(b"");
    assert_eq!(empty, "d41d8cd98f00b204e9800998ecf8427e");
}

#[test]
fn hash_is_chunking_independent() {
    let mut h = ContentHasher::new();
    h.update(b"ab");
    h.update(b"c");
    let streamed = h.finish();
    assert_eq!(streamed, hash_bytes(b"abc"));
}

// ---- PerKeyLockRegistry model ----

#[test]
fn same_key_same_slot_different_key_different_slot() {
    let mut reg = LockRegistry::new();
    let id_a = "A".to_string();
    let id_b = "B".to_string();
    let root1 = "/games/one".to_string();
    let root2 = "/games/two".to_string();
    let s1 = reg.slot_for(&id_a, &root1);
    let s2 = reg.slot_for(&id_a, &root1);
    assert_eq!(s1, s2);
    let s3 = reg.slot_for(&id_b, &root1);
    assert_ne!(s1, s3);
    let s4 = reg.slot_for(&id_a, &root2);
    assert_ne!(s1, s4);
    assert_ne!(s3, s4);
    assert_eq!(reg.len(), 3);
}

// ---- InstalledMetadataStore round trip ----

#[test]
fn metadata_round_trip_reproduces_records() {
    let mut m = InstalledMetadata::new();
    m.upsert(&"kr".to_string(), &"1.2.3".to_string(), &"main".to_string());
    m.upsert(&"jp".to_string(), &"0.9".to_string(), &"mirror".to_string());
    let text = render_metadata(&m);
    let back = parse_metadata(&text).expect("rendered document must parse");
    assert_eq!(back.format_version, m.format_version);
    assert_eq!(back.installed.len(), 2);
    assert_eq!(back.installed[0].id, "kr");
    assert_eq!(back.installed[0].version, "1.2.3");
    assert_eq!(back.installed[0].source, "main");
    assert_eq!(back.installed[1].id, "jp");
    assert_eq!(back.installed[1].version, "0.9");
    assert_eq!(back.installed[1].source, "mirror");
}

#[test]
fn metadata_round_trip_survives_awkward_characters() {
    let mut m = InstalledMetadata::new();
    let id = "we\"ird\\id".to_string();
    let version = "line\nbreak".to_string();
    let source = "tab\tand \u{263A} unicode".to_string();
    m.upsert(&id, &version, &source);
    let text = render_metadata(&m);
    let back = parse_metadata(&text).expect("escaped document must parse");
    assert_eq!(back.installed.len(), 1);
    assert_eq!(back.installed[0].id, id);
    assert_eq!(back.installed[0].version, version);
    assert_eq!(back.installed[0].source, source);
}

#[test]
fn metadata_renders_exact_document() {
    let mut m = InstalledMetadata::new();
    m.upsert(&"a".to_string(), &"1".to_string(), &"src".to_string());
    let text = render_metadata(&m);
    assert_eq!(text, "format_version = 1\ninstalled \"a\" \"1\" \"src\"\n");
}

#[test]
fn metadata_parse_rejects_garbage_and_duplicates() {
    assert!(matches!(
        parse_metadata("not a document"),
        Err(Error::DecodeError { .. })
    ));
    assert!(matches!(
        parse_metadata("format_version = 99999999999\n"),
        Err(Error::DecodeError { .. })
    ));
    let doc = "format_version = 1\ninstalled \"a\" \"1\" \"s\"\ninstalled \"a\" \"2\" \"s\"\n";
    assert!(matches!(parse_metadata(doc), Err(Error::DecodeError { .. })));
    let fresh = parse_metadata("format_version = 1\n").expect("empty store parses");
    assert_eq!(fresh.installed.len(), 0);
}

#[test]
fn metadata_upsert_and_remove_keep_one_record_per_id() {
    let loc = sample_localization("kr", "2");
    let mut m = InstalledMetadata::with_localization(&loc, &"main".to_string());
    assert_eq!(m.installed.len(), 1);
    m.upsert(&"kr".to_string(), &"3".to_string(), &"main".to_string());
    assert_eq!(m.installed.len(), 1);
    assert_eq!(m.installed[0].version, "3");
    let removed = m.remove(&"kr".to_string());
    assert!(removed);
    assert_eq!(m.installed.len(), 0);
    let removed_again = m.remove(&"kr".to_string());
    assert!(!removed_again);
}

// ---- Install idempotence (replace semantics), simulated apply ----

fn apply_commit(
    tree: &mut HashMap<Vec<String>, Vec<u8>>,
    target: &[String],
    actions: &[ExtractAction],
) {
    tree.retain(|path, _| {
        !(path.len() >= target.len() && path[..target.len()] == *target)
    });
    for a in actions {
        if !a.is_dir {
            let mut full = target.to_vec();
            full.extend(a.path.iter().cloned());
            tree.insert(full, a.data.clone());
        }
    }
}

#[test]
fn installing_twice_equals_installing_once() {
    let actions = vec![
        ExtractAction {
            path: vec!["StoryData".to_string(), "tale.txt".to_string()],
            is_dir: false,
            mode: None,
            data: b"new story".to_vec(),
        },
        ExtractAction {
            path: vec!["readme.md".to_string()],
            is_dir: false,
            mode: None,
            data: b"hello".to_vec(),
        },
    ];
    let target = lang_directory_segments(&"kr".to_string());
    let mut tree: HashMap<Vec<String>, Vec<u8>> = HashMap::new();
    tree.insert(
        vec![
            "LimbusCompany_Data".to_string(),
            "Lang".to_string(),
            "kr".to_string(),
            "stale.txt".to_string(),
        ],
        b"old version leftovers".to_vec(),
    );
    tree.insert(vec!["unrelated.txt".to_string()], b"keep me".to_vec());

    let mut once = tree.clone();
    apply_commit(&mut once, &target, &actions);
    let mut twice = tree.clone();
    apply_commit(&mut twice, &target, &actions);
    apply_commit(&mut twice, &target, &actions);

    assert_eq!(once, twice);
    assert!(once.contains_key(&vec!["unrelated.txt".to_string()]));
    assert!(!once.contains_key(&vec![
        "LimbusCompany_Data".to_string(),
        "Lang".to_string(),
        "kr".to_string(),
        "stale.txt".to_string(),
    ]));
}

// ---- Font cache ----

#[test]
fn cache_file_name_normalizes_extension() {
    let mut font = Font {
        url: "https://example.invalid/fonts/Pretendard.OTF".to_string(),
        hash: "deadbeef".to_string(),
        name: "font.otf".to_string(),
    };
    assert_eq!(font_cache_file_name(&font), "deadbeef.otf");
    font.url = "https://example.invalid/fonts/Pretendard.woff".to_string();
    assert_eq!(font_cache_file_name(&font), "deadbeef.ttf");
    font.url = "https://example.invalid/fonts/no-extension".to_string();
    assert_eq!(font_cache_file_name(&font), "deadbeef.ttf");
    font.url = "https://example.invalid/fonts/Pretendard.ttf".to_string();
    assert_eq!(font_cache_file_name(&font), "deadbeef.ttf");
}

#[test]
fn corrupted_cache_entry_is_deleted_and_redownloaded() {
    let font_bytes = b"this is the true font content".to_vec();
    let expected_hash = hash_bytes(&font_bytes);

    // The cached file was corrupted: its digest no longer matches its key.
    let corrupted_hash = hash_bytes(b"corrupted bytes on disk");
    let plan = plan_cache_refresh(&CachedFileStatus::Hashed(corrupted_hash), &expected_hash);
    assert!(plan.delete_cached);
    assert!(plan.download);

    // The re-download streams the true content and validates it.
    let mut session = DownloadSession::begin(None, Some(expected_hash.clone()));
    session.feed(&font_bytes);
    let digest = session.finish().expect("matching content must be accepted");
    assert_eq!(digest, expected_hash);

    // A healthy entry is reused without any download.
    let plan = plan_cache_refresh(&CachedFileStatus::Hashed(digest), &expected_hash);
    assert!(!plan.delete_cached);
    assert!(!plan.download);
    assert!(plan_cache_refresh(&CachedFileStatus::Absent, &expected_hash).download);
    assert!(plan_cache_refresh(&CachedFileStatus::Unreadable, &expected_hash).download);
}

#[test]
fn target_copy_skipped_only_when_hash_matches() {
    let expected = hash_bytes(b"font");
    assert!(!plan_target_copy(&CachedFileStatus::Hashed(expected.clone()), &expected));
    assert!(plan_target_copy(&CachedFileStatus::Absent, &expected));
    assert!(plan_target_copy(&CachedFileStatus::Unreadable, &expected));
    let wrong = hash_bytes(b"other");
    assert!(plan_target_copy(&CachedFileStatus::Hashed(wrong), &expected));
}

// ---- Downloader (size verification) ----

#[test]
fn size_mismatch_is_an_integrity_error() {
    let mut session = DownloadSession::begin(Some(1000), None);
    session.feed(&vec![0u8; 900]);
    let r = session.finish();
    assert!(matches!(r, Err(Error::IntegrityError { .. })));
}

#[test]
fn exact_size_is_accepted() {
    let mut session = DownloadSession::begin(Some(1000), None);
    session.feed(&vec![0u8; 600]);
    session.feed(&vec![0u8; 400]);
    assert!(session.finish().is_ok());
}

#[test]
fn hash_mismatch_is_an_integrity_error() {
    let expected = hash_bytes(b"what the server should send");
    let mut session = DownloadSession::begin(None, Some(expected));
    session.feed(b"what the server actually sent");
    let r = session.finish();
    assert!(matches!(r, Err(Error::IntegrityError { .. })));
}

// ---- ArchiveExtractor (path-traversal guard) ----

fn build_zip(entries: &[(&str, Option<&[u8]>)]) -> Vec<u8> {
    let mut w = zip::ZipWriter::new(std::io::Cursor::new(Vec::new()));
    let opts = zip::write::SimpleFileOptions::default();
    for (name, data) in entries {
        match data {
            Some(bytes) => {
                w.start_file(*name, opts).unwrap();
                w.write_all(bytes).unwrap();
            }
            None => {
                w.add_directory(*name, opts).unwrap();
            }
        }
    }
    w.finish().unwrap().into_inner()
}

#[test]
fn traversal_entry_is_skipped() {
    let bytes = build_zip(&[
        ("../../evil", Some(b"malicious".as_slice())),
        ("safe/good.txt", Some(b"fine".as_slice())),
        ("safe/sub/", None),
    ]);
    let mut archive = open_archive(bytes).expect("well-formed zip");
    let plan = extract_plan(&mut archive).expect("readable zip");
    for action in &plan {
        for seg in &action.path {
            assert_ne!(seg, "..");
            assert!(!seg.is_empty());
        }
    }
    assert!(plan
        .iter()
        .any(|a| !a.is_dir && a.path == vec!["safe".to_string(), "good.txt".to_string()]
            && a.data == b"fine"));
    assert!(plan
        .iter()
        .any(|a| a.is_dir && a.path == vec!["safe".to_string(), "sub".to_string()]));
    assert!(!plan.iter().any(|a| a.data == b"malicious"));
}

#[test]
fn absolute_and_drive_paths_are_skipped() {
    let bytes = build_zip(&[
        ("/etc/shadow", Some(b"nope".as_slice())),
        ("C:\\windows\\evil.dll", Some(b"nope".as_slice())),
        ("ok.txt", Some(b"yes".as_slice())),
    ]);
    let mut archive = open_archive(bytes).expect("well-formed zip");
    let plan = extract_plan(&mut archive).expect("readable zip");
    assert_eq!(plan.len(), 1);
    assert_eq!(plan[0].path, vec!["ok.txt".to_string()]);
    assert_eq!(plan[0].data, b"yes");
}

#[test]
fn garbage_bytes_are_not_an_archive() {
    let r = open_archive(b"this is not a zip file at all".to_vec());
    assert!(matches!(r, Err(Error::DecodeError { .. })));
}

// ---- FormatResolver ----

#[test]
fn new_format_resolves_to_root() {
    let actions: Vec<ExtractAction> = Vec::new();
    let dir = find_language_directory(&actions, &Format::New).unwrap();
    assert!(dir.is_empty());
}

#[test]
fn marker_search_finds_payload_directory() {
    let bytes = build_zip(&[
        ("wrapper/Localize/kr/StoryData/", None),
        ("wrapper/Localize/kr/StoryData/tale.txt", Some(b"story".as_slice())),
        ("wrapper/readme.txt", Some(b"hi".as_slice())),
    ]);
    let mut archive = open_archive(bytes).expect("well-formed zip");
    let plan = extract_plan(&mut archive).expect("readable zip");
    let dir = find_language_directory(&plan, &Format::Compatible).unwrap();
    assert_eq!(
        dir,
        vec!["wrapper".to_string(), "Localize".to_string(), "kr".to_string()]
    );
    let dir_auto = find_language_directory(&plan, &Format::Auto).unwrap();
    assert_eq!(dir_auto, dir);
}

#[test]
fn missing_marker_is_an_error() {
    let bytes = build_zip(&[("just/a/file.txt", Some(b"x".as_slice()))]);
    let mut archive = open_archive(bytes).expect("well-formed zip");
    let plan = extract_plan(&mut archive).expect("readable zip");
    let r = find_language_directory(&plan, &Format::Compatible);
    assert!(matches!(r, Err(Error::DecodeError { .. })));
}

#[test]
fn unknown_format_is_named_in_the_error() {
    let actions: Vec<ExtractAction> = Vec::new();
    let r = find_language_directory(&actions, &Format::Unknown("v9".to_string()));
    match r {
        Err(Error::ConfigurationError { detail }) => {
            assert_eq!(detail, "unknown localization format: v9");
        }
        other => panic!("expected a configuration error, got {:?}", other.is_ok()),
    }
}

// ---- InstallationCommitter ----

#[test]
fn commit_plan_relativizes_and_skips_bundled_zip() {
    let bytes = build_zip(&[
        ("payload/StoryData/tale.txt", Some(b"story".as_slice())),
        ("payload/localization.zip", Some(b"bundled".as_slice())),
        ("payload/sub/localization.zip", Some(b"nested bundle".as_slice())),
        ("payload/localization.zip/inner.txt", Some(b"inside bundle dir".as_slice())),
        ("outside.txt", Some(b"not payload".as_slice())),
    ]);
    let mut archive = open_archive(bytes).expect("well-formed zip");
    let plan = extract_plan(&mut archive).expect("readable zip");
    let payload = vec!["payload".to_string()];
    let commit = commit_plan(&plan, &payload);
    assert!(commit
        .iter()
        .any(|a| a.path == vec!["StoryData".to_string(), "tale.txt".to_string()]
            && a.data == b"story"));
    // The bundled name is filtered at every depth, and a directory so named
    // is pruned with its whole subtree.
    assert!(!commit.iter().any(|a| a.data == b"bundled"));
    assert!(!commit.iter().any(|a| a.data == b"nested bundle"));
    assert!(!commit.iter().any(|a| a.data == b"inside bundle dir"));
    assert!(!commit.iter().any(|a| a.data == b"not payload"));
}

#[test]
fn lang_directory_is_canonical() {
    let segs = lang_directory_segments(&"kr".to_string());
    assert_eq!(
        segs,
        vec![
            "LimbusCompany_Data".to_string(),
            "Lang".to_string(),
            "kr".to_string()
        ]
    );
}

// ---- UpdateOrchestrator ----

#[test]
fn stale_install_gets_exactly_one_update_and_no_up_to_date_signal() {
    let mut installed = InstalledMetadata::new();
    installed.upsert(&"A".to_string(), &"1".to_string(), &"main".to_string());
    let catalog = vec![sample_localization("A", "2")];
    let present = vec!["A".to_string()];
    let decisions = evaluate_updates(&installed, &catalog, &present);
    assert_eq!(decisions.len(), 1);
    match &decisions[0] {
        UpdateDecision::Update { id, catalog_index } => {
            assert_eq!(id, "A");
            assert_eq!(*catalog_index, 0);
        }
        _ => panic!("expected an update decision"),
    }
    let up_to_date = decisions
        .iter()
        .filter(|d| matches!(d, UpdateDecision::UpToDate { .. }))
        .count();
    assert_eq!(up_to_date, 0);

    // After the install succeeds, the record moves to the new version.
    installed.upsert(
        &catalog[0].id,
        &catalog[0].version,
        &"main".to_string(),
    );
    assert_eq!(installed.installed.len(), 1);
    assert_eq!(installed.installed[0].id, "A");
    assert_eq!(installed.installed[0].version, "2");
}

#[test]
fn equal_version_with_present_directory_is_up_to_date() {
    let mut installed = InstalledMetadata::new();
    installed.upsert(&"A".to_string(), &"2".to_string(), &"main".to_string());
    let catalog = vec![sample_localization("A", "2")];
    let decisions = evaluate_updates(&installed, &catalog, &vec!["A".to_string()]);
    assert!(matches!(&decisions[0], UpdateDecision::UpToDate { id } if id == "A"));

    // The same version with a missing directory is still updated.
    let decisions = evaluate_updates(&installed, &catalog, &Vec::new());
    assert!(matches!(&decisions[0], UpdateDecision::Update { .. }));
}

#[test]
fn catalog_drift_yields_unknown_and_no_uninstall() {
    let mut installed = InstalledMetadata::new();
    installed.upsert(&"gone".to_string(), &"1".to_string(), &"main".to_string());
    let catalog = vec![sample_localization("other", "1")];
    let decisions = evaluate_updates(&installed, &catalog, &Vec::new());
    assert!(matches!(&decisions[0], UpdateDecision::UnknownLocalization { id } if id == "gone"));
    // The installed record is untouched by evaluation.
    assert_eq!(installed.installed.len(), 1);
}

#[test]
fn running_game_refuses_operations() {
    assert!(matches!(
        ensure_game_not_running(true),
        Err(Error::GameRunningError)
    ));
    assert!(ensure_game_not_running(false).is_ok());
}

// ---- Settings ----

#[test]
fn migration_adds_missing_default_sources_only() {
    let mut settings = AppSettings::default();
    settings.config_version = 0;
    settings.sources.push(SourceEntry {
        key: "main".to_string(),
        source: LocalizationSource {
            name: "mine".to_string(),
            url: "https://example.invalid/custom.json".to_string(),
        },
    });
    let mut defaults = AppSettings::default();
    defaults.sources.push(SourceEntry {
        key: "main".to_string(),
        source: LocalizationSource {
            name: "bundled main".to_string(),
            url: "https://example.invalid/main.json".to_string(),
        },
    });
    defaults.sources.push(SourceEntry {
        key: "extra".to_string(),
        source: LocalizationSource {
            name: "bundled extra".to_string(),
            url: "https://example.invalid/extra.json".to_string(),
        },
    });
    let changed = migrate_settings(&mut settings, &defaults);
    assert!(changed);
    assert_eq!(settings.config_version, CURRENT_CONFIG_VERSION);
    assert_eq!(settings.sources.len(), 2);
    // The user's own entry for "main" was not overwritten.
    assert_eq!(settings.sources[0].source.name, "mine");
    assert_eq!(settings.sources[1].key, "extra");

    // Settings already current are untouched.
    let unchanged = migrate_settings(&mut settings, &defaults);
    assert!(!unchanged);
    assert_eq!(settings.sources.len(), 2);
}

// ---- Game directory and config ----

#[test]
fn game_directory_validity_needs_exe_and_data() {
    assert!(validate_game_directory(true, true).is_ok());
    assert!(matches!(
        validate_game_directory(false, true),
        Err(Error::ConfigurationError { .. })
    ));
    assert!(matches!(
        validate_game_directory(true, false),
        Err(Error::ConfigurationError { .. })
    ));
}

#[test]
fn stale_game_config_is_pruned() {
    let healthy = game_config_action(&Some("kr".to_string()), true).unwrap();
    assert!(matches!(healthy, GameConfigAction::Keep));
    let stale = game_config_action(&Some("kr".to_string()), false).unwrap();
    assert!(matches!(stale, GameConfigAction::DeleteConfig));
    let unparseable = game_config_action(&None, false).unwrap();
    assert!(matches!(unparseable, GameConfigAction::DeleteConfig));
    assert!(matches!(
        game_config_action(&Some(String::new()), true),
        Err(Error::DecodeError { .. })
    ));
}

// ---- Error messages ----

#[test]
fn error_messages_carry_their_context() {
    let e = Error::NetworkError {
        detail: "request timed out".to_string(),
    };
    assert_eq!(e.message(), "network error: request timed out");
    let e = Error::NotFoundError {
        detail: "localization xy".to_string(),
    };
    assert_eq!(e.message(), "not found: localization xy");
    let e = Error::ProtocolError {
        detail: "status 503".to_string(),
    };
    assert_eq!(e.message(), "protocol error: status 503");
    let e = Error::FilesystemError {
        detail: "disk full".to_string(),
    };
    assert_eq!(e.message(), "filesystem error: disk full");
    assert_eq!(Error::GameRunningError.message(), "the game is currently running");
}

// ---- Steam library file extraction ----

#[test]
fn vdf_key_value_lines_are_extracted() {
    let line = "\t\t\"path\"\t\t\"/mnt/games/SteamLibrary\"";
    assert!(line_has_key(line, "path"));
    assert!(!line_has_key(line, "installdir"));
    assert_eq!(line_value(line), Some("/mnt/games/SteamLibrary".to_string()));
    assert_eq!(quoted_field(line, 1), Some("path".to_string()));
    assert_eq!(line_value("no quotes here"), None);
    assert!(!line_has_key("no quotes here", "path"));
}

#[test]
fn same_key_lock_never_admits_two_critical_sections() {
    let rt = tokio::runtime::Builder::new_multi_thread()
        .worker_threads(2)
        .enable_time()
        .build()
        .unwrap();
    rt.block_on(async {
        let mut reg = LockRegistry::new();
        let id = "A".to_string();
        let root = "/games/one".to_string();
        let s1 = reg.slot_for(&id, &root);
        let s2 = reg.slot_for(&id, &root);
        assert_eq!(s1, s2);
        // One mutex per registry slot; both acquisitions reach the same one.
        let locks = vec![std::sync::Arc::new(tokio::sync::Mutex::new(()))];
        let in_critical = std::sync::Arc::new(std::sync::atomic::AtomicBool::new(false));
        let overlapped = std::sync::Arc::new(std::sync::atomic::AtomicBool::new(false));
        let mut handles = Vec::new();
        for _ in 0..2 {
            let lock = locks[s1].clone();
            let in_c = in_critical.clone();
            let ov = overlapped.clone();
            handles.push(tokio::spawn(async move {
                let _guard = lock.lock().await;
                if in_c.swap(true, std::sync::atomic::Ordering::SeqCst) {
                    ov.store(true, std::sync::atomic::Ordering::SeqCst);
                }
                tokio::time::sleep(std::time::Duration::from_millis(30)).await;
                in_c.store(false, std::sync::atomic::Ordering::SeqCst);
            }));
        }
        for h in handles {
            h.await.unwrap();
        }
        assert!(!overlapped.load(std::sync::atomic::Ordering::SeqCst));
    });
}
