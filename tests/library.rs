use bs_song_manager::action::Action;
use bs_song_manager::cache::{IdCache, UNRESOLVED_ID};
use bs_song_manager::catalog::{catalog_id_from_body, catalog_id_in, request_for, HeaderScan, HeaderStep};
use bs_song_manager::digest::{content_bytes, content_hash, digest_hex};
use bs_song_manager::json::{get_member, Json};
use bs_song_manager::naming::{canonical_label, replace_forbidden_runs};
use bs_song_manager::pool::{admission_schedule, PoolStep, CONCURRENT_THREADS_MAX, CONCURRENT_THREADS_MIN};
use bs_song_manager::scan::{
    classify_root_entry, collect_scan, sort_by_name, text_le, FolderOutcome, LoadAction, RootEntryKind,
    SongLoad,
};
use bs_song_manager::song::{
    find_declaration, BeatmapCharacteristic, Declaration, DifficultyBeatmap, DifficultyBeatmapSet,
    FolderEntry, Song,
};
use bs_song_manager::text::eq_ignore_ascii_case;

const DECLARATION: &str = r#"{
  "_songName": "Test Song",
  "_songSubName": "Sub",
  "_songAuthorName": "Composer",
  "_levelAuthorName": "Mapper",
  "_beatsPerMinute": 120,
  "_songFilename": "song.egg",
  "_coverImageFilename": "cover.jpg",
  "_difficultyBeatmapSets": [
    {
      "_beatmapCharacteristicName": "Standard",
      "_difficultyBeatmaps": [
        {"_difficulty": "Expert", "_difficultyRank": 7, "_beatmapFilename": "ExpertStandard.dat"}
      ]
    },
    {
      "_beatmapCharacteristicName": "OneSaber",
      "_difficultyBeatmaps": [
        {"_difficulty": "Hard", "_difficultyRank": 5, "_beatmapFilename": "HardOneSaber.dat"}
      ]
    }
  ]
}"#;

fn song_named(name: &str, author: &str, id: &str, path: &str) -> Song {
    Song {
        song_folder_path: path.to_string(),
        song_name: name.to_string(),
        song_sub_name: String::new(),
        song_author_name: String::new(),
        level_author_name: author.to_string(),
        beats_per_minute: 100,
        song_filename: String::new(),
        cover_image_filename: String::new(),
        difficulty_beatmap_sets: Vec::new(),
        level_hash: String::new(),
        level_id: id.to_string(),
    }
}

fn entry(name: &str, is_file: bool) -> FolderEntry {
    FolderEntry { name: name.to_string(), is_file }
}

fn load_folder(path: &str, entries: Vec<FolderEntry>, declaration: &str, id: &str) -> FolderOutcome {
    let mut load = SongLoad::new(path.to_string());
    match load.on_listing(&entries) {
        LoadAction::ReadDeclaration(_) => {}
        LoadAction::Finish(o) => return o,
        _ => panic!("unexpected step after listing"),
    }
    let names = match load.on_declaration(Some(declaration.as_bytes().to_vec())) {
        LoadAction::ReadBeatmaps(names) => names,
        LoadAction::Finish(o) => return o,
        _ => panic!("unexpected step after declaration"),
    };
    let files: Vec<Vec<u8>> = names.iter().map(|n| format!("beatmap {}", n).into_bytes()).collect();
    match load.on_beatmaps(Some(files)) {
        LoadAction::Identify(_) => {}
        LoadAction::Finish(o) => return o,
        _ => panic!("unexpected step after beatmaps"),
    }
    load.on_id(id.to_string())
}

#[test]
fn canonical_name_replaces_forbidden_runs() {
    let song = song_named("Test: Song?", "Au/Th", "1a2b3", "/songs/x");
    assert_eq!(song.get_canonical_name(), "1a2b3 (Test_ Song_ - Au_Th)");
}

#[test]
fn canonical_name_transliterates_to_ascii() {
    let song = song_named("Café", "Zoë", "ff", "/songs/y");
    assert_eq!(song.get_canonical_name(), "ff (Cafe - Zoe)");
}

#[test]
fn canonical_name_collapses_adjacent_forbidden_characters() {
    assert_eq!(replace_forbidden_runs("a<>b??c"), "a_b_c");
    assert_eq!(replace_forbidden_runs("\\{|}~#\"%&*"), "_");
    assert_eq!(replace_forbidden_runs("plain"), "plain");
    assert_eq!(canonical_label("1", "n", "a"), "1 (n - a)");
}

#[test]
fn songs_sort_by_byte_order_not_case_folded() {
    let songs = vec![
        song_named("Zeta", "a", "1", "/z"),
        song_named("alpha", "a", "2", "/a"),
        song_named("Beta", "a", "3", "/b"),
    ];
    let sorted = sort_by_name(songs);
    let names: Vec<&str> = sorted.iter().map(|s| s.song_name()).collect();
    assert_eq!(names, vec!["Beta", "Zeta", "alpha"]);
}

#[test]
fn sort_keeps_equal_names_and_handles_empty() {
    let sorted = sort_by_name(vec![
        song_named("b", "", "", "/1"),
        song_named("a", "", "", "/2"),
        song_named("b", "", "", "/3"),
    ]);
    let paths: Vec<&str> = sorted.iter().map(|s| s.song_folder_path()).collect();
    assert_eq!(paths, vec!["/2", "/1", "/3"]);
    assert!(sort_by_name(Vec::new()).is_empty());
    assert!(text_le("Zeta", "alpha"));
    assert!(!text_le("b", "a"));
    assert!(text_le("ab", "abc"));
}

#[test]
fn scan_of_one_valid_and_one_empty_folder() {
    let valid = load_folder(
        "/root/valid",
        vec![entry("ExpertStandard.dat", true), entry("Info.dat", true), entry("HardOneSaber.dat", true)],
        DECLARATION,
        "1a2b3",
    );
    let empty = load_folder("/root/empty", vec![entry("song.egg", true)], DECLARATION, "1a2b3");
    let report = collect_scan(vec![valid, empty]);
    assert_eq!(report.songs.len(), 1);
    assert_eq!(report.rejected.len(), 1);
    assert_eq!(report.songs[0].beats_per_minute(), 120);
    assert_eq!(report.songs[0].level_id(), "1a2b3");
    assert_eq!(report.songs[0].song_folder_path(), "/root/valid");
    assert_eq!(report.rejected[0], "/root/empty");
    assert_eq!(report.songs[0].difficulty_beatmap_sets.len(), 2);
}

#[test]
fn missing_or_mistyped_fields_reject_the_folder() {
    let listing = vec![entry("info.dat", true)];
    let no_name = DECLARATION.replace("\"_songName\"", "\"_title\"");
    let text_tempo = DECLARATION.replace("120", "\"120\"");
    let float_tempo = DECLARATION.replace("120", "120.5");
    let unknown_kind = DECLARATION.replace("OneSaber", "TwoSabers");
    let bad_beatmap = DECLARATION.replace("\"_difficultyRank\": 5", "\"_difficultyRank\": -5");
    for (i, text) in [no_name, text_tempo, float_tempo, unknown_kind, bad_beatmap, "not json".to_string()]
        .iter()
        .enumerate()
    {
        let path = format!("/bad/{}", i);
        match load_folder(&path, listing.clone(), text, "1") {
            FolderOutcome::Rejected(p) => assert_eq!(p, path),
            FolderOutcome::Loaded(_) => panic!("folder {} should be rejected", i),
        }
    }
}

#[test]
fn unreadable_files_reject_the_folder() {
    let mut load = SongLoad::new("/f".to_string());
    assert!(matches!(load.on_listing(&vec![entry("info.dat", true)]), LoadAction::ReadDeclaration(0)));
    assert!(matches!(load.on_declaration(None), LoadAction::Finish(FolderOutcome::Rejected(_))));

    let mut load = SongLoad::new("/g".to_string());
    load.on_listing(&vec![entry("info.dat", true)]);
    load.on_declaration(Some(DECLARATION.as_bytes().to_vec()));
    assert!(matches!(load.on_beatmaps(None), LoadAction::Finish(FolderOutcome::Rejected(_))));

    let mut load = SongLoad::new("/h".to_string());
    load.on_listing(&vec![entry("info.dat", true)]);
    load.on_declaration(Some(DECLARATION.as_bytes().to_vec()));
    let bad = vec![vec![0xffu8, 0xfe], b"ok".to_vec()];
    assert!(matches!(load.on_beatmaps(Some(bad)), LoadAction::Finish(FolderOutcome::Rejected(_))));
}

#[test]
fn declaration_lists_beatmap_files_in_order() {
    let d = Declaration::parse(DECLARATION.as_bytes()).expect("valid declaration");
    assert_eq!(d.beatmap_filenames(), vec!["ExpertStandard.dat".to_string(), "HardOneSaber.dat".to_string()]);
    assert_eq!(d.song_name, "Test Song");
    assert_eq!(d.beats_per_minute, 120);
    assert_eq!(d.difficulty_beatmap_sets[1].beatmap_characteristic_name, BeatmapCharacteristic::OneSaber);
    assert!(Declaration::parse(&[0xff, 0x00]).is_none());
}

#[test]
fn declaration_file_is_found_ignoring_ascii_case() {
    assert_eq!(find_declaration(&vec![entry("a.dat", true), entry("INFO.DAT", true)]), Some(1));
    assert_eq!(find_declaration(&vec![entry("info.dat", false)]), None);
    assert_eq!(find_declaration(&vec![entry("info.data", true)]), None);
    assert!(eq_ignore_ascii_case("Info.Dat", "info.dat"));
    assert!(!eq_ignore_ascii_case("ínfo.dat", "info.dat"));
}

#[test]
fn content_hash_is_sha1_hex_of_concatenated_files() {
    let h = content_hash(b"abc", &Vec::new()).unwrap();
    assert_eq!(h, "a9993e364706816aba3e25717850c26c9cd0d89d");
    let split = content_hash(b"a", &vec![b"b".to_vec(), b"c".to_vec()]).unwrap();
    assert_eq!(split, h);
    assert_eq!(content_bytes(b"a", &vec![b"bc".to_vec()]).unwrap(), b"abc".to_vec());
    assert!(content_hash(b"a", &vec![vec![0xc3]]).is_none());
    assert!(content_hash(&[0x80], &Vec::new()).is_none());
}

#[test]
fn content_hash_is_the_same_for_the_same_bytes() {
    let files = vec![b"one".to_vec(), b"two".to_vec()];
    let first = content_hash(DECLARATION.as_bytes(), &files);
    let second = content_hash(DECLARATION.as_bytes(), &files.clone());
    assert_eq!(first, second);
    assert_eq!(first.unwrap().len(), 40);
    let reordered = vec![b"two".to_vec(), b"one".to_vec()];
    assert_ne!(content_hash(DECLARATION.as_bytes(), &reordered), content_hash(DECLARATION.as_bytes(), &files));
}

#[test]
fn digest_is_written_in_lower_case_hex() {
    assert_eq!(digest_hex(&[0x00, 0xff, 0x1a]), "00ff1a");
    assert_eq!(digest_hex(&[]), "");
}

#[test]
fn cache_hit_after_a_resolved_id() {
    let mut cache = IdCache::new();
    assert_eq!(cache.lookup("abc"), None);
    cache.record("abc".to_string(), "1a2b3".to_string());
    assert_eq!(cache.lookup("abc"), Some("1a2b3".to_string()));
    cache.record("abc".to_string(), "9z".to_string());
    assert_eq!(cache.lookup("abc"), Some("9z".to_string()));
    assert_eq!(cache.entries().len(), 1);
}

#[test]
fn unresolved_id_is_not_cached() {
    let mut cache = IdCache::new();
    cache.record("abc".to_string(), UNRESOLVED_ID.to_string());
    assert_eq!(cache.lookup("abc"), None);
    assert!(cache.entries().is_empty());
}

#[test]
fn cache_file_is_read_wholesale_or_not_at_all() {
    let cache = IdCache::from_file_bytes(br#"{"h1":"i1","h2":"i2"}"#);
    assert_eq!(cache.lookup("h1"), Some("i1".to_string()));
    assert_eq!(cache.lookup("h2"), Some("i2".to_string()));
    assert_eq!(cache.entries().len(), 2);
    let mixed = IdCache::from_file_bytes(br#"{"h1":"i1","h2":2}"#);
    assert_eq!(mixed.lookup("h1"), None);
    assert!(IdCache::from_file_bytes(b"garbage").entries().is_empty());
    assert!(IdCache::from_file_bytes(b"[\"h1\"]").entries().is_empty());
}

#[test]
fn request_names_the_hash_host_and_accept_type() {
    assert_eq!(
        request_for("abc"),
        "GET /maps/hash/abc HTTP/1.1\r\nHost: api.beatsaver.com\r\nAccept: application/json\r\n\r\n"
    );
}

#[test]
fn header_lines_give_the_body_length() {
    let mut scan = HeaderScan::new();
    assert_eq!(scan.accept_line(b"HTTP/1.1 200 OK\r\n"), HeaderStep::Continue);
    assert_eq!(scan.content_length, None);
    assert_eq!(scan.accept_line(b"Content-Length: 42\r\n"), HeaderStep::Continue);
    assert_eq!(scan.content_length, Some(42));
    assert_eq!(scan.accept_line(b"content-length: 5\r\n"), HeaderStep::Continue);
    assert_eq!(scan.content_length, Some(42));
    assert_eq!(scan.accept_line(b"Content-Length: +7 \r\n"), HeaderStep::Continue);
    assert_eq!(scan.content_length, Some(7));
    assert_eq!(scan.accept_line(b"\r\n"), HeaderStep::EndOfHeaders);
    assert_eq!(scan.accept_line(b""), HeaderStep::EndOfHeaders);
}

#[test]
fn malformed_content_length_gives_up() {
    let mut scan = HeaderScan::new();
    assert_eq!(scan.accept_text("Content-Length: abc\r\n"), HeaderStep::Malformed);
    assert_eq!(scan.accept_text("Content-Length:42\r\n"), HeaderStep::Malformed);
    assert_eq!(scan.accept_text("Content-Length: 99999999999999999999999\r\n"), HeaderStep::Malformed);
    assert_eq!(scan.accept_text("Content-Length: 1: 2\r\n"), HeaderStep::Continue);
    assert_eq!(scan.content_length, Some(1));
}

#[test]
fn body_gives_the_catalog_id() {
    assert_eq!(catalog_id_from_body(br#"{"id":"1a2b3","name":"x"}"#), "1a2b3");
    assert_eq!(catalog_id_from_body(b"{}"), UNRESOLVED_ID);
    assert_eq!(catalog_id_from_body(br#"{"id":5}"#), UNRESOLVED_ID);
    assert_eq!(catalog_id_from_body(b""), UNRESOLVED_ID);
    let doc = Json::Object(vec![("id".to_string(), Json::Str("abc".to_string()))]);
    assert_eq!(catalog_id_in(&doc), "abc");
    assert!(get_member(&doc, "missing").is_none());
}

#[test]
fn admission_stops_at_high_and_drains_to_low() {
    let steps = admission_schedule(20, CONCURRENT_THREADS_MIN, CONCURRENT_THREADS_MAX);
    let spawns: Vec<usize> = steps
        .iter()
        .filter_map(|s| match s {
            PoolStep::Spawn(i) => Some(*i),
            PoolStep::JoinOldest => None,
        })
        .collect();
    assert_eq!(spawns, (0..20).collect::<Vec<usize>>());
    let joins = steps.iter().filter(|s| **s == PoolStep::JoinOldest).count();
    assert_eq!(joins, 20);
    let mut in_flight = 0i64;
    let mut peak = 0i64;
    for s in &steps {
        in_flight += if matches!(s, PoolStep::Spawn(_)) { 1 } else { -1 };
        peak = peak.max(in_flight);
        assert!(in_flight >= 0);
    }
    assert_eq!(peak, 16);
    assert!(matches!(steps[15], PoolStep::Spawn(15)));
    for k in 16..24 {
        assert_eq!(steps[k], PoolStep::JoinOldest);
    }
    assert_eq!(steps[24], PoolStep::Spawn(16));
    assert!(admission_schedule(0, 1, 2).is_empty());
}

#[test]
fn root_entries_are_classified() {
    assert_eq!(classify_root_entry("song", true), RootEntryKind::SongFolder);
    assert_eq!(classify_root_entry("id.cache", true), RootEntryKind::SongFolder);
    assert_eq!(classify_root_entry("id.cache", false), RootEntryKind::CacheFile);
    assert_eq!(classify_root_entry("notes.txt", false), RootEntryKind::Rejected);
}

#[test]
fn names_of_actions_and_characteristics() {
    assert_eq!(Action::Delete.as_str(), "Delete");
    assert_eq!(Action::Rename.as_str(), "Rename");
    assert_eq!(BeatmapCharacteristic::Degree360.as_str(), "360Degree");
    assert_eq!(BeatmapCharacteristic::from_name("90Degree"), Some(BeatmapCharacteristic::Degree90));
    assert_eq!(BeatmapCharacteristic::from_name("standard"), None);
}

#[test]
fn beatmap_and_set_decode_from_json() {
    let beatmap = Json::Object(vec![
        ("_difficulty".to_string(), Json::Str("Easy".to_string())),
        ("_difficultyRank".to_string(), Json::UInt(1)),
        ("_beatmapFilename".to_string(), Json::Str("Easy.dat".to_string())),
    ]);
    let b = DifficultyBeatmap::new(&beatmap).unwrap();
    assert_eq!(b.difficulty, "Easy");
    assert_eq!(b.difficulty_rank, 1);
    assert_eq!(b.beatmap_filename, "Easy.dat");
    let set = Json::Object(vec![
        ("_beatmapCharacteristicName".to_string(), Json::Str("Lawless".to_string())),
        ("_difficultyBeatmaps".to_string(), Json::Array(vec![beatmap])),
    ]);
    let s = DifficultyBeatmapSet::new(&set).unwrap();
    assert_eq!(s.beatmap_characteristic_name, BeatmapCharacteristic::Lawless);
    assert_eq!(s.difficulty_beatmaps.len(), 1);
    assert!(DifficultyBeatmap::new(&Json::Null).is_none());
    let wrong = Json::Object(vec![("_beatmapCharacteristicName".to_string(), Json::Str("Lawless".to_string()))]);
    assert!(DifficultyBeatmapSet::new(&wrong).is_none());
}

#[test]
fn songs_are_equal_by_folder_path() {
    let a = song_named("A", "x", "1", "/same");
    let b = song_named("B", "y", "2", "/same");
    let c = song_named("A", "x", "1", "/other");
    assert!(a == b);
    assert!(a != c);
}

#[test]
fn header_bytes_that_are_not_utf8_are_read_leniently() {
    let mut scan = HeaderScan::new();
    assert_eq!(scan.accept_line(b"Content-Length: 4\xff\r\n"), HeaderStep::Malformed);
    assert_eq!(scan.accept_line(b"X-Note: \xff\xfe\r\n"), HeaderStep::Continue);
    assert_eq!(scan.content_length, None);
    assert_eq!(catalog_id_from_body(b"{\"id\":\"a\xffb\"}"), "a\u{fffd}b");
}

#[test]
fn saved_cache_reads_back_the_same() {
    let mut cache = IdCache::new();
    cache.record("h\"1".to_string(), "i1".to_string());
    cache.record("h2".to_string(), "ünï".to_string());
    cache.record("h3".to_string(), UNRESOLVED_ID.to_string());
    let bytes = cache.to_file_bytes();
    let again = IdCache::from_file_bytes(&bytes);
    assert_eq!(again.lookup("h\"1"), Some("i1".to_string()));
    assert_eq!(again.lookup("h2"), Some("ünï".to_string()));
    assert_eq!(again.lookup("h3"), None);
    assert_eq!(again.entries().len(), 2);
    assert_eq!(IdCache::new().to_file_bytes(), b"{}".to_vec());
}

#[test]
fn declaration_without_difficulty_sets_is_valid() {
    let text = r#"{"_songName":"S","_songSubName":"","_songAuthorName":"A","_levelAuthorName":"L",
        "_beatsPerMinute":0,"_songFilename":"s.egg","_coverImageFilename":"c.png","_difficultyBeatmapSets":[]}"#;
    let d = Declaration::parse(text.as_bytes()).unwrap();
    assert!(d.beatmap_filenames().is_empty());
    assert_eq!(d.beats_per_minute, 0);
    let missing_sets = text.replace(",\"_difficultyBeatmapSets\":[]", "");
    assert!(Declaration::parse(missing_sets.as_bytes()).is_none());
    let doc = Json::Object(vec![("_songName".to_string(), Json::Str("S".to_string()))]);
    assert!(Declaration::from_json(&doc).is_none());
    assert!(Declaration::from_json(&Json::Array(Vec::new())).is_none());
}

#[test]
fn loaded_song_keeps_declared_fields_and_hash() {
    let outcome = load_folder("/root/one", vec![entry("info.dat", true)], DECLARATION, "abcde");
    let song = match outcome {
        FolderOutcome::Loaded(song) => song,
        FolderOutcome::Rejected(p) => panic!("{} rejected", p),
    };
    let files = vec![b"beatmap ExpertStandard.dat".to_vec(), b"beatmap HardOneSaber.dat".to_vec()];
    assert_eq!(Some(song.level_hash().to_string()), content_hash(DECLARATION.as_bytes(), &files));
    assert_eq!(song.song_name(), "Test Song");
    assert_eq!(song.song_sub_name, "Sub");
    assert_eq!(song.song_author_name, "Composer");
    assert_eq!(song.level_author_name, "Mapper");
    assert_eq!(song.song_filename, "song.egg");
    assert_eq!(song.cover_image_filename, "cover.jpg");
    assert_eq!(song.difficulty_beatmap_sets[0].difficulty_beatmaps[0].difficulty_rank, 7);
    assert_eq!(song.get_canonical_name(), "abcde (Test Song - Mapper)");
}

#[test]
fn cache_document_shapes() {
    let doc = Json::Object(vec![
        ("a".to_string(), Json::Str("1".to_string())),
        ("a".to_string(), Json::Str("2".to_string())),
    ]);
    let cache = IdCache::from_json(&doc);
    assert_eq!(cache.lookup("a"), Some("2".to_string()));
    assert_eq!(cache.entries().len(), 1);
    assert!(IdCache::from_json(&Json::Null).entries().is_empty());
}

fn identified_load(path: &str) -> SongLoad {
    let mut load = SongLoad::new(path.to_string());
    load.on_listing(&vec![entry("info.dat", true)]);
    load.on_declaration(Some(DECLARATION.as_bytes().to_vec()));
    match load.on_beatmaps(Some(vec![b"x".to_vec(), b"y".to_vec()])) {
        LoadAction::Identify(_) => load,
        _ => panic!("expected the identify step"),
    }
}

#[test]
fn cached_hash_needs_no_catalog_exchange() {
    let hash = content_hash(DECLARATION.as_bytes(), &vec![b"x".to_vec(), b"y".to_vec()]).unwrap();
    let mut cache = IdCache::new();
    cache.record(hash.clone(), "77aa".to_string());
    let mut load = identified_load("/c");
    match load.on_cache(&cache) {
        LoadAction::Finish(FolderOutcome::Loaded(song)) => {
            assert_eq!(song.level_id(), "77aa");
            assert_eq!(song.level_hash(), hash);
        }
        _ => panic!("a cached hash loads the song at once"),
    }
}

#[test]
fn uncached_hash_is_resolved_and_recorded() {
    let mut cache = IdCache::new();
    let mut load = identified_load("/d");
    let hash = match load.on_cache(&cache) {
        LoadAction::Resolve(hash) => hash,
        _ => panic!("an uncached hash asks the catalog"),
    };
    match load.on_resolved("5e5e".to_string(), &mut cache) {
        FolderOutcome::Loaded(song) => assert_eq!(song.level_id(), "5e5e"),
        FolderOutcome::Rejected(_) => panic!("resolved song must load"),
    }
    assert_eq!(cache.lookup(&hash), Some("5e5e".to_string()));
    let mut again = identified_load("/d");
    assert!(matches!(again.on_cache(&cache), LoadAction::Finish(FolderOutcome::Loaded(_))));
}

#[test]
fn unresolved_hash_is_asked_again_next_time() {
    let mut cache = IdCache::new();
    for _ in 0..2 {
        let mut load = identified_load("/e");
        let hash = match load.on_cache(&cache) {
            LoadAction::Resolve(hash) => hash,
            _ => panic!("an unresolved hash is asked for again"),
        };
        match load.on_resolved(UNRESOLVED_ID.to_string(), &mut cache) {
            FolderOutcome::Loaded(song) => assert_eq!(song.level_id(), UNRESOLVED_ID),
            FolderOutcome::Rejected(_) => panic!("the song still loads"),
        }
        assert_eq!(cache.lookup(&hash), None);
    }
    assert!(cache.entries().is_empty());
}

#[test]
fn control_characters_in_names_are_transliterated() {
    let song = song_named("a\u{7f}b", "c", "1", "/t");
    let name = song.get_canonical_name();
    assert!(name.is_ascii());
    assert!(name.starts_with("1 (a"));
}

#[test]
fn song_from_path_reads_declaration_and_hashes_bytes() {
    let files = vec![b"first".to_vec(), b"second".to_vec()];
    let song = Song::from_path("/p1".to_string(), DECLARATION.as_bytes(), &files, "abc".to_string()).unwrap();
    assert_eq!(song.song_folder_path(), "/p1");
    assert_eq!(song.song_name(), "Test Song");
    assert_eq!(song.song_sub_name, "Sub");
    assert_eq!(song.level_author_name, "Mapper");
    assert_eq!(song.beats_per_minute(), 120);
    assert_eq!(song.difficulty_beatmap_sets.len(), 2);
    assert_eq!(song.level_id(), "abc");
    assert_eq!(Some(song.level_hash().to_string()), content_hash(DECLARATION.as_bytes(), &files));
    let other = Song::from_path("/p2".to_string(), DECLARATION.as_bytes(), &files, "zzz".to_string()).unwrap();
    assert_eq!(other.level_hash(), song.level_hash());
}

#[test]
fn song_from_path_rejects_bad_folders() {
    let files = vec![b"first".to_vec(), b"second".to_vec()];
    let bad_kind = DECLARATION.replace("OneSaber", "Unknown");
    assert!(Song::from_path("/p".to_string(), bad_kind.as_bytes(), &files, "a".to_string()).is_none());
    let no_bpm = DECLARATION.replace("\"_beatsPerMinute\": 120,", "");
    assert!(Song::from_path("/p".to_string(), no_bpm.as_bytes(), &files, "a".to_string()).is_none());
    assert!(Song::from_path("/p".to_string(), DECLARATION.as_bytes(), &vec![b"only".to_vec()], "a".to_string()).is_none());
    let not_text = vec![b"first".to_vec(), vec![0xff]];
    assert!(Song::from_path("/p".to_string(), DECLARATION.as_bytes(), &not_text, "a".to_string()).is_none());
    assert!(Song::from_path("/p".to_string(), b"{", &files, "a".to_string()).is_none());
}
