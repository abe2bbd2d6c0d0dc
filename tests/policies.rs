use logwatch::search::{search_step, SearchStep};
use logwatch::search::{chunk_eof, chunk_range};
use logwatch::details::{details_key, JobQueue};
use logwatch::api::{parse_api_marker, lookups_for, Lookup};
use logwatch::avatar::normalize_avatar_name;
use logwatch::batch::{group_notifies, should_send, BatcherState, CheckUserResponse, GroupAggregate, GroupMatch};
use logwatch::engine::Engine;
use logwatch::location::{get_current_location_for_mod_log, Location};
use logwatch::media::{canonical_item_type, normalized_media_id, MediaItem, MediaStore};
use logwatch::notify::{choose_sound, play_group_sound, play_watch_sound, username_to_store, PlaybackFlag, SoundChoice};
use logwatch::search::{line_matches, matches_lowered, progress_percent, search_batch, SearchState};
use logwatch::stamp::guarded;

const API: &str = "2026.01.02 06:44:07 Debug - [API] [42] Sending Get request to https://api.vrchat.cloud/api/1/analysis/file_abc-123/7/security";

#[test]
fn api_marker_parsed() {
    let m = parse_api_marker(API.as_bytes()).unwrap();
    assert_eq!(m.call_id, Some(42));
    assert!(m.url.starts_with(b"https://api.vrchat.cloud/api/1/analysis"));
    let jobs = lookups_for(&m.url);
    assert_eq!(jobs.len(), 1);
    match &jobs[0] {
        Lookup::Security { file_id, version } => {
            assert_eq!(file_id, b"file_abc-123");
            assert_eq!(*version, 7);
        }
        _ => panic!("expected a security lookup"),
    }
    assert!(parse_api_marker(b"[API] [1] Sending Get request to https://example.com/other").is_none());
    let odd = parse_api_marker(b"[API] [x1] Sending Get request to https://h/api/1/prints/prnt_9").unwrap();
    assert_eq!(odd.call_id, None);
}

#[test]
fn print_and_inventory_lookups() {
    let p = lookups_for(b"https://api.vrchat.cloud/api/1/prints/prnt_ab-12");
    assert!(matches!(&p[0], Lookup::Print { id } if id == b"prnt_ab-12"));
    let i = lookups_for(b"https://api.vrchat.cloud/api/1/user/usr_aa-1/inventory/inv_bb-2");
    assert_eq!(i.len(), 1);
    assert!(matches!(&i[0], Lookup::Inventory { id } if id == b"usr_aa-1&inv_bb-2"));
    assert!(lookups_for(b"https://api.vrchat.cloud/api/1/analysis/file_x/0/security").is_empty());
}

#[test]
fn repeated_call_id_enqueues_once() {
    let mut e = Engine::new();
    let first = e.process_line(API.as_bytes(), b"2026.01.02 00:00:00");
    let second = e.process_line(API.as_bytes(), b"2026.01.02 00:00:00");
    assert_eq!(first.jobs.len(), 1);
    assert_eq!(second.jobs.len(), 0);
    let other = API.replace("[42]", "[43]");
    assert_eq!(e.process_line(other.as_bytes(), b"2026.01.02 00:00:00").jobs.len(), 1);
}

#[test]
fn normalize_examples() {
    assert_eq!(normalize_avatar_name("Avatar - Phybogen - Asset bundle - 2019.4.31f1_4_standalonewindows_Release"), "Phybogen");
    assert_eq!(normalize_avatar_name("  Avatar - Foo Bar - Asset bundle "), "Foo Bar");
    assert_eq!(normalize_avatar_name("Fox (Blue"), "Fox (Blue)");
    assert_eq!(normalize_avatar_name("Fox ((Blue"), "Fox ((Blue))");
    assert_eq!(normalize_avatar_name("狐（青"), "狐（青）");
    assert_eq!(normalize_avatar_name("   "), "");
    assert_eq!(normalize_avatar_name("Avatar - "), "Avatar -");
    assert_eq!(normalize_avatar_name("Avatar -  - Asset bundle"), "");
    let once = normalize_avatar_name("Avatar - Wolf (v2 - Asset bundle - x");
    assert_eq!(once, "Wolf (v2)");
    assert_eq!(normalize_avatar_name(&once), once);
}

#[test]
fn location_for_moderation_rows() {
    let both = Location { world_id: Some(b"wrld_1".to_vec()), instance_id: Some(b"77".to_vec()), room_name: None };
    assert_eq!(get_current_location_for_mod_log(&both), b"wrld_1:77".to_vec());
    let world = Location { world_id: Some(b"wrld_1".to_vec()), instance_id: None, room_name: None };
    assert_eq!(get_current_location_for_mod_log(&world), b"wrld_1:N/A".to_vec());
    let inst = Location { world_id: None, instance_id: Some(b"77".to_vec()), room_name: None };
    assert_eq!(get_current_location_for_mod_log(&inst), b"N/A:77".to_vec());
    let none = Location { world_id: None, instance_id: None, room_name: None };
    assert_eq!(get_current_location_for_mod_log(&none), b"N/A".to_vec());
}

#[test]
fn guard_window_in_seconds() {
    assert!(guarded(Some(100), Some(100)));
    assert!(guarded(Some(100), Some(129)));
    assert!(!guarded(Some(100), Some(130)));
    assert!(!guarded(Some(100), Some(99)));
    assert!(!guarded(None, Some(100)));
}

#[test]
fn playback_is_single_flight() {
    let mut flag = PlaybackFlag::new();
    assert!(play_watch_sound(&mut flag));
    assert!(!play_group_sound(&mut flag));
    assert!(!flag.try_begin_play());
    flag.end_play();
    assert!(play_group_sound(&mut flag));
}

#[test]
fn sound_priority() {
    assert_eq!(choose_sound(true, true, true), SoundChoice::UserOverride);
    assert_eq!(choose_sound(false, true, true), SoundChoice::LocalWatch);
    assert_eq!(choose_sound(false, false, true), SoundChoice::GroupWatch);
    assert_eq!(choose_sound(false, false, false), SoundChoice::Silent);
}

#[test]
fn username_cache_policy() {
    assert_eq!(username_to_store(None, b""), Some(b"Not Yet Recorded".to_vec()));
    assert_eq!(username_to_store(Some(b"Alice"), b""), None);
    assert_eq!(username_to_store(Some(b"Alice"), b"Alice"), None);
    assert_eq!(username_to_store(Some(b"Alice"), b"Alicia"), Some(b"Alicia".to_vec()));
    assert_eq!(username_to_store(None, b"Alice"), Some(b"Alice".to_vec()));
}

#[test]
fn search_is_case_insensitive_and_batched() {
    assert!(line_matches("2026.01.02 OnPlayerJoined ALICE", "alice"));
    assert!(line_matches("Straße", "STRASSE") == "straße".contains("strasse"));
    assert!(!line_matches("bob", "alice"));
    assert!(matches_lowered("hello world", "o w"));
    let lines: Vec<String> = vec!["Alpha".into(), "beta".into(), "ALPHABET".into(), "gamma".into()];
    assert_eq!(search_batch(&lines, "alpha", 0, 4), vec![0, 2]);
    assert_eq!(search_batch(&lines, "alpha", 1, 3), vec![2]);
    assert_eq!(progress_percent(0, 3000), 0);
    assert_eq!(progress_percent(1000, 3000), 33);
    assert_eq!(progress_percent(2000, 3000), 67);
}

#[test]
fn newer_search_cancels_older() {
    let mut s = SearchState::new();
    assert_eq!(s.begin(1), None);
    assert!(s.is_current(1));
    assert_eq!(s.begin(2), Some(1));
    assert!(!s.is_current(1));
    assert!(s.is_current(2));
    assert_eq!(s.begin(2), None);
}

#[test]
fn enrichment_batch_debounce() {
    let mut b = BatcherState::new();
    let t1 = b.add_user(b"usr_a");
    let t2 = b.add_user(b"usr_b");
    let t3 = b.add_user(b"usr_a");
    assert_eq!(b.flush(t1), None);
    assert_eq!(b.flush(t2), None);
    assert_eq!(b.flush(t3), Some(vec![b"usr_a".to_vec(), b"usr_b".to_vec()]));
    assert_eq!(b.flush(t3), Some(Vec::new()));
    assert!(should_send(2, 1));
    assert!(!should_send(2, 0));
    assert!(!should_send(0, 3));
}

#[test]
fn group_match_notifications() {
    let resp = CheckUserResponse {
        matches: vec![
            GroupMatch { user_id: "usr_a".into(), group_id: "g".into(), group_name: None, watchlist: true, notes: None, notifications: false },
            GroupMatch { user_id: "usr_b".into(), group_id: "g".into(), group_name: Some("G".into()), watchlist: true, notes: None, notifications: true },
        ],
        aggregates: vec![GroupAggregate { user_id: "usr_b".into(), warns: 1, kicks: 0, bans: 2 }],
    };
    assert!(group_notifies(&resp, "usr_b"));
    assert!(!group_notifies(&resp, "usr_a"));
    assert!(!group_notifies(&resp, "usr_c"));
}

#[test]
fn media_type_resolution() {
    let none: Vec<String> = Vec::new();
    assert_eq!(canonical_item_type("x", "sticker", &none, false, None, &none), "sticker");
    assert_eq!(canonical_item_type("prnt_1", "", &none, false, None, &none), "print");
    let ids: Vec<String> = vec!["emoji_77".into()];
    assert_eq!(canonical_item_type("inv_1", "", &ids, false, None, &none), "emoji");
    assert_eq!(canonical_item_type("inv_1", "", &none, true, Some("My_STICKER_Template"), &none), "sticker");
    let tags: Vec<String> = vec!["Emoji".into()];
    assert_eq!(canonical_item_type("inv_1", "", &none, true, None, &tags), "emoji");
    assert_eq!(canonical_item_type("inv_1", "", &none, false, None, &tags), "inventory");
    assert_eq!(canonical_item_type("inv_1", "gift", &none, false, None, &none), "gift");
}

#[test]
fn media_ids() {
    assert_eq!(normalized_media_id("prnt_1", "print", Some("usr_o"), Some("x")), "prnt_1");
    assert_eq!(normalized_media_id("usr_o&inv_1", "inventory", Some("usr_p"), Some("inv_2")), "usr_o&inv_1");
    assert_eq!(normalized_media_id("inv_1", "inventory", Some("usr_o"), Some("inv_1")), "usr_o&inv_1");
    assert_eq!(normalized_media_id("inv_1", "inventory", None, Some("inv_1")), "inv_1");
    let mut store = MediaStore::new();
    let item = |id: &str| MediaItem { id: id.into(), item_type: "print".into(), owner_id: None, image_url: None, fetched_at: "t".into() };
    store.upsert(item("a"));
    store.upsert(item("b"));
    store.upsert(item("a"));
    assert_eq!(store.len(), 2);
    store.db_clear_media_items();
    assert_eq!(store.len(), 0);
}

#[test]
fn avatar_details_keys() {
    let k = details_key("  Avatar - Fox (Blue - Asset bundle - x", "usr_o").unwrap();
    assert_eq!(k.avatar_name, "Fox (Blue)");
    assert_eq!(k.owner_id, "usr_o");
    assert_eq!(k.stale_name, Some("Avatar - Fox (Blue - Asset bundle - x".to_string()));
    let plain = details_key("Fox", "  ").unwrap();
    assert_eq!(plain.owner_id, "unknown_owner");
    assert_eq!(plain.stale_name, None);
    assert!(details_key("   ", "usr_o").is_none());
    assert!(details_key("Avatar -  - Asset bundle", "usr_o").is_none());
}

#[test]
fn lookup_queue_is_fifo_with_retry_at_tail() {
    let mut q = JobQueue::new();
    q.push(Lookup::Print { id: b"prnt_1".to_vec() });
    q.push(Lookup::Inventory { id: b"usr_a&inv_b".to_vec() });
    let first = q.pop().unwrap();
    assert!(matches!(&first, Lookup::Print { id } if id == b"prnt_1"));
    q.push(first);
    assert!(matches!(q.pop(), Some(Lookup::Inventory { .. })));
    assert!(matches!(q.pop(), Some(Lookup::Print { .. })));
    assert!(q.pop().is_none());
    assert_eq!(q.len(), 0);
}

#[test]
fn call_id_must_fit_u32() {
    let big = API.replace("[42]", "[4294967296]");
    assert_eq!(parse_api_marker(big.as_bytes()).unwrap().call_id, None);
    let max = API.replace("[42]", "[4294967295]");
    assert_eq!(parse_api_marker(max.as_bytes()).unwrap().call_id, Some(4294967295));
    let zero = API.replace("[42]", "[]");
    assert_eq!(parse_api_marker(zero.as_bytes()).unwrap().call_id, None);
}

#[test]
fn chunked_read_ranges() {

    assert_eq!(chunk_range(10, 100, 50), (10, 40));
    assert_eq!(chunk_range(10, 5, 50), (10, 5));
    assert_eq!(chunk_range(80, 5, 50), (50, 0));
    assert!(chunk_eof(50, 50));
    assert!(!chunk_eof(49, 50));
}

#[test]
fn moderation_add_reports_ids_and_fills_location() {
    let mut log = logwatch::modlog::ModerationLog::new();
    assert_eq!(log.add(b"Mod", b"Bob", b"Spam", b"2026.01.02 07:00:02", true, b""), (true, 1));
    assert_eq!(log.entry(0).location, b"N/A".to_vec());
    assert_eq!(log.add(b"Mod", b"Bob", b"Spam", b"2026.01.02 07:00:01", true, b"w:1"), (true, 2));
    assert_eq!(log.add(b"Mod2", b"Bob", b"Spam", b"2026.01.02 07:00:03", false, b"w:1"), (false, 2));
    assert_eq!(log.add(b"Mod", b"Eve", b"Spam", b"2026.01.02 07:00:03", false, b"w:1"), (true, 3));
    let all = logwatch::modlog::get_all_ban_logs(&log);
    let stamps: Vec<Vec<u8>> = all.iter().map(|b| b.timestamp.clone()).collect();
    assert_eq!(stamps, vec![b"2026.01.02 07:00:03".to_vec(), b"2026.01.02 07:00:02".to_vec(), b"2026.01.02 07:00:01".to_vec()]);
}

#[test]
fn search_steps_and_retries() {
    assert!(matches!(search_step(2, 1, 0, 10), SearchStep::Cancelled));
    assert!(matches!(search_step(1, 1, 10, 10), SearchStep::Done));
    assert!(matches!(search_step(1, 1, 1000, 2500), SearchStep::Batch { from: 1000, to: 2000, progress: 40 }));
    assert!(matches!(search_step(1, 1, 2000, 2500), SearchStep::Batch { from: 2000, to: 2500, progress: 80 }));
    assert_eq!(progress_percent(u64::MAX / 2, u64::MAX), 50);
    assert!(!logwatch::details::needs_retry(true, true, true, true));
    assert!(logwatch::details::needs_retry(true, false, false, false));
    assert!(logwatch::details::needs_retry(true, true, false, false));
    assert!(logwatch::details::needs_retry(false, false, false, false));
}
