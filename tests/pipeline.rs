use logwatch::assembler::LineAssembler;
use logwatch::engine::{classify, Engine, Event, Line};
use logwatch::grammar::{extract_timestamp, parse_instance, parse_joined, parse_left, parse_moderation};
use logwatch::tracker::{is_log_file_name, pick_latest, rotation_needs_purge, scan_start, window_lines, Tracker};

const ALICE: &str = "usr_aaaaaaaa-aaaa-aaaa-aaaa-aaaaaaaaaaaa";
const CAROL: &str = "usr_cccccccc-cccc-cccc-cccc-cccccccccccc";
const DAN: &str = "usr_dddddddd-dddd-dddd-dddd-dddddddddddd";
const WORLD: &str = "wrld_11111111-1111-1111-1111-111111111111";

fn run(engine: &mut Engine, line: &str) -> Option<Event> {
    engine.process_line(line.as_bytes(), b"2026.01.02 00:00:00").event
}

fn text(v: &[u8]) -> String {
    String::from_utf8(v.to_vec()).unwrap()
}

#[test]
fn assembler_delivers_each_line_once_across_split_reads() {
    let mut a = LineAssembler::new();
    let first = a.feed(b"one\r\ntw");
    assert_eq!(first, vec![b"one".to_vec()]);
    assert_eq!(a.pending_len(), 2);
    let second = a.feed(b"o\nthree");
    assert_eq!(second, vec![b"two".to_vec()]);
    let mut b = LineAssembler::new();
    let all = b.feed(b"one\r\ntwo\nthree");
    assert_eq!(all, vec![b"one".to_vec(), b"two".to_vec()]);
    assert_eq!(a.pending_len(), b.pending_len());
}

#[test]
fn assembler_withholds_unterminated_tail() {
    let mut a = LineAssembler::new();
    assert!(a.feed(b"2026.01.02 06:44:07 partial").is_empty());
    assert_eq!(a.feed(b" line\n"), vec![b"2026.01.02 06:44:07 partial line".to_vec()]);
    assert_eq!(a.pending_len(), 0);
}

#[test]
fn tracker_truncation_resets_cursor_and_buffer() {
    let mut t = Tracker::new();
    t.open_at(10);
    assert_eq!(t.unread(25), 15);
    let lines = t.consume(b"abc\ndef");
    assert_eq!(lines, vec![b"abc".to_vec()]);
    assert_eq!(t.position(), 17);
    assert!(!t.observe_len(17));
    assert!(t.observe_len(5));
    assert_eq!(t.position(), 0);
    assert_eq!(t.consume(b"\n"), vec![Vec::<u8>::new()]);
}

#[test]
fn log_file_discovery() {
    assert!(is_log_file_name(b"output_log_2026-01-02_06-00-00.txt"));
    assert!(!is_log_file_name(b"output_log_2026.log"));
    assert!(!is_log_file_name(b"player.txt"));
    let names = vec![b"output_log_A.txt".to_vec(), b"notes.txt".to_vec(), b"output_log_B.txt".to_vec()];
    assert_eq!(pick_latest(&names, &vec![5, 99, 7]), Some(2));
    assert_eq!(pick_latest(&names, &vec![9, 99, 9]), Some(0));
    assert_eq!(pick_latest(&vec![b"x.txt".to_vec()], &vec![1]), None);
    assert_eq!(scan_start(10), 0);
    assert_eq!(scan_start(5 * 1024 * 1024), 1024 * 1024);
}

#[test]
fn window_lines_skip_partial_first_line() {
    let lines = window_lines(b"tail of old\nfirst\r\nsecond", true);
    assert_eq!(lines, vec![b"first".to_vec(), b"second".to_vec()]);
    let whole = window_lines(b"first\nsecond\n", false);
    assert_eq!(whole, vec![b"first".to_vec(), b"second".to_vec(), Vec::<u8>::new()]);
}

#[test]
fn timestamps_at_start_or_after_tag() {
    assert_eq!(extract_timestamp(b"2026.01.02 06:44:07 Debug x"), Some(b"2026.01.02 06:44:07".to_vec()));
    assert_eq!(
        extract_timestamp(b"[2026-01-13 23:27:27] [output_log_x.txt] 2026.01.13 23:27:26 Debug"),
        Some(b"2026.01.13 23:27:26".to_vec())
    );
    assert_eq!(extract_timestamp(b"Debug 2026.01.02 06:44:07"), None);
    assert_eq!(extract_timestamp(b"2026.01.02  06:44:07 two spaces"), Some(b"2026.01.02  06:44:07".to_vec()));
}

#[test]
fn grammar_player_lines() {
    let j = format!("2026.01.02 06:44:20 OnPlayerJoined Alice ({})", ALICE);
    assert_eq!(parse_joined(j.as_bytes()), Some((b"Alice".to_vec(), ALICE.as_bytes().to_vec())));
    let tagged = format!("x OnPlayerJoined [Mod] Bob Smith  ({})", ALICE);
    assert_eq!(parse_joined(tagged.as_bytes()), Some((b"Bob Smith".to_vec(), ALICE.as_bytes().to_vec())));
    let l = format!("x OnPlayerLeft Alice ({})", ALICE);
    assert_eq!(parse_left(l.as_bytes()), Some((b"Alice".to_vec(), ALICE.as_bytes().to_vec())));
    assert_eq!(parse_joined(b"OnPlayerJoined Alice (usr_short)"), None);
}

#[test]
fn grammar_instance_and_moderation() {
    let line = format!("2026.01.02 06:44:07 [Behaviour] Joining {}:12345~region(us)", WORLD);
    let v = parse_instance(line.as_bytes()).unwrap();
    assert_eq!(text(&v.world_id), WORLD);
    assert_eq!(text(&v.instance_id), "12345");
    assert_eq!(v.region, Some(b"us".to_vec()));
    let plain = format!("[Behaviour] Joining {}:777~private(usr_x)~region(eu)", WORLD);
    let p = parse_instance(plain.as_bytes()).unwrap();
    assert_eq!(text(&p.instance_id), "777");
    assert_eq!(p.region, None);
    assert!(parse_instance(b"[Behaviour] Joining or Creating Room: Hideout").is_none());
    let m = parse_moderation(b"2026.01.02 07:00:00 Admin \"Mod\" warned player \"Bob\" for the following reason: \"Spam\"").unwrap();
    assert_eq!((text(&m.admin), text(&m.target), text(&m.reason), m.banned), ("Mod".to_string(), "Bob".to_string(), "Spam".to_string(), false));
}

#[test]
fn rule_order_session_end_first() {
    assert!(matches!(classify(b"2026.01.02 06:00:00 [Behaviour] Successfully joined room"), Line::SessionEnd));
    assert!(matches!(classify(b"2026.01.02 06:00:00 VRCApplication: HandleApplicationQuit"), Line::SessionEnd));
    assert!(matches!(classify(b"2026.01.02 06:00:00 [Behaviour] OnLeftRoom"), Line::LeftRoom));
    assert!(matches!(classify(b"2026.01.02 06:00:00 Destroying Alice"), Line::Destroying(_)));
    assert!(matches!(classify(b"nothing here"), Line::Other));
}

#[test]
fn normal_join_and_leave() {
    let mut e = Engine::new();
    let join_world = format!("2026.01.02 06:44:07 [Behaviour] Joining {}:12345~region(us)", WORLD);
    match run(&mut e, &join_world) {
        Some(Event::InstanceChanged { at, world_id, instance_id, region }) => {
            assert_eq!(text(&at), "2026.01.02 06:44:07");
            assert_eq!(text(&world_id), WORLD);
            assert_eq!(text(&instance_id), "12345");
            assert_eq!(region, Some(b"us".to_vec()));
        }
        _ => panic!("expected an instance change"),
    }
    assert_eq!(e.join_log().system_len(), 1);
    let sys = e.join_log().system_row(0);
    assert_eq!(text(&sys.at), "2026.01.02 06:44:07");
    assert_eq!(text(&sys.world_id), WORLD);
    assert_eq!(text(&sys.instance_id), "12345");
    assert_eq!(sys.region, Some(b"us".to_vec()));
    assert_eq!(e.last_instance_join_ts(), Some(b"2026.01.02 06:44:07".to_vec()));
    assert!(matches!(run(&mut e, "2026.01.02 06:44:08 [Behaviour] Joining or Creating Room: Hideout"), Some(Event::LocationUpdated { .. })));
    let loc = e.location();
    assert_eq!(loc.world_id, Some(WORLD.as_bytes().to_vec()));
    assert_eq!(loc.instance_id, Some(b"12345".to_vec()));
    assert_eq!(loc.room_name, Some(b"Hideout".to_vec()));
    let joined = format!("2026.01.02 06:44:20 OnPlayerJoined Alice ({})", ALICE);
    match run(&mut e, &joined) {
        Some(Event::RowInserted { at, user_id, username }) => {
            assert_eq!(text(&at), "2026.01.02 06:44:20");
            assert_eq!(text(&user_id), ALICE);
            assert_eq!(text(&username), "Alice");
        }
        _ => panic!("expected an inserted row"),
    }
    assert_eq!(e.get_active_join_logs().len(), 1);
    let left = format!("2026.01.02 06:45:30 OnPlayerLeft Alice ({})", ALICE);
    assert!(matches!(run(&mut e, &left), Some(Event::RowUpdated { .. })));
    let row = e.join_log().row(0);
    assert_eq!(row.left_at, Some(b"2026.01.02 06:45:30".to_vec()));
    assert!(e.get_active_join_logs().is_empty());
    assert_eq!(e.history().len(), 1);
    assert_eq!(e.history().entry(0).room_name, Some(b"Hideout".to_vec()));
}

#[test]
fn rejoining_same_line_is_noop() {
    let mut e = Engine::new();
    let joined = format!("2026.01.02 06:44:20 OnPlayerJoined Alice ({})", ALICE);
    assert!(run(&mut e, &joined).is_some());
    assert!(run(&mut e, &joined).is_none());
    assert_eq!(e.join_log().len(), 1);
}

#[test]
fn moderation_dropped_inside_guard() {
    let mut e = Engine::new();
    run(&mut e, &format!("2026.01.02 06:44:07 [Behaviour] Joining {}:12345~region(us)", WORLD));
    let ev = run(&mut e, "2026.01.02 06:44:25 Admin \"Mod\" banned player \"Alice\" for the following reason: \"Test\"");
    assert!(ev.is_none());
    assert_eq!(e.moderation_log().len(), 0);
    let later = run(&mut e, "2026.01.02 06:44:37 Admin \"Mod\" banned player \"Alice\" for the following reason: \"Test\"");
    assert!(matches!(later, Some(Event::Ban { .. })));
    assert_eq!(e.moderation_log().len(), 1);
}

#[test]
fn moderation_kept_and_deduped() {
    let mut e = Engine::new();
    e.set_last_instance_join_ts(b"2026.01.02 06:44:07");
    run(&mut e, &format!("2026.01.02 06:44:07 [Behaviour] Joining {}:12345~region(us)", WORLD));
    let first = run(&mut e, "2026.01.02 07:00:00 Admin \"Mod\" banned player \"Bob\" for the following reason: \"Spam\"");
    match first {
        Some(Event::Ban { admin, target, reason, at, banned, location }) => {
            assert_eq!(text(&admin), "Mod");
            assert_eq!(text(&target), "Bob");
            assert_eq!(text(&reason), "Spam");
            assert_eq!(text(&at), "2026.01.02 07:00:00");
            assert!(banned);
            assert_eq!(text(&location), format!("{}:12345", WORLD));
        }
        _ => panic!("expected a ban"),
    }
    let second = run(&mut e, "2026.01.02 07:00:02 Admin \"Mod2\" banned player \"Bob\" for the following reason: \"Spam\"");
    assert!(second.is_none());
    assert_eq!(e.moderation_log().len(), 1);
    let row = e.moderation_log().entry(0);
    assert_eq!(text(&row.action_type), "ban");
    assert_eq!(text(&row.timestamp), "2026.01.02 07:00:00");
    let other = run(&mut e, "2026.01.02 07:00:09 Admin \"Mod\" banned player \"Bob\" for the following reason: \"Spam\"");
    assert!(other.is_some());
    let all = logwatch::modlog::get_all_ban_logs(e.moderation_log());
    assert_eq!(text(&all[0].timestamp), "2026.01.02 07:00:09");
}

#[test]
fn cold_start_replay() {
    let mut e = Engine::new();
    let window = format!(
        "tail\n2026.01.02 05:00:00 OnPlayerJoined Old ({old})\n2026.01.02 06:00:00 [Behaviour] Joining wrld_22222222-2222-2222-2222-222222222222:777~region(eu)\n2026.01.02 06:00:05 OnPlayerJoined Carol ({c})\n2026.01.02 06:00:06 OnPlayerJoined Dan  ({d})\n2026.01.02 06:00:09 OnPlayerLeft Carol ({c})\n",
        old = ALICE,
        c = CAROL,
        d = DAN
    );
    let lines = window_lines(window.as_bytes(), true);
    e.reconstruct(&lines);
    assert_eq!(e.join_log().system_len(), 1);
    let sys = e.join_log().system_row(0);
    assert_eq!(text(&sys.instance_id), "777");
    assert_eq!(sys.region, Some(b"eu".to_vec()));
    assert_eq!(e.last_instance_join_ts(), Some(b"2026.01.02 06:00:00".to_vec()));
    assert_eq!(e.join_log().len(), 2);
    assert_eq!(e.join_log().row(0).left_at, Some(b"2026.01.02 06:00:09".to_vec()));
    let active = e.get_active_join_logs();
    assert_eq!(active.len(), 1);
    assert_eq!(text(&active[0].user_id), DAN);
}

#[test]
fn cold_start_skipped_after_session_end() {
    let mut e = Engine::new();
    let window = format!(
        "2026.01.02 06:00:00 [Behaviour] Joining {}:777\n2026.01.02 06:00:05 OnPlayerJoined Carol ({})\n2026.01.02 06:10:00 VRCNP: Stopping server\n",
        WORLD, CAROL
    );
    e.reconstruct(&window_lines(window.as_bytes(), false));
    assert_eq!(e.join_log().len(), 0);
    assert_eq!(e.last_instance_join_ts(), None);
}

#[test]
fn cold_start_anchored_on_joined_room() {
    let mut e = Engine::new();
    let window = format!(
        "2026.01.02 06:00:00 [Behaviour] Joining {}:777\n2026.01.02 06:00:03 [Behaviour] Successfully joined room\n2026.01.02 06:00:05 OnPlayerJoined Carol ({})\n",
        WORLD, CAROL
    );
    e.reconstruct(&window_lines(window.as_bytes(), false));
    assert_eq!(e.last_instance_join_ts(), Some(b"2026.01.02 06:00:03".to_vec()));
    assert_eq!(e.join_log().len(), 0);
}

#[test]
fn rotation_purge() {
    assert!(rotation_needs_purge(Some(b"output_log_A.txt"), b"output_log_B.txt"));
    assert!(!rotation_needs_purge(Some(b"output_log_B.txt"), b"output_log_B.txt"));
    assert!(rotation_needs_purge(None, b"output_log_B.txt"));
    let mut e = Engine::new();
    run(&mut e, &format!("2026.01.02 06:44:20 OnPlayerJoined Alice ({})", ALICE));
    run(&mut e, &format!("2026.01.02 06:44:21 OnPlayerJoined Carol ({})", CAROL));
    assert_eq!(e.purge_all(b"2026.01.02 09:00:00"), 2);
    assert!(e.get_active_join_logs().is_empty());
    assert_eq!(e.join_log().row(1).left_at, Some(b"2026.01.02 09:00:00".to_vec()));
}

#[test]
fn session_end_purges_open_rows() {
    let mut e = Engine::new();
    run(&mut e, &format!("2026.01.02 06:44:20 OnPlayerJoined Alice ({})", ALICE));
    assert!(matches!(run(&mut e, "2026.01.02 06:50:00 [Behaviour] Successfully left room"), Some(Event::Purged { .. })));
    assert_eq!(e.join_log().row(0).left_at, Some(b"2026.01.02 06:50:00".to_vec()));
}

#[test]
fn instance_join_closes_previous_occupants() {
    let mut e = Engine::new();
    run(&mut e, &format!("2026.01.02 06:44:20 OnPlayerJoined Alice ({})", ALICE));
    run(&mut e, &format!("2026.01.02 07:00:00 [Behaviour] Joining {}:999", WORLD));
    assert_eq!(e.join_log().row(0).left_at, Some(b"2026.01.02 07:00:00".to_vec()));
    run(&mut e, &format!("2026.01.02 07:00:05 OnPlayerJoined Carol ({})", CAROL));
    let active = e.get_active_join_logs();
    assert_eq!(active.len(), 1);
    assert_eq!(text(&active[0].user_id), CAROL);
}

#[test]
fn destroying_closes_by_name() {
    let mut e = Engine::new();
    run(&mut e, &format!("2026.01.02 06:44:20 OnPlayerJoined Alice ({})", ALICE));
    assert!(matches!(run(&mut e, "2026.01.02 06:45:00 Destroying Alice"), Some(Event::RowUpdated { .. })));
    assert!(run(&mut e, "2026.01.02 06:45:01 Destroying Nobody").is_none());
    assert!(e.get_active_join_logs().is_empty());
}

#[test]
fn dedupe_keeps_newest_open_row() {
    let mut e = Engine::new();
    run(&mut e, &format!("2026.01.02 06:44:20 OnPlayerJoined Alice ({})", ALICE));
    run(&mut e, &format!("2026.01.02 06:50:20 OnPlayerJoined Alice ({})", ALICE));
    assert_eq!(e.dedupe_open_joins(b"2026.01.02 07:00:00"), 1);
    assert_eq!(e.join_log().row(0).left_at, Some(b"2026.01.02 07:00:00".to_vec()));
    assert_eq!(e.join_log().row(1).left_at, None);
}

#[test]
fn left_room_clears_location() {
    let mut e = Engine::new();
    run(&mut e, &format!("2026.01.02 06:44:07 [Behaviour] Joining {}:12345", WORLD));
    assert!(matches!(run(&mut e, "2026.01.02 06:50:00 [Behaviour] OnLeftRoom"), Some(Event::LocationCleared { .. })));
    assert_eq!(e.location().world_id, None);
    assert_eq!(e.history().len(), 2);
    assert!(!e.history().entry(1).joined);
}

#[test]
fn avatar_switch_logged_unless_blank() {
    let mut e = Engine::new();
    match run(&mut e, "2026.01.02 06:44:07 [Behaviour] Switching Alice to avatar  Cool Fox ") {
        Some(Event::AvatarLogged { owner, avatar, .. }) => {
            assert_eq!(text(&owner), "Alice");
            assert_eq!(text(&avatar), "Cool Fox");
        }
        _ => panic!("expected an avatar log"),
    }
    assert!(run(&mut e, "2026.01.02 06:44:08 [Behaviour] Switching Alice to avatar   ").is_none());
    assert_eq!(e.avatar_count(), 1);
}

#[test]
fn auth_fragments() {
    let f = logwatch::grammar::auth_fragment(b"2025.09.18 15:16:07 Debug      -  User Authenticated: - Lumine - (usr_x)  ");
    assert_eq!(f, Some(b" - Lumine - (usr_x)".to_vec()));
    assert_eq!(logwatch::grammar::auth_fragment(b"User Authenticated:   "), None);
    assert_eq!(logwatch::grammar::auth_fragment(b"nothing"), None);
}

#[test]
fn purge_join_log_table_empties_rows() {
    let mut e = Engine::new();
    run(&mut e, &format!("2026.01.02 06:44:07 [Behaviour] Joining {}:1", WORLD));
    run(&mut e, &format!("2026.01.02 06:44:20 OnPlayerJoined Alice ({})", ALICE));
    e.purge_join_log_table();
    assert_eq!(e.join_log().len(), 0);
    assert_eq!(e.join_log().system_len(), 0);
}

#[test]
fn latest_username_and_group_flags() {
    let mut e = Engine::new();
    run(&mut e, &format!("2026.01.02 06:00:00 OnPlayerJoined Ali ({})", ALICE));
    run(&mut e, &format!("2026.01.02 06:10:00 [Behaviour] Joining {}:5", WORLD));
    run(&mut e, &format!("2026.01.02 06:20:00 OnPlayerJoined Alice ({})", ALICE));
    run(&mut e, &format!("2026.01.02 06:21:00 OnPlayerJoined Carol ({})", CAROL));
    assert_eq!(e.join_log().get_latest_username_for_user(ALICE.as_bytes()), Some(b"Alice".to_vec()));
    assert_eq!(e.join_log().get_latest_username_for_user(DAN.as_bytes()), None);
    let users = vec![ALICE.as_bytes().to_vec(), DAN.as_bytes().to_vec()];
    assert_eq!(e.set_group_watchlisted_for_users(&users), 1);
    assert!(!e.join_log().row(0).group_watchlisted);
    assert!(e.join_log().row(1).group_watchlisted);
    assert!(!e.join_log().row(2).group_watchlisted);
}

#[test]
fn bounded_work_per_poll_resumes_after_last_line() {
    let mut t = Tracker::new();
    let data = b"a\nb\nc\nd";
    let first = t.consume_limited(data, 2);
    assert_eq!(first, vec![b"a".to_vec(), b"b".to_vec()]);
    assert_eq!(t.position(), 4);
    let rest = t.consume_limited(&data[4..], 10);
    assert_eq!(rest, vec![b"c".to_vec()]);
    assert_eq!(t.position(), 7);
    let mut a = LineAssembler::new();
    let (lines, used) = a.feed_limited(b"x\ny\n", 0);
    assert!(lines.is_empty());
    assert_eq!(used, 0);
}

#[test]
fn active_rows_listed_by_join_time() {
    let mut e = Engine::new();
    run(&mut e, &format!("2026.01.02 06:30:00 OnPlayerJoined Carol ({})", CAROL));
    run(&mut e, &format!("2026.01.02 06:10:00 OnPlayerJoined Alice ({})", ALICE));
    run(&mut e, &format!("2026.01.02 06:20:00 OnPlayerJoined Dan ({})", DAN));
    let active = e.get_active_join_logs();
    let order: Vec<String> = active.iter().map(|r| text(&r.joined_at)).collect();
    assert_eq!(order, vec!["2026.01.02 06:10:00", "2026.01.02 06:20:00", "2026.01.02 06:30:00"]);
}

#[test]
fn dedupe_reports_rows_closed() {
    let mut e = Engine::new();
    run(&mut e, &format!("2026.01.02 06:00:00 OnPlayerJoined Alice ({})", ALICE));
    run(&mut e, &format!("2026.01.02 06:01:00 OnPlayerJoined Alice ({})", ALICE));
    run(&mut e, &format!("2026.01.02 06:02:00 OnPlayerJoined Alice ({})", ALICE));
    run(&mut e, &format!("2026.01.02 06:03:00 OnPlayerJoined Carol ({})", CAROL));
    assert_eq!(e.dedupe_open_joins(b"2026.01.02 07:00:00"), 2);
    assert_eq!(e.dedupe_open_joins(b"2026.01.02 07:00:00"), 0);
    assert_eq!(e.join_log().row(2).left_at, None);
}
