use game_relay::game_server::{Delivery, GameServer, ListGames, Message};
use game_relay::game_session::{Action, Phase, WsGameSession, CLIENT_TIMEOUT_MS};
use game_relay::ids::{fresh_game_id, gen_game_id, is_taken, GAME_ID_LEN};

fn active(id: usize) -> WsGameSession {
    let mut s = WsGameSession::new(0);
    s.connected(Some(id));
    s
}

fn reply(a: Action) -> String {
    match a {
        Action::Reply(t) => t,
        _ => panic!("expected a reply"),
    }
}

fn push(to: usize, text: &str) -> Delivery {
    Delivery { to, msg: Message(text.to_string()) }
}

#[test]
fn connect_answer_sets_phase() {
    let mut s = WsGameSession::new(10);
    assert_eq!(s.phase, Phase::Connecting);
    s.connected(Some(4));
    assert_eq!(s.id, 4);
    assert_eq!(s.phase, Phase::Active);
    let mut t = WsGameSession::new(10);
    t.connected(None);
    assert_eq!(t.phase, Phase::Closed);
}

#[test]
fn commands_need_an_active_session() {
    let mut s = WsGameSession::new(0);
    assert!(matches!(s.handle_text("/name bob", 5), Action::Nothing));
    assert_eq!(s.name, None);
    assert_eq!(s.hb, 0);
}

#[test]
fn missing_arguments_are_reported() {
    let mut s = active(1);
    assert_eq!(reply(s.handle_text("/join", 1)), "!!! room name is required");
    assert_eq!(reply(s.handle_text("/name", 2)), "!!! name is required");
    assert_eq!(s.name, None);
    assert_eq!(s.game_id, None);
}

#[test]
fn unknown_command_names_the_input() {
    let mut s = active(1);
    assert_eq!(reply(s.handle_text("  /dance now \n", 1)), "!!! unknown command: /dance now");
}

#[test]
fn text_is_trimmed_and_prefixed_with_the_name() {
    let mut s = active(3);
    match s.handle_text("  hi  ", 1) {
        Action::Forward(cm) => {
            assert_eq!(cm.msg, "hi");
            assert_eq!(cm.id, 3);
            assert_eq!(cm.game_id, None);
        }
        _ => panic!("expected a relay"),
    }
    assert!(matches!(s.handle_text("/name Bob", 2), Action::Nothing));
    assert_eq!(s.name, Some("Bob".to_string()));
    match s.handle_text("hi", 3) {
        Action::Forward(cm) => assert_eq!(cm.msg, "Bob: hi"),
        _ => panic!("expected a relay"),
    }
}

#[test]
fn any_frame_refreshes_liveness() {
    let mut s = active(1);
    s.handle_text("hello", 900);
    assert_eq!(s.hb, 900);
    s.touch(1200);
    assert_eq!(s.hb, 1200);
}

#[test]
fn join_of_unknown_room_clears_local_room() {
    let mut s = active(1);
    s.game_id = Some("aaaaaa".to_string());
    let a = s.join_checked("zzzzzz".to_string(), false);
    assert_eq!(reply(a), "No such room");
    assert_eq!(s.game_id, None);
}

#[test]
fn join_of_existing_room() {
    let mut s = active(5);
    match s.join_checked("abcdef".to_string(), true) {
        Action::JoinRoom(j, t) => {
            assert_eq!(j.id, 5);
            assert_eq!(j.game_id, "abcdef");
            assert_eq!(t, "Joined");
        }
        _ => panic!("expected a join"),
    }
    assert_eq!(s.game_id, Some("abcdef".to_string()));
}

#[test]
fn created_room_is_fresh_and_redirects() {
    let mut s = active(5);
    let existing = vec!["aaaaaa".to_string(), "bbbbbb".to_string()];
    match s.games_listed(&existing) {
        Action::JoinRoom(j, t) => {
            assert_eq!(j.game_id.len(), GAME_ID_LEN);
            assert!(!existing.contains(&j.game_id));
            assert_eq!(t, format!("/redirect{}", j.game_id));
            assert_eq!(s.game_id, Some(j.game_id));
        }
        _ => panic!("expected a join"),
    }
}

#[test]
fn room_codes_are_lowercase_alphanumeric() {
    for _ in 0..50 {
        let c = gen_game_id();
        assert_eq!(c.len(), GAME_ID_LEN);
        assert!(c.chars().all(|ch| ch.is_ascii_lowercase() || ch.is_ascii_digit()));
    }
}

#[test]
fn fresh_code_avoids_taken_ones() {
    let existing = vec!["abc123".to_string()];
    assert!(is_taken(&existing, &"abc123".to_string()));
    assert!(!is_taken(&existing, &"abc124".to_string()));
    let c = fresh_game_id(&existing).unwrap();
    assert!(!is_taken(&existing, &c));
}

#[test]
fn consecutive_creations_get_different_codes() {
    let mut broker: GameServer<u32> = GameServer::new();
    broker.register(1, 0);
    broker.register(2, 0);
    let mut a = active(1);
    let mut b = active(2);
    let first = match a.games_listed(&broker.list_games(&ListGames {})) {
        Action::JoinRoom(j, _) => j,
        _ => panic!("expected a join"),
    };
    let code = first.game_id.clone();
    broker.join(first);
    let second = match b.games_listed(&broker.list_games(&ListGames {})) {
        Action::JoinRoom(j, _) => j,
        _ => panic!("expected a join"),
    };
    assert_ne!(code, second.game_id);
}

#[test]
fn heartbeat_probes_then_times_out() {
    let mut s = active(8);
    s.touch(1000);
    assert!(matches!(s.heartbeat(1000 + CLIENT_TIMEOUT_MS), Action::Ping));
    assert_eq!(s.phase, Phase::Active);
    match s.heartbeat(1001 + CLIENT_TIMEOUT_MS) {
        Action::Close(d) => assert_eq!(d.id, 8),
        _ => panic!("expected a close"),
    }
    assert_eq!(s.phase, Phase::Closed);
    assert!(matches!(s.heartbeat(5000 + CLIENT_TIMEOUT_MS), Action::Nothing));
}

#[test]
fn stopping_reports_only_an_active_session() {
    let mut s = active(8);
    assert_eq!(s.stopping().map(|d| d.id), Some(8));
    assert_eq!(s.phase, Phase::Closed);
    assert!(s.stopping().is_none());
    let mut t = WsGameSession::new(0);
    assert!(t.stopping().is_none());
}

#[test]
fn two_players_meet_in_a_created_room() {
    let mut broker: GameServer<u32> = GameServer::new();
    assert!(broker.register(7, 0));
    let mut s7 = active(7);
    assert!(matches!(s7.handle_text("/create", 1), Action::ListGames(_)));
    let join7 = match s7.room_created("ab12cd".to_string()) {
        Action::JoinRoom(j, t) => {
            assert_eq!(t, "/redirectab12cd");
            j
        }
        _ => panic!("expected a join"),
    };
    assert_eq!(broker.join(join7), vec![push(7, "Hello from here")]);
    assert_eq!(broker.room_members(&"ab12cd".to_string()), Some(vec![7]));

    assert!(broker.register(9, 0));
    let mut s9 = active(9);
    let q = match s9.handle_text("/join ab12cd", 2) {
        Action::CheckGame(q) => q,
        _ => panic!("expected a room check"),
    };
    let exists = broker.check_game_exists(&q);
    assert!(exists);
    let join9 = match s9.join_checked(q.game_id, exists) {
        Action::JoinRoom(j, t) => {
            assert_eq!(t, "Joined");
            j
        }
        _ => panic!("expected a join"),
    };
    assert_eq!(
        broker.join(join9),
        vec![push(7, "Someone connected"), push(9, "Hello from here")]
    );

    let cm = match s9.handle_text("hi", 3) {
        Action::Forward(cm) => cm,
        _ => panic!("expected a relay"),
    };
    assert_eq!(broker.client_message(&cm), vec![push(7, "hi")]);

    let bye = s7.stopping().unwrap();
    assert_eq!(broker.disconnect(bye), vec![push(9, "Someone disconnected")]);
    assert_eq!(broker.room_members(&"ab12cd".to_string()), Some(vec![9]));
}

#[test]
fn lower_code_lowers_each_drawn_byte() {
    assert_eq!(game_relay::ids::lower_code(b"AbZ9q0".to_vec()), "abz9q0");
    assert_eq!(game_relay::ids::lower_code(Vec::new()), "");
}

#[test]
fn lower_ascii_leaves_other_bytes() {
    assert_eq!(game_relay::ids::lower_ascii(b'Q'), b'q');
    assert_eq!(game_relay::ids::lower_ascii(b'7'), b'7');
    assert_eq!(game_relay::ids::lower_ascii(b'['), b'[');
}

#[test]
fn a_code_is_always_found_when_no_room_exists() {
    assert!(fresh_game_id(&Vec::new()).is_some());
    let mut s = active(2);
    assert!(matches!(s.games_listed(&Vec::new()), Action::JoinRoom(_, _)));
}

#[test]
fn unicode_whitespace_is_trimmed() {
    let mut s = active(1);
    s.handle_text("\u{3000}\t/name bob\u{a0}\n", 1);
    assert_eq!(s.name, Some("bob".to_string()));
}
