use game_relay::game_server::{
    CheckGameExists, ClientMessage, Connect, Delivery, Disconnect, GameServer, Join, ListGames,
    Message,
};

fn push(to: usize, text: &str) -> Delivery {
    Delivery { to, msg: Message(text.to_string()) }
}

fn join(s: &mut GameServer<u32>, id: usize, code: &str) -> Vec<Delivery> {
    s.join(Join { id, game_id: code.to_string() })
}

#[test]
fn new_broker_is_empty() {
    let s: GameServer<u32> = GameServer::new();
    assert!(s.list_games(&ListGames {}).is_empty());
    assert!(!s.has_session(0));
}

#[test]
fn register_refuses_a_live_id() {
    let mut s: GameServer<u32> = GameServer::new();
    assert!(s.register(7, 70));
    assert!(!s.register(7, 71));
    assert_eq!(s.session(7), Some(&70));
}

#[test]
fn connect_hands_out_distinct_ids() {
    let mut s: GameServer<u32> = GameServer::new();
    let a = s.connect(Connect { addr: 1 }).unwrap();
    let b = s.connect(Connect { addr: 2 }).unwrap();
    assert_ne!(a, b);
    assert_eq!(s.session(a), Some(&1));
    assert_eq!(s.session(b), Some(&2));
}

#[test]
fn join_creates_room_with_sole_member() {
    let mut s: GameServer<u32> = GameServer::new();
    s.register(7, 0);
    let d = join(&mut s, 7, "ab12cd");
    assert_eq!(d, vec![push(7, "Hello from here")]);
    assert_eq!(s.room_members(&"ab12cd".to_string()), Some(vec![7]));
    assert_eq!(s.list_games(&ListGames {}), vec!["ab12cd".to_string()]);
}

#[test]
fn join_of_unregistered_session_changes_nothing() {
    let mut s: GameServer<u32> = GameServer::new();
    let d = join(&mut s, 3, "room01");
    assert!(d.is_empty());
    assert!(!s.check_game_exists(&CheckGameExists { game_id: "room01".to_string() }));
}

#[test]
fn join_moves_a_session_out_of_its_former_room() {
    let mut s: GameServer<u32> = GameServer::new();
    s.register(1, 0);
    s.register(2, 0);
    join(&mut s, 1, "aaaaaa");
    join(&mut s, 2, "aaaaaa");
    let d = join(&mut s, 1, "bbbbbb");
    assert_eq!(d, vec![push(2, "Someone disconnected"), push(1, "Hello from here")]);
    assert_eq!(s.room_members(&"aaaaaa".to_string()), Some(vec![2]));
    assert_eq!(s.room_members(&"bbbbbb".to_string()), Some(vec![1]));
}

#[test]
fn relay_skips_the_sender_and_other_rooms() {
    let mut s: GameServer<u32> = GameServer::new();
    for id in [1usize, 2, 3, 4] {
        s.register(id, 0);
    }
    join(&mut s, 1, "aaaaaa");
    join(&mut s, 2, "aaaaaa");
    join(&mut s, 3, "aaaaaa");
    join(&mut s, 4, "bbbbbb");
    let d = s.client_message(&ClientMessage {
        id: 2,
        msg: "hello".to_string(),
        game_id: Some("aaaaaa".to_string()),
    });
    assert_eq!(d, vec![push(1, "hello"), push(3, "hello")]);
}

#[test]
fn relay_to_no_room_or_unknown_room_reaches_no_one() {
    let mut s: GameServer<u32> = GameServer::new();
    s.register(1, 0);
    s.register(2, 0);
    join(&mut s, 1, "aaaaaa");
    join(&mut s, 2, "aaaaaa");
    assert!(s.send_message(None, "x", 1).is_empty());
    assert!(s.send_message(Some(&"zzzzzz".to_string()), "x", 1).is_empty());
}

#[test]
fn disconnect_removes_session_and_notifies_room() {
    let mut s: GameServer<u32> = GameServer::new();
    s.register(1, 0);
    s.register(2, 0);
    join(&mut s, 1, "aaaaaa");
    join(&mut s, 2, "aaaaaa");
    let d = s.disconnect(Disconnect { id: 1 });
    assert_eq!(d, vec![push(2, "Someone disconnected")]);
    assert!(!s.has_session(1));
    assert_eq!(s.room_members(&"aaaaaa".to_string()), Some(vec![2]));
    let relayed = s.client_message(&ClientMessage {
        id: 2,
        msg: "still here?".to_string(),
        game_id: Some("aaaaaa".to_string()),
    });
    assert!(relayed.is_empty());
}

#[test]
fn disconnect_of_unknown_id_is_a_no_op() {
    let mut s: GameServer<u32> = GameServer::new();
    s.register(1, 0);
    join(&mut s, 1, "aaaaaa");
    assert!(s.disconnect(Disconnect { id: 5 }).is_empty());
    assert!(s.has_session(1));
    assert_eq!(s.room_members(&"aaaaaa".to_string()), Some(vec![1]));
}

#[test]
fn empty_rooms_persist() {
    let mut s: GameServer<u32> = GameServer::new();
    s.register(1, 0);
    join(&mut s, 1, "aaaaaa");
    s.disconnect(Disconnect { id: 1 });
    assert!(s.check_game_exists(&CheckGameExists { game_id: "aaaaaa".to_string() }));
    assert_eq!(s.room_members(&"aaaaaa".to_string()), Some(vec![]));
}

#[test]
fn rejoining_the_same_room_keeps_one_membership() {
    let mut s: GameServer<u32> = GameServer::new();
    s.register(1, 0);
    s.register(2, 0);
    join(&mut s, 1, "aaaaaa");
    join(&mut s, 2, "aaaaaa");
    let d = join(&mut s, 1, "aaaaaa");
    assert_eq!(
        d,
        vec![
            push(2, "Someone disconnected"),
            push(2, "Someone connected"),
            push(1, "Hello from here")
        ]
    );
    assert_eq!(s.room_members(&"aaaaaa".to_string()), Some(vec![2, 1]));
}

#[test]
fn first_connect_always_succeeds() {
    let mut s: GameServer<u32> = GameServer::new();
    assert!(s.connect(Connect { addr: 9 }).is_some());
}

#[test]
fn second_disconnect_is_a_no_op() {
    let mut s: GameServer<u32> = GameServer::new();
    s.register(1, 0);
    s.register(2, 0);
    join(&mut s, 1, "aaaaaa");
    join(&mut s, 2, "aaaaaa");
    s.disconnect(Disconnect { id: 1 });
    assert!(s.disconnect(Disconnect { id: 1 }).is_empty());
    assert_eq!(s.room_members(&"aaaaaa".to_string()), Some(vec![2]));
    assert!(s.has_session(2));
}
