//! End-to-end server behavior: login broadcast, replication packets, the
//! dispatcher, chat commands, voting, and the client mirror.
use envell_net::server_core::{ServerCore, ReadEvent};
use envell_net::client_core::ClientCore;
use envell_net::codec::{ClientMessage, ServerMessage};
use envell_net::state::State;

fn fresh_core() -> ServerCore {
    ServerCore::new(State::new(), 30000)
}

fn decode_frames(frames: Vec<Vec<u8>>) -> Vec<ClientMessage> {
    let mut out = Vec::new();
    for f in frames {
        out.extend(ClientMessage::parse(&f).expect("frame decodes"));
    }
    out
}

#[test]
fn login_is_assigned_and_broadcast() {
    let mut core = fresh_core();
    let id = core.accept("10.0.0.1".to_string());
    assert_eq!(id, 1);
    // The client names itself; the server broadcasts the login to everyone.
    core.receive(1, ReadEvent::Data(ServerMessage::Register("Ari".to_string()).toRaw()));
    core.handleRequests(0);
    let msgs = decode_frames(core.flushBroadcast());
    assert_eq!(msgs.len(), 2);
    assert!(matches!(msgs[0], ClientMessage::Login(1, ref n) if n == "noname"));
    assert!(matches!(msgs[1], ClientMessage::Login(1, ref n) if n == "Ari"));
    assert_eq!(core.slotInfo(1).name, "Ari");
}

#[test]
fn capacity_exhaustion_is_silent() {
    let mut core = fresh_core();
    for want in 1u8..=5 {
        assert_eq!(core.accept(format!("10.0.0.{want}")), want);
    }
    assert_eq!(core.accept("10.0.0.6".to_string()), 0);
}

#[test]
fn tick_delivers_only_other_players_states() {
    let mut core = fresh_core();
    assert_eq!(core.accept("10.0.0.1".to_string()), 1);
    assert_eq!(core.accept("10.0.0.2".to_string()), 2);

    let mut c1 = ClientCore::new();
    c1.id = 1;
    c1.setState(100, 200, 3, 4, (1, true, false, false));
    let rec1 = c1.raw();
    let mut c2 = ClientCore::new();
    c2.id = 2;
    c2.setState(500, 600, 7, 8, (-1, false, true, true));
    let rec2 = c2.raw();

    assert!(core.applyDatagram(71, &rec1));
    assert!(core.applyDatagram(72, &rec2));
    assert_eq!(core.getUdp(1), Some(71));
    assert_eq!(core.getUdp(2), Some(72));

    let packets = core.tickPackets();
    assert_eq!(packets.len(), 2);
    // Slot 1 gets exactly slot 2's record, and the other way around:
    // never a slot's own state.
    assert_eq!(packets[0].0, 1);
    assert_eq!(packets[0].1, rec2);
    assert_eq!(packets[1].0, 2);
    assert_eq!(packets[1].1, rec1);

    // The client mirror applies the batch to the right seat.
    let mut mirror = ClientCore::new();
    mirror.setEP(false);
    assert!(mirror.applyBatch(&packets[0].1));
    let got = mirror.getState(2);
    assert_eq!(got.pos, (500, 600));
    assert_eq!(got.vel, (7, 8));
    assert_eq!(got.moveX, -1);
    assert!(!got.jump && got.attack && got.protect);
}

#[test]
fn lone_bound_slot_gets_no_packet() {
    let mut core = fresh_core();
    assert_eq!(core.accept("10.0.0.1".to_string()), 1);
    let mut c1 = ClientCore::new();
    c1.id = 1;
    let rec = c1.raw();
    assert!(core.applyDatagram(71, &rec));
    assert!(core.tickPackets().is_empty());
}

#[test]
fn chat_is_broadcast_and_recorded() {
    let mut core = fresh_core();
    core.accept("10.0.0.1".to_string());
    core.flushBroadcast();
    core.receive(1, ReadEvent::Data(ServerMessage::Chat("hello".to_string()).toRaw()));
    core.handleRequests(0);
    let msgs = decode_frames(core.flushBroadcast());
    assert_eq!(msgs.len(), 1);
    assert!(matches!(msgs[0], ClientMessage::Chat(ref t) if t == "hello"));
}

#[test]
fn disconnect_resets_the_slot_after_broadcast() {
    let mut core = fresh_core();
    core.accept("10.0.0.1".to_string());
    core.flushBroadcast();
    core.receive(1, ReadEvent::Closed);
    core.handleRequests(0);
    assert!(core.isConnected(1));
    let msgs = decode_frames(core.flushBroadcast());
    assert!(matches!(msgs[0], ClientMessage::Disconnected(1)));
    assert!(!core.isConnected(1));
    assert_eq!(core.slotInfo(1).name, "noname");
    // The freed seat is granted again.
    assert_eq!(core.accept("10.0.0.9".to_string()), 1);
}

#[test]
fn malformed_buffer_tears_the_connection_down() {
    let mut core = fresh_core();
    core.accept("10.0.0.1".to_string());
    core.flushBroadcast();
    core.receive(1, ReadEvent::Data(vec![1, 1, b'A']));
    core.handleRequests(0);
    let msgs = decode_frames(core.flushBroadcast());
    assert!(matches!(msgs[0], ClientMessage::Disconnected(1)));
}

#[test]
fn zero_length_read_counts_as_disconnect() {
    let mut core = fresh_core();
    core.accept("10.0.0.1".to_string());
    core.flushBroadcast();
    core.receive(1, ReadEvent::Data(Vec::new()));
    core.handleRequests(0);
    let msgs = decode_frames(core.flushBroadcast());
    assert!(matches!(msgs[0], ClientMessage::Disconnected(1)));
}

#[test]
fn get_game_info_answers_the_requester_only() {
    let mut core = fresh_core();
    core.accept("10.0.0.1".to_string());
    core.flushBroadcast();
    core.receive(1, ReadEvent::Data(ServerMessage::GetGameInfo(0).toRaw()));
    core.handleRequests(0);
    assert!(decode_frames(core.flushBroadcast()).is_empty());
    let replies = core.flushReplies();
    assert_eq!(replies.len(), 1);
    assert_eq!(replies[0].0, 1);
    let msgs = ClientMessage::parse(&replies[0].1).expect("reply decodes");
    match &msgs[0] {
        ClientMessage::GameInfo(0, raw) => {
            // port little-endian, tick rate, extended flag, roster text NUL,
            // checkpoint NUL.
            assert_eq!(u16::from_le_bytes([raw[0], raw[1]]), 30000);
            assert_eq!(raw[2], 1);
            assert_eq!(raw[3], 0);
            let rest = &raw[4..];
            let z = rest.iter().position(|b| *b == 0).expect("roster ends");
            assert_eq!(&rest[..z], b"1/noname/unknown|");
            let cp = &rest[z + 1..];
            assert_eq!(cp, b"main\0");
        }
        _ => panic!("wrong reply"),
    }
}

#[test]
fn game_info_record_reads_back() {
    let mut core = fresh_core();
    core.accept("10.0.0.1".to_string());
    core.receive(1, ReadEvent::Data(ServerMessage::GetGameInfo(0).toRaw()));
    core.handleRequests(0);
    let replies = core.flushReplies();
    let msgs = ClientMessage::parse(&replies[0].1).expect("reply decodes");
    match &msgs[0] {
        ClientMessage::GameInfo(_, raw) => {
            let (port, tick, extended, roster, checkpoint) =
                envell_net::codec::parseGameInfo(raw).expect("record reads back");
            assert_eq!(port, 30000);
            assert_eq!(tick, 1);
            assert!(!extended);
            assert_eq!(roster, "1/noname/unknown|");
            assert_eq!(checkpoint, "main");
        }
        _ => panic!("wrong reply"),
    }
}

#[test]
fn get_player_info_returns_the_account() {
    let mut core = fresh_core();
    core.accept("10.0.0.1".to_string());
    core.receive(1, ReadEvent::Data(ServerMessage::GetPlayerInfo(1).toRaw()));
    core.handleRequests(0);
    let replies = core.flushReplies();
    let msgs = ClientMessage::parse(&replies[0].1).expect("reply decodes");
    assert!(matches!(&msgs[0], ClientMessage::PlayerInfo(1, a) if a.name == "noname"));
}

#[test]
fn voting_resolves_to_strictly_highest_tally() {
    let mut core = fresh_core();
    core.accept("10.0.0.1".to_string());
    core.flushBroadcast();
    let start = ServerMessage::Chat("/voting \"map vote\" 30 plains caves".to_string());
    core.receive(1, ReadEvent::Data(start.toRaw()));
    core.handleRequests(1000);
    core.flushBroadcast();
    for _ in 0..2 {
        core.receive(1, ReadEvent::Data(ServerMessage::Chat("/vote 1".to_string()).toRaw()));
    }
    core.receive(1, ReadEvent::Data(ServerMessage::Chat("/vote 0".to_string()).toRaw()));
    core.handleRequests(2000);
    core.flushBroadcast();
    // Before the timeout nothing resolves.
    core.pollVoting(1000 + 29999);
    assert!(decode_frames(core.flushBroadcast()).is_empty());
    core.pollVoting(1000 + 30000);
    let msgs = decode_frames(core.flushBroadcast());
    assert_eq!(msgs.len(), 2);
    assert!(matches!(&msgs[0], ClientMessage::Chat(t) if t == "Voting result: caves (2 votes)"));
    assert!(matches!(&msgs[1], ClientMessage::Chat(t)
        if t == "/votingResult \"map vote\" \"caves\""));
    // Resolution clears the poll.
    core.pollVoting(1000 + 30000);
    assert!(decode_frames(core.flushBroadcast()).is_empty());
}

#[test]
fn voting_tie_falls_to_the_first_registered_option() {
    let mut core = fresh_core();
    core.accept("10.0.0.1".to_string());
    let start = ServerMessage::Chat("/voting t 1 first second".to_string());
    core.receive(1, ReadEvent::Data(start.toRaw()));
    core.receive(1, ReadEvent::Data(ServerMessage::Chat("/vote 0".to_string()).toRaw()));
    core.receive(1, ReadEvent::Data(ServerMessage::Chat("/vote 1".to_string()).toRaw()));
    core.handleRequests(0);
    core.flushBroadcast();
    core.pollVoting(1000);
    let msgs = decode_frames(core.flushBroadcast());
    assert!(matches!(&msgs[0], ClientMessage::Chat(t)
        if t == "Voting result: first (1 votes)"));
}

#[test]
fn fractional_timeouts_count_in_milliseconds() {
    let mut core = fresh_core();
    core.accept("10.0.0.1".to_string());
    core.receive(1, ReadEvent::Data(
        ServerMessage::Chat("/voting t 0.5 yes no".to_string()).toRaw()));
    core.receive(1, ReadEvent::Data(ServerMessage::Chat("/vote 1".to_string()).toRaw()));
    core.handleRequests(0);
    core.flushBroadcast();
    core.pollVoting(499);
    assert!(decode_frames(core.flushBroadcast()).is_empty());
    core.pollVoting(500);
    let msgs = decode_frames(core.flushBroadcast());
    assert!(matches!(&msgs[0], ClientMessage::Chat(t) if t == "Voting result: no (1 votes)"));
    // A second decimal point is no number: the command is ignored.
    let mut other = fresh_core();
    other.accept("10.0.0.1".to_string());
    other.receive(1, ReadEvent::Data(
        ServerMessage::Chat("/voting t 1.2.3 yes no".to_string()).toRaw()));
    other.handleRequests(0);
    other.flushBroadcast();
    other.pollVoting(u64::MAX);
    assert!(decode_frames(other.flushBroadcast()).is_empty());
}

#[test]
fn own_state_keeps_the_raw_direction() {
    // The setter stores the move direction as given; only the encoder
    // reduces a value that is neither left nor right to standing still.
    let mut c = ClientCore::new();
    c.id = 1;
    c.setState(10, 20, 0, 0, (5, false, false, false));
    let rec = c.raw();
    let (_, back) = envell_net::player_state::PlayerState::parse(&rec, 0);
    assert_eq!(back.moveX, 0);
    assert_eq!(back.pos, (10, 20));
}

#[test]
fn new_vote_discards_the_running_one() {
    let mut core = fresh_core();
    core.accept("10.0.0.1".to_string());
    core.receive(1, ReadEvent::Data(
        ServerMessage::Chat("/voting old 60 a b".to_string()).toRaw()));
    core.receive(1, ReadEvent::Data(ServerMessage::Chat("/vote 1".to_string()).toRaw()));
    core.receive(1, ReadEvent::Data(
        ServerMessage::Chat("/voting new 1 x y".to_string()).toRaw()));
    core.handleRequests(0);
    core.flushBroadcast();
    core.pollVoting(1000);
    let msgs = decode_frames(core.flushBroadcast());
    // The old poll and its vote are gone: the new poll resolves with no
    // votes, falling to its first option.
    assert!(matches!(&msgs[0], ClientMessage::Chat(t) if t == "Voting result: x (0 votes)"));
    assert!(matches!(&msgs[1], ClientMessage::Chat(t) if t == "/votingResult \"new\" \"x\""));
}

#[test]
fn kick_disconnects_by_name_with_a_taunt() {
    let mut core = fresh_core();
    core.accept("10.0.0.1".to_string());
    core.receive(1, ReadEvent::Data(ServerMessage::Register("Ari".to_string()).toRaw()));
    core.handleRequests(0);
    core.flushBroadcast();
    // A self-kick: the taunt is one of four, drawn at random.
    core.receive(1, ReadEvent::Data(ServerMessage::Chat("/kick".to_string()).toRaw()));
    core.handleRequests(0);
    let msgs = decode_frames(core.flushBroadcast());
    assert_eq!(msgs.len(), 2);
    assert!(matches!(msgs[0], ClientMessage::Disconnected(1)));
    let taunts = [
        "Player Ari shot themselves in the knee.",
        "Player Ari walked the plank.",
        "Player Ari stood themselves in the corner.",
        "Player Ari was punished by default.",
    ];
    match &msgs[1] {
        ClientMessage::Chat(t) => assert!(taunts.contains(&t.as_str()), "unexpected: {t}"),
        _ => panic!("wrong message"),
    }
}

#[test]
fn kick_by_name_names_the_kicker() {
    let mut core = fresh_core();
    core.accept("10.0.0.1".to_string());
    core.accept("10.0.0.2".to_string());
    core.receive(1, ReadEvent::Data(ServerMessage::Register("Ari".to_string()).toRaw()));
    core.receive(2, ReadEvent::Data(ServerMessage::Register("Bo".to_string()).toRaw()));
    core.handleRequests(0);
    core.flushBroadcast();
    core.receive(1, ReadEvent::Data(ServerMessage::Chat("/kick Bo".to_string()).toRaw()));
    core.handleRequests(0);
    let msgs = decode_frames(core.flushBroadcast());
    assert_eq!(msgs.len(), 2);
    assert!(matches!(msgs[0], ClientMessage::Disconnected(2)));
    assert!(matches!(&msgs[1], ClientMessage::Chat(t)
        if t == "Player Ari kicked Bo from the game."));
    assert!(!core.isConnected(2));
    assert!(core.isConnected(1));
}

#[test]
fn client_mirror_rejects_wrong_length_batches_whole() {
    let mut mirror = ClientCore::new();
    mirror.setEP(true);
    assert_eq!(mirror.getEP(), true);
    let mut c = ClientCore::new();
    c.id = 3;
    c.setState(9, 9, 9, 9, (0, false, false, false));
    let mut batch = c.raw();
    batch.push(0);
    assert!(!mirror.applyBatch(&batch));
    // Nothing was applied: slot 3 still holds the zero state.
    assert_eq!(mirror.getState(3).pos, (0, 0));
    batch.pop();
    assert!(mirror.applyBatch(&batch));
    assert_eq!(mirror.getState(3).pos, (9, 9));
}

#[test]
fn client_history_collects_decoded_messages() {
    let mut mirror = ClientCore::new();
    let mut bytes = ClientMessage::Login(1, "Ari".to_string()).toRaw();
    bytes.extend_from_slice(&ClientMessage::GameReady(2).toRaw());
    assert!(mirror.applyTcp(&bytes));
    let hist = mirror.takeHistory();
    assert_eq!(hist.len(), 2);
    assert!(matches!(&hist[0], ClientMessage::Login(1, n) if n == "Ari"));
    assert!(matches!(hist[1], ClientMessage::GameReady(2)));
    assert!(!mirror.applyTcp(&vec![1, 1]));
}

#[test]
fn save_point_and_accounts_feed_the_document() {
    let mut core = fresh_core();
    core.accept("10.0.0.1".to_string());
    core.receive(1, ReadEvent::Data(ServerMessage::Register("Ari".to_string()).toRaw()));
    core.handleRequests(0);
    core.recordAccount("10.0.0.1".to_string(), core.slotInfo(1));
    core.setSavePoint("cave".to_string(), "1 May 2024 - 1:2:3".to_string());
    let doc = String::from_utf8(envell_net::json_out::emit_save(core.stateRef()))
        .expect("utf8");
    assert!(doc.contains("\"10.0.0.1\":{\"name\":\"Ari\""));
    assert!(doc.contains("\"checkpoint\":\"cave\""));
    assert!(doc.contains("\"date\":\"1 May 2024 - 1:2:3\""));
}
