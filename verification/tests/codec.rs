//! Wire-codec behavior: message round trips on both channels, rejection of
//! malformed buffers, the state-record bit layout, and the text helpers.
use envell_net::codec::{ClientMessage, ServerMessage, DecodedClient, DecodedServer};
use envell_net::player_state::{PlayerState, decode_batch};
use envell_net::state::Account;
use envell_net::server_core::{split, parse_u64, discoveryReply};
use envell_net::bytes::{dec_string, ascii_to_string};
use envell_net::datetime::format_datetime;

fn roundtrip_client(m: ClientMessage) -> (ClientMessage, usize, Vec<u8>) {
    let bytes = m.toRaw();
    match ClientMessage::fromRaw(&bytes, 0) {
        DecodedClient::Msg(back, n) => (back, n, bytes),
        _ => panic!("decode failed"),
    }
}

fn roundtrip_server(m: ServerMessage) -> (ServerMessage, usize, Vec<u8>) {
    let bytes = m.toRaw();
    match ServerMessage::fromRaw(&bytes, 0) {
        DecodedServer::Msg(back, n) => (back, n, bytes),
        _ => panic!("decode failed"),
    }
}

#[test]
fn login_roundtrip() {
    let (back, n, bytes) = roundtrip_client(ClientMessage::Login(3, "Ari".to_string()));
    assert_eq!(n, bytes.len());
    assert_eq!(bytes, vec![1, 3, b'A', b'r', b'i', 0]);
    match back {
        ClientMessage::Login(id, name) => {
            assert_eq!(id, 3);
            assert_eq!(name, "Ari");
        }
        _ => panic!("wrong variant"),
    }
}

#[test]
fn login_roundtrip_empty_name() {
    let (back, n, bytes) = roundtrip_client(ClientMessage::Login(1, String::new()));
    assert_eq!(n, bytes.len());
    assert_eq!(bytes, vec![1, 1, 0]);
    match back {
        ClientMessage::Login(id, name) => {
            assert_eq!(id, 1);
            assert_eq!(name, "");
        }
        _ => panic!("wrong variant"),
    }
}

#[test]
fn login_roundtrip_utf8_name() {
    let name = "\u{414}ara \u{4e16}".to_string();
    let (back, _, _) = roundtrip_client(ClientMessage::Login(2, name.clone()));
    match back {
        ClientMessage::Login(id, got) => {
            assert_eq!(id, 2);
            assert_eq!(got, name);
        }
        _ => panic!("wrong variant"),
    }
}

#[test]
fn disconnected_roundtrip() {
    let (back, n, bytes) = roundtrip_client(ClientMessage::Disconnected(7));
    assert_eq!((n, bytes), (2, vec![2, 7]));
    assert!(matches!(back, ClientMessage::Disconnected(7)));
}

#[test]
fn chat_roundtrip() {
    let (back, n, bytes) = roundtrip_client(ClientMessage::Chat("hello world".to_string()));
    assert_eq!(n, bytes.len());
    assert_eq!(bytes[0], 3);
    match back {
        ClientMessage::Chat(text) => assert_eq!(text, "hello world"),
        _ => panic!("wrong variant"),
    }
}

#[test]
fn game_info_roundtrip() {
    let raw = vec![9u8, 8, 7, 0, 5];
    let (back, n, bytes) = roundtrip_client(ClientMessage::GameInfo(2, raw.clone()));
    assert_eq!(n, bytes.len());
    assert_eq!(bytes, vec![4, 2, 5, 0, 9, 8, 7, 0, 5]);
    match back {
        ClientMessage::GameInfo(kind, got) => {
            assert_eq!(kind, 2);
            assert_eq!(got, raw);
        }
        _ => panic!("wrong variant"),
    }
}

#[test]
fn player_info_roundtrip() {
    let info = Account { name: "Rin".to_string(), class: "bard".to_string(),
        color: (10, 20, 30), hp: 999 };
    let (back, n, bytes) = roundtrip_client(ClientMessage::PlayerInfo(4, info));
    assert_eq!(n, bytes.len());
    // tag, id, r, g, b, hp big-endian, name NUL, class NUL
    assert_eq!(bytes[0..7], [5, 4, 10, 20, 30, 3, 231]);
    match back {
        ClientMessage::PlayerInfo(id, got) => {
            assert_eq!(id, 4);
            assert_eq!(got.name, "Rin");
            assert_eq!(got.class, "bard");
            assert_eq!(got.color, (10, 20, 30));
            assert_eq!(got.hp, 999);
        }
        _ => panic!("wrong variant"),
    }
}

#[test]
fn select_char_roundtrip() {
    let (back, _, bytes) = roundtrip_client(ClientMessage::SelectChar(2, "thief".to_string()));
    assert_eq!(bytes[0], 6);
    match back {
        ClientMessage::SelectChar(id, class) => {
            assert_eq!(id, 2);
            assert_eq!(class, "thief");
        }
        _ => panic!("wrong variant"),
    }
}

#[test]
fn game_ready_roundtrip() {
    let (back, n, bytes) = roundtrip_client(ClientMessage::GameReady(2));
    assert_eq!((n, bytes), (2, vec![7, 2]));
    assert!(matches!(back, ClientMessage::GameReady(2)));
}

#[test]
fn server_messages_roundtrip() {
    let (back, _, bytes) = roundtrip_server(ServerMessage::Register("Ari".to_string()));
    assert_eq!(bytes, vec![1, b'A', b'r', b'i', 0]);
    assert!(matches!(back, ServerMessage::Register(ref n) if n == "Ari"));

    let (back, _, _) = roundtrip_server(ServerMessage::Chat("/vote 1".to_string()));
    assert!(matches!(back, ServerMessage::Chat(ref t) if t == "/vote 1"));

    let (back, n, bytes) = roundtrip_server(ServerMessage::Disconnected);
    assert_eq!((n, bytes), (1, vec![3]));
    assert!(matches!(back, ServerMessage::Disconnected));

    let (back, _, _) = roundtrip_server(ServerMessage::GetGameInfo(1));
    assert!(matches!(back, ServerMessage::GetGameInfo(1)));

    let (back, _, _) = roundtrip_server(ServerMessage::GetPlayerInfo(5));
    assert!(matches!(back, ServerMessage::GetPlayerInfo(5)));

    let (back, _, _) = roundtrip_server(ServerMessage::SetPlayerInfo(2, vec![1, 2, 3]));
    assert!(matches!(back, ServerMessage::SetPlayerInfo(2, ref r) if *r == vec![1, 2, 3]));

    let (back, _, _) = roundtrip_server(ServerMessage::SetGameInfo(9, Vec::new()));
    assert!(matches!(back, ServerMessage::SetGameInfo(9, ref r) if r.is_empty()));
}

#[test]
fn reencode_decoded_buffer() {
    // A buffer that decodes cleanly re-encodes to the very same bytes.
    let bytes = vec![3, b'h', b'i', 0];
    match ClientMessage::fromRaw(&bytes, 0) {
        DecodedClient::Msg(m, n) => {
            assert_eq!(n, bytes.len());
            assert_eq!(m.toRaw(), bytes);
        }
        _ => panic!("decode failed"),
    }
}

#[test]
fn truncated_message_is_malformed() {
    // A login whose name never ends runs past the buffer.
    let bytes = vec![1, 1, b'A', b'r'];
    assert!(matches!(ClientMessage::fromRaw(&bytes, 0), DecodedClient::Malformed));
    // A blob whose length prefix overruns the buffer.
    let bytes = vec![4, 1, 9, 0, 1, 2];
    assert!(matches!(ClientMessage::fromRaw(&bytes, 0), DecodedClient::Malformed));
}

#[test]
fn invalid_utf8_is_malformed() {
    let bytes = vec![3, 0xff, 0xfe, 0];
    assert!(matches!(ClientMessage::fromRaw(&bytes, 0), DecodedClient::Malformed));
}

#[test]
fn unknown_tag_is_skipped_not_fatal() {
    let bytes = vec![200, 2, 5];
    assert!(matches!(ClientMessage::fromRaw(&bytes, 0), DecodedClient::Unknown(1)));
    let msgs = ClientMessage::parse(&bytes).expect("stream survives unknown tags");
    assert_eq!(msgs.len(), 1);
    assert!(matches!(msgs[0], ClientMessage::Disconnected(5)));
}

#[test]
fn stream_parses_concatenated_messages() {
    let mut bytes = ClientMessage::Chat("a".to_string()).toRaw();
    bytes.extend_from_slice(&ClientMessage::Disconnected(2).toRaw());
    bytes.extend_from_slice(&ClientMessage::GameReady(1).toRaw());
    let msgs = ClientMessage::parse(&bytes).expect("stream decodes");
    assert_eq!(msgs.len(), 3);
    assert!(matches!(msgs[0], ClientMessage::Chat(ref t) if t == "a"));
    assert!(matches!(msgs[1], ClientMessage::Disconnected(2)));
    assert!(matches!(msgs[2], ClientMessage::GameReady(1)));
}

#[test]
fn stream_with_torn_tail_is_rejected_whole() {
    let mut bytes = ClientMessage::Chat("a".to_string()).toRaw();
    bytes.push(1);  // a login whose payload never arrives
    assert!(ClientMessage::parse(&bytes).is_none());
}

#[test]
fn state_record_roundtrip_all_flags() {
    for id in 0u8..8 {
        for (move_x, jump, attack, protect) in [
            (-1i8, false, false, false),
            (1, true, false, true),
            (0, true, true, true),
            (-1, true, true, false),
            (0, false, false, false),
        ] {
            let s = PlayerState { pos: (12, 65535), vel: (0, 30000), moveX: move_x,
                jump, attack, protect };
            let raw = s.raw(id);
            assert_eq!(raw.len(), 9);
            let (got_id, got) = PlayerState::parse(&raw, 0);
            assert_eq!(got_id, id);
            assert_eq!(got, s);
        }
    }
}

#[test]
fn state_record_layout() {
    let s = PlayerState { pos: (0x0201, 0x0403), vel: (0x0605, 0x0807), moveX: -1,
        jump: true, attack: true, protect: true };
    let raw = s.raw(5);
    assert_eq!(raw, vec![5 | 0x20 | 0x08 | 0x80 | 0x40, 1, 2, 3, 4, 5, 6, 7, 8]);
}

#[test]
fn batch_of_wrong_length_is_rejected() {
    for n in [1usize, 8, 10, 17, 26] {
        let data = vec![0u8; n];
        assert!(decode_batch(&data).is_none(), "length {n} must be rejected");
    }
    assert!(decode_batch(&vec![0u8; 18]).is_some());
    assert!(decode_batch(&Vec::new()).is_some());
}

#[test]
fn discovery_reply_is_port_little_endian() {
    let r = discoveryReply(26225);
    assert_eq!(r.len(), 2);
    assert_eq!(u16::from_le_bytes([r[0], r[1]]), 26225);
    assert_eq!(r, 26225u16.to_le_bytes().to_vec());
}

#[test]
fn split_tokenizes_with_quotes() {
    let v = split("voting \"big question\" 30 yes no".to_string());
    assert_eq!(v, vec!["voting", "big question", "30", "yes", "no"]);
    let v = split("  a  b ".to_string());
    assert_eq!(v, vec!["a", "b"]);
    let v = split("".to_string());
    assert!(v.is_empty());
    let v = split("ab\"cd ef\"gh".to_string());
    assert_eq!(v, vec!["ab", "cd ef", "gh"]);
}

#[test]
fn parse_u64_accepts_digits_only() {
    assert_eq!(parse_u64(&"0".to_string()), Some(0));
    assert_eq!(parse_u64(&"30".to_string()), Some(30));
    assert_eq!(parse_u64(&"18446744073709551615".to_string()), Some(u64::MAX));
    assert_eq!(parse_u64(&"18446744073709551616".to_string()), None);
    assert_eq!(parse_u64(&"".to_string()), None);
    assert_eq!(parse_u64(&"1x".to_string()), None);
    assert_eq!(parse_u64(&"-1".to_string()), None);
}

#[test]
fn decimal_rendering() {
    assert_eq!(dec_string(0), "0");
    assert_eq!(dec_string(907), "907");
    assert_eq!(dec_string(u64::MAX), "18446744073709551615");
}

#[test]
fn ascii_conversion() {
    assert_eq!(ascii_to_string(vec![104, 105]), "hi");
}

#[test]
fn datetime_formatting() {
    assert_eq!(format_datetime(0), "0 January 1970 - 0:0:0");
    // 430 days and 1:02:03 past the epoch: 65 days into 1971.
    assert_eq!(format_datetime(86400 * 430 + 3723), "6 March 1971 - 1:2:3");
}

#[test]
fn quantized_state_is_within_half_a_unit() {
    // The state channel carries whole 16-bit values: a float position is
    // rounded to the nearest integer before encoding, so what the peers
    // read back differs from the sent value by at most one half.
    for v in [0.0f32, 0.49, 0.51, 12.25, 99.5, 65534.6, 700.0] {
        let q = v.round().clamp(0.0, 65535.0) as u16;
        let s = PlayerState { pos: (q, 0), vel: (0, 0), moveX: 0, jump: false,
            attack: false, protect: false };
        let (_, back) = PlayerState::parse(&s.raw(1), 0);
        assert!((back.pos.0 as f32 - v).abs() <= 0.5);
    }
    // Negative and oversized values clamp to the range's edges.
    assert_eq!((-3.0f32).round().clamp(0.0, 65535.0) as u16, 0);
    assert_eq!((70000.0f32).round().clamp(0.0, 65535.0) as u16, 65535);
}
