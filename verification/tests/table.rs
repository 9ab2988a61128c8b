//! Slot-table capacity and role rules, accounts, permissions, and the
//! persisted documents.
use envell_net::table::SlotTable;
use envell_net::state::{State, Account};
use envell_net::config::{Config, Permission};
use envell_net::json_out::{emit_save, emit_config};

fn named(name: &str, class: &str) -> Account {
    Account { name: name.to_string(), class: class.to_string(), color: (255, 255, 255), hp: 0 }
}

#[test]
fn capacity_is_exhausted_deterministically() {
    let mut t = SlotTable::new(5);
    for want in 1u8..=5 {
        let got = t.acceptConnection(Account::default());
        assert_eq!(got, want);
    }
    // The sixth connect attempt after five successes yields no capacity.
    assert_eq!(t.acceptConnection(Account::default()), 0);
    // Freeing a seat makes exactly that id available again.
    t.reset(3);
    assert_eq!(t.acceptConnection(Account::default()), 3);
    assert_eq!(t.acceptConnection(Account::default()), 0);
}

#[test]
fn smallest_free_id_wins() {
    let mut t = SlotTable::new(10);
    assert_eq!(t.acceptConnection(Account::default()), 1);
    assert_eq!(t.acceptConnection(Account::default()), 2);
    assert_eq!(t.acceptConnection(Account::default()), 3);
    t.reset(1);
    assert_eq!(t.getAvailablePlayerID(), 1);
    assert_eq!(t.acceptConnection(Account::default()), 1);
    assert_eq!(t.getAvailablePlayerID(), 4);
}

#[test]
fn role_free_is_always_granted() {
    let mut t = SlotTable::new(5);
    t.acceptConnection(named("a", "unknown"));
    assert_eq!(t.updateClass("unknown".to_string(), "bard".to_string(), false), "bard");
    assert_eq!(t.updateClass("unknown".to_string(), "bard".to_string(), true), "bard");
}

#[test]
fn role_held_once_needs_extended_roster() {
    let mut t = SlotTable::new(5);
    t.acceptConnection(named("a", "bard"));
    // Held by exactly one seat: granted only under the extended roster.
    assert_eq!(t.updateClass("unknown".to_string(), "bard".to_string(), false), "unknown");
    assert_eq!(t.updateClass("thief".to_string(), "bard".to_string(), false), "thief");
    assert_eq!(t.updateClass("unknown".to_string(), "bard".to_string(), true), "bard");
}

#[test]
fn role_held_twice_is_always_rejected() {
    let mut t = SlotTable::new(5);
    t.acceptConnection(named("a", "bard"));
    t.connect(2, named("b", "bard"));
    assert_eq!(t.updateClass("unknown".to_string(), "bard".to_string(), true), "unknown");
    assert_eq!(t.updateClass("thief".to_string(), "bard".to_string(), true), "thief");
}

#[test]
fn requesting_the_held_class_gives_the_placeholder() {
    let t = SlotTable::new(5);
    assert_eq!(t.updateClass("bard".to_string(), "bard".to_string(), true), "unknown");
}

#[test]
fn first_datagram_binds_the_peer_for_good() {
    let mut t = SlotTable::new(5);
    t.acceptConnection(Account::default());
    let mut rec = vec![0u8; 9];
    rec[0] = 1;
    rec[1] = 42;
    assert!(t.applyDatagram(700, &rec));
    assert_eq!(t.getUdp(1), Some(700));
    // A later record from another peer is applied without re-binding.
    let mut rec2 = vec![0u8; 9];
    rec2[0] = 1;
    rec2[1] = 43;
    assert!(t.applyDatagram(900, &rec2));
    assert_eq!(t.getUdp(1), Some(700));
}

#[test]
fn wrong_size_datagram_changes_nothing() {
    let mut t = SlotTable::new(5);
    t.acceptConnection(Account::default());
    assert!(!t.applyDatagram(700, &vec![1u8; 8]));
    assert!(!t.applyDatagram(700, &vec![1u8; 10]));
    assert_eq!(t.getUdp(1), None);
    // A record naming no seat of this table is dropped too.
    let mut rec = vec![0u8; 9];
    rec[0] = 7;
    assert!(!t.applyDatagram(700, &rec));
    rec[0] = 0;
    assert!(!t.applyDatagram(700, &rec));
}

#[test]
fn accounts_are_created_on_first_sight() {
    let mut s = State::new();
    let a = s.getPlayerInfo("10.0.0.1".to_string());
    assert_eq!(a.name, "noname");
    assert_eq!(a.class, "unknown");
    assert_eq!(a.color, (255, 255, 255));
    s.setAccount("10.0.0.1".to_string(), named("Ari", "bard"));
    let b = s.getPlayerInfo("10.0.0.1".to_string());
    assert_eq!(b.name, "Ari");
    assert_eq!(b.class, "bard");
    let c = s.getPlayerInfo("10.0.0.2".to_string());
    assert_eq!(c.name, "noname");
}

#[test]
fn permissions_default_and_override() {
    let mut c = Config::default();
    assert!(matches!(c.getPermission(&"anyone".to_string()), Permission::Player));
    assert!(matches!(c.getPermission(&"WebClient".to_string()), Permission::Developer));
    c.setPermission("ari".to_string(), Permission::Developer);
    assert!(matches!(c.getPermission(&"ari".to_string()), Permission::Developer));
    c.setPermission("ari".to_string(), Permission::Player);
    assert!(matches!(c.getPermission(&"ari".to_string()), Permission::Player));
    assert!(matches!(c.getPermission(&"bo".to_string()), Permission::Player));
}

#[test]
fn permission_checks() {
    assert!(Permission::Player.check(Permission::Player));
    assert!(!Permission::Player.check(Permission::Developer));
    assert!(Permission::Developer.check(Permission::Player));
    assert!(Permission::Developer.check(Permission::Developer));
    assert_eq!(Permission::Developer.toString(), "dev");
    assert_eq!(Permission::Player.toString(), "player");
}

#[test]
fn tick_rate_drives_intervals() {
    let mut c = Config::default();
    c.setTickRate(20);
    assert_eq!(c.sendTime, 50);
    assert_eq!(c.recvTime, 25);
    c.setTickRate(0);
    assert_eq!(c.sendTime, u64::MAX);
    assert_eq!(c.getPlayersCount(), 5);
    c.extendedPlayers = true;
    assert_eq!(c.getPlayersCount(), 10);
}

#[test]
fn save_document_shape() {
    let mut s = State::new();
    s.setAccount("10.0.0.1".to_string(), Account {
        name: "A\"ri".to_string(),
        class: "ba\\rd".to_string(),
        color: (1, 2, 3),
        hp: 907,
    });
    s.save.date = "6 March 1971 - 1:2:3".to_string();
    let doc = String::from_utf8(emit_save(&s)).expect("utf8");
    let mut want = String::new();
    want.push_str("{\"players\":{\"10.0.0.1\":{\"name\":\"A\\\"ri\",\"class\":\"ba\\\\rd\",");
    want.push_str("\"color\":{\"r\":1,\"g\":2,\"b\":3},\"hp\":907}},");
    want.push_str("\"save\":{\"date\":\"6 March 1971 - 1:2:3\",\"checkpoint\":\"main\"},");
    want.push_str("\"settings\":{\"extendPlayers\":false,\"tickRate\":1,\"firstCP\":\"main\",");
    want.push_str("\"maxItemCellSize\":64}}");
    assert_eq!(doc, want);
}

#[test]
fn save_document_escapes_control_bytes() {
    let mut s = State::new();
    s.save.checkpoint = "a\nb".to_string();
    let doc = String::from_utf8(emit_save(&s)).expect("utf8");
    assert!(doc.contains("\"checkpoint\":\"a\\u000ab\""));
}

#[test]
fn config_document_shape() {
    let mut c = Config::default();
    c.setPermission("ari".to_string(), Permission::Developer);
    let doc = String::from_utf8(emit_config(&c)).expect("utf8");
    let mut want = String::new();
    want.push_str("{\"permissions\":{\"ari\":\"dev\"},");
    want.push_str("\"settings\":{\"extendedPlayers\":false,\"tickRate\":1,\"firstCP\":\"main\"}}");
    assert_eq!(doc, want);
}
