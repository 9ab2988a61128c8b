//! The reliable channel's wire codec. Every message is one type-tag byte
//! followed by a positionally packed payload; string fields end with a zero
//! byte, raw byte fields carry a 16-bit little-endian length. The encoder
//! and decoder are kept symmetric: decoding an encoded message gives the
//! message back, and re-encoding a decoded buffer gives the bytes back.
use vstd::prelude::*;
use vstd::utf8::{valid_utf8, decode_utf8, encode_utf8};
use vstd::utf8::{encode_utf8_valid_utf8, encode_utf8_decode_utf8, decode_utf8_encode_utf8,
    encode_scalar};
use vstd::string::StrSliceExecFns;
use crate::bytes::{le16, be16, u16_of_le, u16_of_be, find_zero};
use crate::bytes::{lemma_find_zero_bounds, lemma_find_zero_at, lemma_le16_roundtrip,
    lemma_u16_of_le_inverse, lemma_be16_roundtrip, lemma_u16_of_be_inverse};
use crate::state::{Account, AccountV};

verus! {

// ---------- field encodings ----------

/// A string field on the wire: the string's UTF-8 bytes, then a zero byte.
pub open spec fn str_field(s: Seq<char>) -> Seq<u8> {
    encode_utf8(s) + seq![0u8]
}

/// A string can stand in a zero-delimited field only if its encoding holds
/// no zero byte.
pub open spec fn wf_str(s: Seq<char>) -> bool {
    forall|i: int| 0 <= i < encode_utf8(s).len() ==> encode_utf8(s)[i] != 0
}

/// A raw byte field on the wire: a 16-bit little-endian length, then the bytes.
pub open spec fn blob_field(b: Seq<u8>) -> Seq<u8> {
    le16(b.len() as u16) + b
}

/// A raw byte field's length must fit its 16-bit prefix.
pub open spec fn wf_blob(b: Seq<u8>) -> bool {
    b.len() <= 0xffff
}

// ---------- the messages ----------

/// A message the server sends to clients over the reliable channel.
pub enum ClientMessage {
    /// A player logged in or renamed: slot id and name.
    Login(u8, String),
    /// A player's slot was freed.
    Disconnected(u8),
    /// A chat line, or a command the clients interpret.
    Chat(String),
    /// A game information record: a kind byte and its raw payload.
    GameInfo(u8, Vec<u8>),
    /// One player's account record.
    PlayerInfo(u8, Account),
    /// A player selected a class.
    SelectChar(u8, String),
    /// The game's readiness state changed.
    GameReady(u8),
}

/// A message a client sends to the server over the reliable channel.
pub enum ServerMessage {
    /// The client names itself.
    Register(String),
    /// A chat line, or a command for the server.
    Chat(String),
    /// The connection ended; synthesized by the receive path as well.
    Disconnected,
    /// Ask for a game information record of the given kind.
    GetGameInfo(u8),
    /// Ask for the account record of the given slot.
    GetPlayerInfo(u8),
    /// Overwrite a player record: slot id and raw payload.
    SetPlayerInfo(u8, Vec<u8>),
    /// Overwrite a game record: kind byte and raw payload.
    SetGameInfo(u8, Vec<u8>),
}

/// The mathematical content of a `ClientMessage`.
pub ghost enum ClientMsgV {
    Login(u8, Seq<char>),
    Disconnected(u8),
    Chat(Seq<char>),
    GameInfo(u8, Seq<u8>),
    PlayerInfo(u8, AccountV),
    SelectChar(u8, Seq<char>),
    GameReady(u8),
}

/// The mathematical content of a `ServerMessage`.
pub ghost enum ServerMsgV {
    Register(Seq<char>),
    Chat(Seq<char>),
    Disconnected,
    GetGameInfo(u8),
    GetPlayerInfo(u8),
    SetPlayerInfo(u8, Seq<u8>),
    SetGameInfo(u8, Seq<u8>),
}

impl View for ClientMessage {
    type V = ClientMsgV;

    open spec fn view(&self) -> ClientMsgV {
        match self {
            ClientMessage::Login(id, name) => ClientMsgV::Login(*id, name@),
            ClientMessage::Disconnected(id) => ClientMsgV::Disconnected(*id),
            ClientMessage::Chat(text) => ClientMsgV::Chat(text@),
            ClientMessage::GameInfo(kind, raw) => ClientMsgV::GameInfo(*kind, raw@),
            ClientMessage::PlayerInfo(id, info) => ClientMsgV::PlayerInfo(*id, info@),
            ClientMessage::SelectChar(id, class) => ClientMsgV::SelectChar(*id, class@),
            ClientMessage::GameReady(st) => ClientMsgV::GameReady(*st),
        }
    }
}

impl View for ServerMessage {
    type V = ServerMsgV;

    open spec fn view(&self) -> ServerMsgV {
        match self {
            ServerMessage::Register(name) => ServerMsgV::Register(name@),
            ServerMessage::Chat(text) => ServerMsgV::Chat(text@),
            ServerMessage::Disconnected => ServerMsgV::Disconnected,
            ServerMessage::GetGameInfo(kind) => ServerMsgV::GetGameInfo(*kind),
            ServerMessage::GetPlayerInfo(id) => ServerMsgV::GetPlayerInfo(*id),
            ServerMessage::SetPlayerInfo(id, raw) => ServerMsgV::SetPlayerInfo(*id, raw@),
            ServerMessage::SetGameInfo(kind, raw) => ServerMsgV::SetGameInfo(*kind, raw@),
        }
    }
}

/// The field values a `ClientMessage` can carry onto the wire.
pub open spec fn wf_client(m: ClientMsgV) -> bool {
    match m {
        ClientMsgV::Login(_, name) => wf_str(name),
        ClientMsgV::Disconnected(_) => true,
        ClientMsgV::Chat(text) => wf_str(text),
        ClientMsgV::GameInfo(_, raw) => wf_blob(raw),
        ClientMsgV::PlayerInfo(_, info) => wf_str(info.name) && wf_str(info.class),
        ClientMsgV::SelectChar(_, class) => wf_str(class),
        ClientMsgV::GameReady(_) => true,
    }
}

/// The field values a `ServerMessage` can carry onto the wire.
pub open spec fn wf_server(m: ServerMsgV) -> bool {
    match m {
        ServerMsgV::Register(name) => wf_str(name),
        ServerMsgV::Chat(text) => wf_str(text),
        ServerMsgV::Disconnected => true,
        ServerMsgV::GetGameInfo(_) => true,
        ServerMsgV::GetPlayerInfo(_) => true,
        ServerMsgV::SetPlayerInfo(_, raw) => wf_blob(raw),
        ServerMsgV::SetGameInfo(_, raw) => wf_blob(raw),
    }
}

/// The bytes of one encoded server-to-client message.
pub open spec fn enc_client(m: ClientMsgV) -> Seq<u8> {
    match m {
        ClientMsgV::Login(id, name) => seq![1u8, id] + str_field(name),
        ClientMsgV::Disconnected(id) => seq![2u8, id],
        ClientMsgV::Chat(text) => seq![3u8] + str_field(text),
        ClientMsgV::GameInfo(kind, raw) => seq![4u8, kind] + blob_field(raw),
        ClientMsgV::PlayerInfo(id, info) => seq![5u8, id, info.color.0, info.color.1,
            info.color.2] + be16(info.hp) + str_field(info.name) + str_field(info.class),
        ClientMsgV::SelectChar(id, class) => seq![6u8, id] + str_field(class),
        ClientMsgV::GameReady(st) => seq![7u8, st],
    }
}

/// The bytes of one encoded client-to-server message.
pub open spec fn enc_server(m: ServerMsgV) -> Seq<u8> {
    match m {
        ServerMsgV::Register(name) => seq![1u8] + str_field(name),
        ServerMsgV::Chat(text) => seq![2u8] + str_field(text),
        ServerMsgV::Disconnected => seq![3u8],
        ServerMsgV::GetGameInfo(kind) => seq![4u8, kind],
        ServerMsgV::GetPlayerInfo(id) => seq![5u8, id],
        ServerMsgV::SetPlayerInfo(id, raw) => seq![6u8, id] + blob_field(raw),
        ServerMsgV::SetGameInfo(kind, raw) => seq![7u8, kind] + blob_field(raw),
    }
}

// ---------- encoding ----------

/// Appends a zero-terminated string field.
pub(crate) fn push_str_field(out: &mut Vec<u8>, s: &str)
    ensures
        final(out)@ == old(out)@ + str_field(s@),
{
    let mut bs = s.as_bytes_vec();
    out.append(&mut bs);
    out.push(0);
    proof {
        assert(out@ =~= old(out)@ + str_field(s@));
    }
}

/// Appends a length-prefixed raw byte field.
fn push_blob_field(out: &mut Vec<u8>, b: &Vec<u8>)
    requires
        wf_blob(b@),
    ensures
        final(out)@ == old(out)@ + blob_field(b@),
{
    let len = b.len() as u16;
    let (lo, hi) = crate::bytes::u16_le_bytes(len);
    out.push(lo);
    out.push(hi);
    out.extend_from_slice(b.as_slice());
    proof {
        assert(out@ =~= old(out)@ + blob_field(b@));
    }
}

impl ClientMessage {
    /// Encodes this message for the wire.
    pub fn toRaw(self) -> (r: Vec<u8>)
        requires
            wf_client(self@),
        ensures
            r@ == enc_client(self@),
    {
        let ghost v = self@;
        let mut out: Vec<u8> = Vec::new();
        match self {
            ClientMessage::Login(id, name) => {
                out.push(1);
                out.push(id);
                push_str_field(&mut out, name.as_str());
            }
            ClientMessage::Disconnected(id) => {
                out.push(2);
                out.push(id);
            }
            ClientMessage::Chat(text) => {
                out.push(3);
                push_str_field(&mut out, text.as_str());
            }
            ClientMessage::GameInfo(kind, raw) => {
                out.push(4);
                out.push(kind);
                push_blob_field(&mut out, &raw);
            }
            ClientMessage::PlayerInfo(id, info) => {
                out.push(5);
                out.push(id);
                out.push(info.color.0);
                out.push(info.color.1);
                out.push(info.color.2);
                let (h, l) = crate::bytes::u16_be_bytes(info.hp);
                out.push(h);
                out.push(l);
                push_str_field(&mut out, info.name.as_str());
                push_str_field(&mut out, info.class.as_str());
            }
            ClientMessage::SelectChar(id, class) => {
                out.push(6);
                out.push(id);
                push_str_field(&mut out, class.as_str());
            }
            ClientMessage::GameReady(st) => {
                out.push(7);
                out.push(st);
            }
        }
        proof {
            assert(out@ =~= enc_client(v));
        }
        out
    }
}

impl ServerMessage {
    /// Encodes this message for the wire.
    pub fn toRaw(self) -> (r: Vec<u8>)
        requires
            wf_server(self@),
        ensures
            r@ == enc_server(self@),
    {
        let ghost v = self@;
        let mut out: Vec<u8> = Vec::new();
        match self {
            ServerMessage::Register(name) => {
                out.push(1);
                push_str_field(&mut out, name.as_str());
            }
            ServerMessage::Chat(text) => {
                out.push(2);
                push_str_field(&mut out, text.as_str());
            }
            ServerMessage::Disconnected => {
                out.push(3);
            }
            ServerMessage::GetGameInfo(kind) => {
                out.push(4);
                out.push(kind);
            }
            ServerMessage::GetPlayerInfo(id) => {
                out.push(5);
                out.push(id);
            }
            ServerMessage::SetPlayerInfo(id, raw) => {
                out.push(6);
                out.push(id);
                push_blob_field(&mut out, &raw);
            }
            ServerMessage::SetGameInfo(kind, raw) => {
                out.push(7);
                out.push(kind);
                push_blob_field(&mut out, &raw);
            }
        }
        proof {
            assert(out@ =~= enc_server(v));
        }
        out
    }
}

// ---------- decoding ----------

/// What decoding one message out of a buffer yields: a message and the
/// position just past it, an unrecognized tag and the position past the tag,
/// or a malformed packet.
pub ghost enum DecC {
    Msg(ClientMsgV, int),
    Unknown(int),
    Malformed,
}

/// Same as `DecC`, for client-to-server messages.
pub ghost enum DecS {
    Msg(ServerMsgV, int),
    Unknown(int),
    Malformed,
}

/// Reads a zero-terminated string field at `i`: the decoded characters and
/// the position past the terminator, or nothing if no terminator follows or
/// the field is not UTF-8.
pub open spec fn dec_str(b: Seq<u8>, i: int) -> Option<(Seq<char>, int)> {
    let z = find_zero(b, i);
    if z < b.len() && valid_utf8(b.subrange(i, z)) {
        Some((decode_utf8(b.subrange(i, z)), z + 1))
    } else {
        None
    }
}

/// Reads a length-prefixed raw byte field at `i`.
pub open spec fn dec_blob(b: Seq<u8>, i: int) -> Option<(Seq<u8>, int)> {
    if i + 2 <= b.len() {
        let l = u16_of_le(b[i], b[i + 1]) as int;
        if i + 2 + l <= b.len() {
            Some((b.subrange(i + 2, i + 2 + l), i + 2 + l))
        } else {
            None
        }
    } else {
        None
    }
}

/// Decodes one server-to-client message starting at `i`.
pub open spec fn dec_client(b: Seq<u8>, i: int) -> DecC
    recommends
        0 <= i < b.len(),
{
    let tag = b[i];
    if tag == 1 {
        if i + 2 <= b.len() {
            match dec_str(b, i + 2) {
                Some((name, n)) => DecC::Msg(ClientMsgV::Login(b[i + 1], name), n),
                None => DecC::Malformed,
            }
        } else {
            DecC::Malformed
        }
    } else if tag == 2 {
        if i + 2 <= b.len() {
            DecC::Msg(ClientMsgV::Disconnected(b[i + 1]), i + 2)
        } else {
            DecC::Malformed
        }
    } else if tag == 3 {
        match dec_str(b, i + 1) {
            Some((text, n)) => DecC::Msg(ClientMsgV::Chat(text), n),
            None => DecC::Malformed,
        }
    } else if tag == 4 {
        if i + 2 <= b.len() {
            match dec_blob(b, i + 2) {
                Some((raw, n)) => DecC::Msg(ClientMsgV::GameInfo(b[i + 1], raw), n),
                None => DecC::Malformed,
            }
        } else {
            DecC::Malformed
        }
    } else if tag == 5 {
        if i + 7 <= b.len() {
            match dec_str(b, i + 7) {
                Some((name, n1)) => match dec_str(b, n1) {
                    Some((class, n2)) => DecC::Msg(
                        ClientMsgV::PlayerInfo(
                            b[i + 1],
                            AccountV {
                                name,
                                class,
                                color: (b[i + 2], b[i + 3], b[i + 4]),
                                hp: u16_of_be(b[i + 5], b[i + 6]),
                            },
                        ),
                        n2,
                    ),
                    None => DecC::Malformed,
                },
                None => DecC::Malformed,
            }
        } else {
            DecC::Malformed
        }
    } else if tag == 6 {
        if i + 2 <= b.len() {
            match dec_str(b, i + 2) {
                Some((class, n)) => DecC::Msg(ClientMsgV::SelectChar(b[i + 1], class), n),
                None => DecC::Malformed,
            }
        } else {
            DecC::Malformed
        }
    } else if tag == 7 {
        if i + 2 <= b.len() {
            DecC::Msg(ClientMsgV::GameReady(b[i + 1]), i + 2)
        } else {
            DecC::Malformed
        }
    } else {
        DecC::Unknown(i + 1)
    }
}

/// Decodes one client-to-server message starting at `i`.
pub open spec fn dec_server(b: Seq<u8>, i: int) -> DecS
    recommends
        0 <= i < b.len(),
{
    let tag = b[i];
    if tag == 1 {
        match dec_str(b, i + 1) {
            Some((name, n)) => DecS::Msg(ServerMsgV::Register(name), n),
            None => DecS::Malformed,
        }
    } else if tag == 2 {
        match dec_str(b, i + 1) {
            Some((text, n)) => DecS::Msg(ServerMsgV::Chat(text), n),
            None => DecS::Malformed,
        }
    } else if tag == 3 {
        DecS::Msg(ServerMsgV::Disconnected, i + 1)
    } else if tag == 4 {
        if i + 2 <= b.len() {
            DecS::Msg(ServerMsgV::GetGameInfo(b[i + 1]), i + 2)
        } else {
            DecS::Malformed
        }
    } else if tag == 5 {
        if i + 2 <= b.len() {
            DecS::Msg(ServerMsgV::GetPlayerInfo(b[i + 1]), i + 2)
        } else {
            DecS::Malformed
        }
    } else if tag == 6 {
        if i + 2 <= b.len() {
            match dec_blob(b, i + 2) {
                Some((raw, n)) => DecS::Msg(ServerMsgV::SetPlayerInfo(b[i + 1], raw), n),
                None => DecS::Malformed,
            }
        } else {
            DecS::Malformed
        }
    } else if tag == 7 {
        if i + 2 <= b.len() {
            match dec_blob(b, i + 2) {
                Some((raw, n)) => DecS::Msg(ServerMsgV::SetGameInfo(b[i + 1], raw), n),
                None => DecS::Malformed,
            }
        } else {
            DecS::Malformed
        }
    } else {
        DecS::Unknown(i + 1)
    }
}

// ---------- round-trip lemmas for the fields ----------

/// An encoded string field placed in a larger buffer reads back exactly.
pub proof fn lemma_dec_str_of_enc(b: Seq<u8>, i: int, s: Seq<char>)
    requires
        0 <= i,
        i + str_field(s).len() <= b.len(),
        b.subrange(i, i + str_field(s).len()) == str_field(s),
        wf_str(s),
    ensures
        dec_str(b, i) == Some((s, i + str_field(s).len())),
{
    let sf = str_field(s);
    let l = encode_utf8(s).len() as int;
    assert forall|j: int| i <= j < i + l implies b[j] != 0 by {
        assert(b[j] == b.subrange(i, i + sf.len())[j - i]);
        assert(sf[j - i] == encode_utf8(s)[j - i]);
    }
    assert(b[i + l] == b.subrange(i, i + sf.len())[l]);
    assert(sf[l] == 0);
    lemma_find_zero_at(b, i, i + l);
    assert(b.subrange(i, i + l) =~= encode_utf8(s));
    encode_utf8_valid_utf8(s);
    encode_utf8_decode_utf8(s);
}

/// A string field the decoder accepted is the encoding of what it read.
pub proof fn lemma_dec_str_sound(b: Seq<u8>, i: int)
    requires
        0 <= i <= b.len(),
        dec_str(b, i) is Some,
    ensures
        ({
            let (s, n) = dec_str(b, i)->0;
            &&& i < n <= b.len()
            &&& wf_str(s)
            &&& str_field(s) == b.subrange(i, n)
        }),
{
    let z = find_zero(b, i);
    lemma_find_zero_bounds(b, i);
    let seg = b.subrange(i, z);
    let s = decode_utf8(seg);
    decode_utf8_encode_utf8(seg);
    assert(encode_utf8(s) == seg);
    assert forall|j: int| 0 <= j < encode_utf8(s).len() implies encode_utf8(s)[j] != 0 by {
        assert(seg[j] == b[i + j]);
    }
    assert(str_field(s) =~= b.subrange(i, z + 1));
}

/// An encoded raw byte field placed in a larger buffer reads back exactly.
pub proof fn lemma_dec_blob_of_enc(b: Seq<u8>, i: int, raw: Seq<u8>)
    requires
        0 <= i,
        i + blob_field(raw).len() <= b.len(),
        b.subrange(i, i + blob_field(raw).len()) == blob_field(raw),
        wf_blob(raw),
    ensures
        dec_blob(b, i) == Some((raw, i + blob_field(raw).len())),
{
    let bf = blob_field(raw);
    let l = raw.len() as int;
    assert forall|j: int| i <= j < i + bf.len() implies #[trigger] b[j] == bf[j - i] by {
        assert(b.subrange(i, i + bf.len())[j - i] == b[j]);
    }
    assert(bf[0] == le16(l as u16)[0]);
    assert(bf[1] == le16(l as u16)[1]);
    lemma_le16_roundtrip(l as u16);
    assert(u16_of_le(b[i], b[i + 1]) == l as u16);
    assert(b.subrange(i + 2, i + 2 + l) =~= raw);
}

/// A raw byte field the decoder accepted is the encoding of what it read.
pub proof fn lemma_dec_blob_sound(b: Seq<u8>, i: int)
    requires
        0 <= i,
        dec_blob(b, i) is Some,
    ensures
        ({
            let (raw, n) = dec_blob(b, i)->0;
            &&& i < n <= b.len()
            &&& wf_blob(raw)
            &&& blob_field(raw) == b.subrange(i, n)
        }),
{
    let l = u16_of_le(b[i], b[i + 1]) as int;
    let raw = b.subrange(i + 2, i + 2 + l);
    lemma_u16_of_le_inverse(b[i], b[i + 1]);
    assert(le16(raw.len() as u16) =~= seq![b[i], b[i + 1]]);
    assert(blob_field(raw) =~= b.subrange(i, i + 2 + l));
}

// ---------- round-trip lemmas for whole messages ----------

/// Decoding inverts encoding: an encoded well-formed message placed at `i`
/// in a larger buffer decodes to itself, consuming exactly its bytes.
#[verifier::rlimit(60)]
pub proof fn lemma_client_roundtrip(b: Seq<u8>, i: int, m: ClientMsgV)
    requires
        0 <= i,
        wf_client(m),
        i + enc_client(m).len() <= b.len(),
        b.subrange(i, i + enc_client(m).len()) == enc_client(m),
    ensures
        dec_client(b, i) == DecC::Msg(m, i + enc_client(m).len()),
{
    let e = enc_client(m);
    assert forall|j: int| i <= j < i + e.len() implies #[trigger] b[j] == e[j - i] by {
        assert(b.subrange(i, i + e.len())[j - i] == b[j]);
    }
    match m {
        ClientMsgV::Login(id, name) => {
            assert(b[i] == 1 && b[i + 1] == id);
            assert(b.subrange(i + 2, i + 2 + str_field(name).len()) =~= str_field(name));
            lemma_dec_str_of_enc(b, i + 2, name);
        }
        ClientMsgV::Disconnected(id) => {
            assert(b[i] == 2 && b[i + 1] == id);
        }
        ClientMsgV::Chat(text) => {
            assert(b[i] == 3);
            assert(b.subrange(i + 1, i + 1 + str_field(text).len()) =~= str_field(text));
            lemma_dec_str_of_enc(b, i + 1, text);
        }
        ClientMsgV::GameInfo(kind, raw) => {
            assert(b[i] == 4 && b[i + 1] == kind);
            assert(b.subrange(i + 2, i + 2 + blob_field(raw).len()) =~= blob_field(raw));
            lemma_dec_blob_of_enc(b, i + 2, raw);
        }
        ClientMsgV::PlayerInfo(id, info) => {
            assert(b[i] == 5 && b[i + 1] == id);
            assert(b[i + 2] == info.color.0 && b[i + 3] == info.color.1
                && b[i + 4] == info.color.2);
            assert(b[i + 5] == be16(info.hp)[0] && b[i + 6] == be16(info.hp)[1]);
            lemma_be16_roundtrip(info.hp);
            let sn = str_field(info.name);
            let sc = str_field(info.class);
            assert(b.subrange(i + 7, i + 7 + sn.len()) =~= sn);
            lemma_dec_str_of_enc(b, i + 7, info.name);
            assert(b.subrange(i + 7 + sn.len(), i + 7 + sn.len() + sc.len()) =~= sc);
            lemma_dec_str_of_enc(b, i + 7 + sn.len(), info.class);
        }
        ClientMsgV::SelectChar(id, class) => {
            assert(b[i] == 6 && b[i + 1] == id);
            assert(b.subrange(i + 2, i + 2 + str_field(class).len()) =~= str_field(class));
            lemma_dec_str_of_enc(b, i + 2, class);
        }
        ClientMsgV::GameReady(st) => {
            assert(b[i] == 7 && b[i + 1] == st);
        }
    }
}

/// Encoding inverts decoding: a decoded message is well formed and its
/// encoding is exactly the bytes the decoder consumed. A recognized tag
/// always consumes at least one byte and never runs past the buffer.
#[verifier::rlimit(60)]
pub proof fn lemma_client_sound(b: Seq<u8>, i: int)
    requires
        0 <= i < b.len(),
        dec_client(b, i) is Msg,
    ensures
        ({
            let m = dec_client(b, i)->Msg_0;
            let n = dec_client(b, i)->Msg_1;
            &&& i < n <= b.len()
            &&& wf_client(m)
            &&& enc_client(m) == b.subrange(i, n)
        }),
{
    let tag = b[i];
    if tag == 1 {
        lemma_dec_str_sound(b, i + 2);
        let (name, n) = dec_str(b, i + 2)->0;
        assert(enc_client(ClientMsgV::Login(b[i + 1], name)) =~= b.subrange(i, n));
    } else if tag == 2 {
        assert(enc_client(ClientMsgV::Disconnected(b[i + 1])) =~= b.subrange(i, i + 2));
    } else if tag == 3 {
        lemma_dec_str_sound(b, i + 1);
        let (text, n) = dec_str(b, i + 1)->0;
        assert(enc_client(ClientMsgV::Chat(text)) =~= b.subrange(i, n));
    } else if tag == 4 {
        lemma_dec_blob_sound(b, i + 2);
        let (raw, n) = dec_blob(b, i + 2)->0;
        assert(enc_client(ClientMsgV::GameInfo(b[i + 1], raw)) =~= b.subrange(i, n));
    } else if tag == 5 {
        lemma_dec_str_sound(b, i + 7);
        let (name, n1) = dec_str(b, i + 7)->0;
        lemma_dec_str_sound(b, n1);
        let (class, n2) = dec_str(b, n1)->0;
        let info = AccountV {
            name,
            class,
            color: (b[i + 2], b[i + 3], b[i + 4]),
            hp: u16_of_be(b[i + 5], b[i + 6]),
        };
        lemma_u16_of_be_inverse(b[i + 5], b[i + 6]);
        assert(enc_client(ClientMsgV::PlayerInfo(b[i + 1], info)) =~= b.subrange(i, n2));
    } else if tag == 6 {
        lemma_dec_str_sound(b, i + 2);
        let (class, n) = dec_str(b, i + 2)->0;
        assert(enc_client(ClientMsgV::SelectChar(b[i + 1], class)) =~= b.subrange(i, n));
    } else if tag == 7 {
        assert(enc_client(ClientMsgV::GameReady(b[i + 1])) =~= b.subrange(i, i + 2));
    }
}

/// Decoding inverts encoding, for client-to-server messages.
#[verifier::rlimit(60)]
pub proof fn lemma_server_roundtrip(b: Seq<u8>, i: int, m: ServerMsgV)
    requires
        0 <= i,
        wf_server(m),
        i + enc_server(m).len() <= b.len(),
        b.subrange(i, i + enc_server(m).len()) == enc_server(m),
    ensures
        dec_server(b, i) == DecS::Msg(m, i + enc_server(m).len()),
{
    let e = enc_server(m);
    assert forall|j: int| i <= j < i + e.len() implies #[trigger] b[j] == e[j - i] by {
        assert(b.subrange(i, i + e.len())[j - i] == b[j]);
    }
    match m {
        ServerMsgV::Register(name) => {
            assert(b[i] == 1);
            assert(b.subrange(i + 1, i + 1 + str_field(name).len()) =~= str_field(name));
            lemma_dec_str_of_enc(b, i + 1, name);
        }
        ServerMsgV::Chat(text) => {
            assert(b[i] == 2);
            assert(b.subrange(i + 1, i + 1 + str_field(text).len()) =~= str_field(text));
            lemma_dec_str_of_enc(b, i + 1, text);
        }
        ServerMsgV::Disconnected => {
            assert(b[i] == 3);
        }
        ServerMsgV::GetGameInfo(kind) => {
            assert(b[i] == 4 && b[i + 1] == kind);
        }
        ServerMsgV::GetPlayerInfo(id) => {
            assert(b[i] == 5 && b[i + 1] == id);
        }
        ServerMsgV::SetPlayerInfo(id, raw) => {
            assert(b[i] == 6 && b[i + 1] == id);
            assert(b.subrange(i + 2, i + 2 + blob_field(raw).len()) =~= blob_field(raw));
            lemma_dec_blob_of_enc(b, i + 2, raw);
        }
        ServerMsgV::SetGameInfo(kind, raw) => {
            assert(b[i] == 7 && b[i + 1] == kind);
            assert(b.subrange(i + 2, i + 2 + blob_field(raw).len()) =~= blob_field(raw));
            lemma_dec_blob_of_enc(b, i + 2, raw);
        }
    }
}

/// Encoding inverts decoding, for client-to-server messages.
#[verifier::rlimit(60)]
pub proof fn lemma_server_sound(b: Seq<u8>, i: int)
    requires
        0 <= i < b.len(),
        dec_server(b, i) is Msg,
    ensures
        ({
            let m = dec_server(b, i)->Msg_0;
            let n = dec_server(b, i)->Msg_1;
            &&& i < n <= b.len()
            &&& wf_server(m)
            &&& enc_server(m) == b.subrange(i, n)
        }),
{
    let tag = b[i];
    if tag == 1 {
        lemma_dec_str_sound(b, i + 1);
        let (name, n) = dec_str(b, i + 1)->0;
        assert(enc_server(ServerMsgV::Register(name)) =~= b.subrange(i, n));
    } else if tag == 2 {
        lemma_dec_str_sound(b, i + 1);
        let (text, n) = dec_str(b, i + 1)->0;
        assert(enc_server(ServerMsgV::Chat(text)) =~= b.subrange(i, n));
    } else if tag == 3 {
        assert(enc_server(ServerMsgV::Disconnected) =~= b.subrange(i, i + 1));
    } else if tag == 4 {
        assert(enc_server(ServerMsgV::GetGameInfo(b[i + 1])) =~= b.subrange(i, i + 2));
    } else if tag == 5 {
        assert(enc_server(ServerMsgV::GetPlayerInfo(b[i + 1])) =~= b.subrange(i, i + 2));
    } else if tag == 6 {
        lemma_dec_blob_sound(b, i + 2);
        let (raw, n) = dec_blob(b, i + 2)->0;
        assert(enc_server(ServerMsgV::SetPlayerInfo(b[i + 1], raw)) =~= b.subrange(i, n));
    } else if tag == 7 {
        lemma_dec_blob_sound(b, i + 2);
        let (raw, n) = dec_blob(b, i + 2)->0;
        assert(enc_server(ServerMsgV::SetGameInfo(b[i + 1], raw)) =~= b.subrange(i, n));
    }
}

// ---------- well-formed strings ----------

/// A string holds no NUL character.
pub open spec fn no_nul(s: Seq<char>) -> bool {
    forall|i: int| 0 <= i < s.len() ==> (#[trigger] s[i]) as u32 != 0
}

/// The encoding of one scalar holds a zero byte exactly when the scalar is
/// NUL itself.
proof fn lemma_encode_scalar_nul(c: char)
    ensures
        (c as u32) != 0 ==> forall|i: int| 0 <= i < encode_scalar(c as u32).len()
            ==> (#[trigger] encode_scalar(c as u32)[i]) != 0,
        (c as u32) == 0 ==> encode_scalar(c as u32) == seq![0u8],
{
    vstd::utf8::char_is_scalar(c);
    let v = c as u32;
    if v == 0 {
        assert(encode_scalar(v) =~= seq![(v & 0x7F) as u8]);
        assert((0u32 & 0x7F) as u8 == 0) by (bit_vector);
    } else {
        assert forall|i: int| 0 <= i < encode_scalar(v).len() implies
            (#[trigger] encode_scalar(v)[i]) != 0 by {
            assert(v != 0 && v < 0x80 ==> (v & 0x7F) as u8 != 0) by (bit_vector);
            assert((0xC0u8 | ((v >> 6) & 0x1F) as u8) != 0) by (bit_vector);
            assert((0xE0u8 | ((v >> 12) & 0x0F) as u8) != 0) by (bit_vector);
            assert((0xF0u8 | ((v >> 18) & 0x7) as u8) != 0) by (bit_vector);
            assert((0x80u8 | (v & 0x3F) as u8) != 0) by (bit_vector);
            assert((0x80u8 | ((v >> 6) & 0x3F) as u8) != 0) by (bit_vector);
            assert((0x80u8 | ((v >> 12) & 0x3F) as u8) != 0) by (bit_vector);
        }
    }
}

/// A string can stand in a zero-delimited field exactly when it holds no
/// NUL character.
pub proof fn lemma_wf_str_no_nul(s: Seq<char>)
    ensures
        wf_str(s) <==> no_nul(s),
    decreases s.len(),
{
    if s.len() == 0 {
    } else {
        lemma_encode_scalar_nul(s[0]);
        lemma_wf_str_no_nul(s.drop_first());
        let head = encode_scalar(s[0] as u32);
        let tail = encode_utf8(s.drop_first());
        assert(encode_utf8(s) == head + tail);
        assert(head.len() >= 1);
        if no_nul(s) {
            assert((s[0] as u32) != 0);
            assert(no_nul(s.drop_first()));
            assert forall|i: int| 0 <= i < encode_utf8(s).len() implies
                (#[trigger] encode_utf8(s)[i]) != 0 by {
                if i < head.len() {
                    assert(encode_utf8(s)[i] == head[i]);
                } else {
                    assert(encode_utf8(s)[i] == tail[i - head.len()]);
                }
            }
        }
        if wf_str(s) {
            assert forall|i: int| 0 <= i < s.len() implies (#[trigger] s[i]) as u32 != 0 by {
                if i == 0 {
                    if (s[0] as u32) == 0 {
                        assert(encode_utf8(s)[0] == head[0]);
                        assert(head[0] == 0);
                    }
                } else {
                    assert(s.drop_first()[i - 1] == s[i]);
                    assert forall|j: int| 0 <= j < tail.len() implies (#[trigger] tail[j]) != 0 by {
                        assert(encode_utf8(s)[head.len() + j] == tail[j]);
                    }
                }
            }
        }
    }
}

/// Encoding distributes over concatenation.
pub proof fn lemma_encode_utf8_concat(a: Seq<char>, b: Seq<char>)
    ensures
        encode_utf8(a + b) == encode_utf8(a) + encode_utf8(b),
    decreases a.len(),
{
    if a.len() == 0 {
        assert(a + b =~= b);
        assert(encode_utf8(a) + encode_utf8(b) =~= encode_utf8(b));
    } else {
        assert((a + b).drop_first() =~= a.drop_first() + b);
        lemma_encode_utf8_concat(a.drop_first(), b);
        assert((a + b)[0] == a[0]);
        assert(encode_utf8(a + b) =~= encode_utf8(a) + encode_utf8(b));
    }
}

/// Every message of a decoded stream could be re-encoded: its fields are
/// well formed.
pub proof fn lemma_server_stream_wf(b: Seq<u8>, i: int)
    requires
        0 <= i,
        dec_server_stream(b, i) is Some,
    ensures
        forall|k: int| 0 <= k < dec_server_stream(b, i)->0.len()
            ==> wf_server(#[trigger] dec_server_stream(b, i)->0[k]),
    decreases b.len() - i,
{
    if i >= b.len() {
    } else {
        match dec_server(b, i) {
            DecS::Msg(m, n) => {
                lemma_server_sound(b, i);
                lemma_server_stream_wf(b, n);
                let rest = dec_server_stream(b, n)->0;
                assert forall|k: int| 0 <= k < dec_server_stream(b, i)->0.len() implies
                    wf_server(#[trigger] dec_server_stream(b, i)->0[k]) by {
                    if k > 0 {
                        assert(dec_server_stream(b, i)->0[k] == rest[k - 1]);
                    }
                }
            }
            DecS::Unknown(_) => {
                lemma_server_stream_wf(b, i + 1);
            }
            DecS::Malformed => {}
        }
    }
}

// ---------- executable decoding ----------

/// Copies `b[from..to]` into a fresh vector.
fn copy_range(b: &Vec<u8>, from: usize, to: usize) -> (r: Vec<u8>)
    requires
        from <= to <= b@.len(),
    ensures
        r@ == b@.subrange(from as int, to as int),
{
    let mut out: Vec<u8> = Vec::new();
    let mut k = from;
    while k < to
        invariant
            from <= k <= to <= b@.len(),
            out@ == b@.subrange(from as int, k as int),
        decreases to - k,
    {
        out.push(b[k]);
        k = k + 1;
        proof {
            assert(out@ =~= b@.subrange(from as int, k as int));
        }
    }
    out
}

/// Reads a zero-terminated string field, as `dec_str` describes.
fn read_str(b: &Vec<u8>, i: usize) -> (r: Option<(String, usize)>)
    requires
        i <= b@.len(),
    ensures
        r is Some <==> dec_str(b@, i as int) is Some,
        r is Some ==> dec_str(b@, i as int) == Some(((r->0).0@, (r->0).1 as int)),
{
    let z = crate::bytes::scan_zero(b, i);
    proof {
        lemma_find_zero_bounds(b@, i as int);
    }
    if z >= b.len() {
        return None;
    }
    let seg = copy_range(b, i, z);
    match crate::bytes::utf8_to_string(seg) {
        Some(s) => Some((s, z + 1)),
        None => None,
    }
}

/// Reads a length-prefixed raw byte field, as `dec_blob` describes.
fn read_blob(b: &Vec<u8>, i: usize) -> (r: Option<(Vec<u8>, usize)>)
    requires
        i <= b@.len(),
    ensures
        r is Some <==> dec_blob(b@, i as int) is Some,
        r is Some ==> dec_blob(b@, i as int) == Some(((r->0).0@, (r->0).1 as int)),
{
    if b.len() - i < 2 {
        return None;
    }
    let l = crate::bytes::u16_from_le(b[i], b[i + 1]) as usize;
    if l > b.len() - (i + 2) {
        return None;
    }
    let raw = copy_range(b, i + 2, i + 2 + l);
    Some((raw, i + 2 + l))
}

/// What the executable decoder hands back for one message.
pub enum DecodedClient {
    /// A message and the position just past it.
    Msg(ClientMessage, usize),
    /// An unrecognized tag; the position past the tag byte.
    Unknown(usize),
    /// The buffer ends inside a message, or a string field is broken.
    Malformed,
}

/// Same as `DecodedClient`, for client-to-server messages.
pub enum DecodedServer {
    Msg(ServerMessage, usize),
    Unknown(usize),
    Malformed,
}

impl ClientMessage {
    /// Decodes one message starting at `pos`, as `dec_client` describes.
    pub fn fromRaw(b: &Vec<u8>, pos: usize) -> (r: DecodedClient)
        requires
            pos < b@.len(),
        ensures
            r matches DecodedClient::Msg(m, n) ==> dec_client(b@, pos as int) == DecC::Msg(
                m@,
                n as int,
            ),
            r matches DecodedClient::Unknown(n) ==> dec_client(b@, pos as int) == DecC::Unknown(
                n as int,
            ),
            r is Malformed ==> dec_client(b@, pos as int) is Malformed,
    {
        let buflen = b.len();
        assert(pos < buflen);
        let tag = b[pos];
        if tag == 1 {
            if b.len() - pos < 2 {
                return DecodedClient::Malformed;
            }
            match read_str(b, pos + 2) {
                Some((name, n)) => DecodedClient::Msg(ClientMessage::Login(b[pos + 1], name), n),
                None => DecodedClient::Malformed,
            }
        } else if tag == 2 {
            if b.len() - pos < 2 {
                return DecodedClient::Malformed;
            }
            DecodedClient::Msg(ClientMessage::Disconnected(b[pos + 1]), pos + 2)
        } else if tag == 3 {
            match read_str(b, pos + 1) {
                Some((text, n)) => DecodedClient::Msg(ClientMessage::Chat(text), n),
                None => DecodedClient::Malformed,
            }
        } else if tag == 4 {
            if b.len() - pos < 2 {
                return DecodedClient::Malformed;
            }
            match read_blob(b, pos + 2) {
                Some((raw, n)) => DecodedClient::Msg(
                    ClientMessage::GameInfo(b[pos + 1], raw),
                    n,
                ),
                None => DecodedClient::Malformed,
            }
        } else if tag == 5 {
            if b.len() - pos < 7 {
                return DecodedClient::Malformed;
            }
            let hp = crate::bytes::u16_from_be(b[pos + 5], b[pos + 6]);
            match read_str(b, pos + 7) {
                Some((name, n1)) => match read_str(b, n1) {
                    Some((class, n2)) => DecodedClient::Msg(
                        ClientMessage::PlayerInfo(
                            b[pos + 1],
                            Account {
                                name,
                                class,
                                color: (b[pos + 2], b[pos + 3], b[pos + 4]),
                                hp,
                            },
                        ),
                        n2,
                    ),
                    None => DecodedClient::Malformed,
                },
                None => DecodedClient::Malformed,
            }
        } else if tag == 6 {
            if b.len() - pos < 2 {
                return DecodedClient::Malformed;
            }
            match read_str(b, pos + 2) {
                Some((class, n)) => DecodedClient::Msg(
                    ClientMessage::SelectChar(b[pos + 1], class),
                    n,
                ),
                None => DecodedClient::Malformed,
            }
        } else if tag == 7 {
            if b.len() - pos < 2 {
                return DecodedClient::Malformed;
            }
            DecodedClient::Msg(ClientMessage::GameReady(b[pos + 1]), pos + 2)
        } else {
            DecodedClient::Unknown(pos + 1)
        }
    }
}

impl ServerMessage {
    /// Decodes one message starting at `pos`, as `dec_server` describes.
    pub fn fromRaw(b: &Vec<u8>, pos: usize) -> (r: DecodedServer)
        requires
            pos < b@.len(),
        ensures
            r matches DecodedServer::Msg(m, n) ==> dec_server(b@, pos as int) == DecS::Msg(
                m@,
                n as int,
            ),
            r matches DecodedServer::Unknown(n) ==> dec_server(b@, pos as int) == DecS::Unknown(
                n as int,
            ),
            r is Malformed ==> dec_server(b@, pos as int) is Malformed,
    {
        let buflen = b.len();
        assert(pos < buflen);
        let tag = b[pos];
        if tag == 1 {
            match read_str(b, pos + 1) {
                Some((name, n)) => DecodedServer::Msg(ServerMessage::Register(name), n),
                None => DecodedServer::Malformed,
            }
        } else if tag == 2 {
            match read_str(b, pos + 1) {
                Some((text, n)) => DecodedServer::Msg(ServerMessage::Chat(text), n),
                None => DecodedServer::Malformed,
            }
        } else if tag == 3 {
            DecodedServer::Msg(ServerMessage::Disconnected, pos + 1)
        } else if tag == 4 {
            if b.len() - pos < 2 {
                return DecodedServer::Malformed;
            }
            DecodedServer::Msg(ServerMessage::GetGameInfo(b[pos + 1]), pos + 2)
        } else if tag == 5 {
            if b.len() - pos < 2 {
                return DecodedServer::Malformed;
            }
            DecodedServer::Msg(ServerMessage::GetPlayerInfo(b[pos + 1]), pos + 2)
        } else if tag == 6 {
            if b.len() - pos < 2 {
                return DecodedServer::Malformed;
            }
            match read_blob(b, pos + 2) {
                Some((raw, n)) => DecodedServer::Msg(
                    ServerMessage::SetPlayerInfo(b[pos + 1], raw),
                    n,
                ),
                None => DecodedServer::Malformed,
            }
        } else if tag == 7 {
            if b.len() - pos < 2 {
                return DecodedServer::Malformed;
            }
            match read_blob(b, pos + 2) {
                Some((raw, n)) => DecodedServer::Msg(
                    ServerMessage::SetGameInfo(b[pos + 1], raw),
                    n,
                ),
                None => DecodedServer::Malformed,
            }
        } else {
            DecodedServer::Unknown(pos + 1)
        }
    }
}

// ---------- streams of messages ----------

/// All messages decoded from a buffer, unrecognized tags skipped one byte
/// at a time; a malformed message poisons the whole buffer.
pub open spec fn dec_client_stream(b: Seq<u8>, i: int) -> Option<Seq<ClientMsgV>>
    decreases b.len() - i,
{
    if i < 0 || i >= b.len() {
        Some(Seq::empty())
    } else {
        match dec_client(b, i) {
            DecC::Msg(m, n) => if i < n <= b.len() {
                match dec_client_stream(b, n) {
                    Some(rest) => Some(seq![m] + rest),
                    None => None,
                }
            } else {
                None
            },
            DecC::Unknown(_) => dec_client_stream(b, i + 1),
            DecC::Malformed => None,
        }
    }
}

/// Same as `dec_client_stream`, for client-to-server messages.
pub open spec fn dec_server_stream(b: Seq<u8>, i: int) -> Option<Seq<ServerMsgV>>
    decreases b.len() - i,
{
    if i < 0 || i >= b.len() {
        Some(Seq::empty())
    } else {
        match dec_server(b, i) {
            DecS::Msg(m, n) => if i < n <= b.len() {
                match dec_server_stream(b, n) {
                    Some(rest) => Some(seq![m] + rest),
                    None => None,
                }
            } else {
                None
            },
            DecS::Unknown(_) => dec_server_stream(b, i + 1),
            DecS::Malformed => None,
        }
    }
}

/// The contents of a vector of messages.
pub open spec fn client_views(s: Seq<ClientMessage>) -> Seq<ClientMsgV> {
    s.map_values(|m: ClientMessage| m@)
}

/// The contents of a vector of messages.
pub open spec fn server_views(s: Seq<ServerMessage>) -> Seq<ServerMsgV> {
    s.map_values(|m: ServerMessage| m@)
}

impl ClientMessage {
    /// Decodes a whole buffer of concatenated messages. `None` is the
    /// malformed-packet outcome: the connection is torn down, nothing of
    /// the buffer is kept.
    pub fn parse(b: &Vec<u8>) -> (r: Option<Vec<ClientMessage>>)
        ensures
            r is Some <==> dec_client_stream(b@, 0) is Some,
            r is Some ==> dec_client_stream(b@, 0) == Some(client_views(r->0@)),
    {
        let mut out: Vec<ClientMessage> = Vec::new();
        let mut pos: usize = 0;
        while pos < b.len()
            invariant
                pos <= b@.len(),
                dec_client_stream(b@, 0) == match dec_client_stream(b@, pos as int) {
                    Some(rest) => Some(client_views(out@) + rest),
                    None => None::<Seq<ClientMsgV>>,
                },
            decreases b@.len() - pos,
        {
            match ClientMessage::fromRaw(b, pos) {
                DecodedClient::Msg(m, n) => {
                    proof {
                        lemma_client_sound(b@, pos as int);
                    }
                    let ghost prev = out@;
                    out.push(m);
                    proof {
                        assert(client_views(out@) =~= client_views(prev).push(m@));
                    }
                    pos = n;
                }
                DecodedClient::Unknown(n) => {
                    pos = n;
                }
                DecodedClient::Malformed => {
                    return None;
                }
            }
            proof {
                assert(dec_client_stream(b@, 0) == match dec_client_stream(b@, pos as int) {
                    Some(rest) => Some(client_views(out@) + rest),
                    None => None::<Seq<ClientMsgV>>,
                });
            }
        }
        proof {
            assert(dec_client_stream(b@, pos as int) == Some(Seq::<ClientMsgV>::empty()));
            assert(client_views(out@) + Seq::<ClientMsgV>::empty() =~= client_views(out@));
        }
        Some(out)
    }
}

impl ServerMessage {
    /// Decodes a whole buffer of concatenated messages, as
    /// `ClientMessage::parse` does.
    pub fn parse(b: &Vec<u8>) -> (r: Option<Vec<ServerMessage>>)
        ensures
            r is Some <==> dec_server_stream(b@, 0) is Some,
            r is Some ==> dec_server_stream(b@, 0) == Some(server_views(r->0@)),
    {
        let mut out: Vec<ServerMessage> = Vec::new();
        let mut pos: usize = 0;
        while pos < b.len()
            invariant
                pos <= b@.len(),
                dec_server_stream(b@, 0) == match dec_server_stream(b@, pos as int) {
                    Some(rest) => Some(server_views(out@) + rest),
                    None => None::<Seq<ServerMsgV>>,
                },
            decreases b@.len() - pos,
        {
            match ServerMessage::fromRaw(b, pos) {
                DecodedServer::Msg(m, n) => {
                    proof {
                        lemma_server_sound(b@, pos as int);
                    }
                    let ghost prev = out@;
                    out.push(m);
                    proof {
                        assert(server_views(out@) =~= server_views(prev).push(m@));
                    }
                    pos = n;
                }
                DecodedServer::Unknown(n) => {
                    pos = n;
                }
                DecodedServer::Malformed => {
                    return None;
                }
            }
            proof {
                assert(dec_server_stream(b@, 0) == match dec_server_stream(b@, pos as int) {
                    Some(rest) => Some(server_views(out@) + rest),
                    None => None::<Seq<ServerMsgV>>,
                });
            }
        }
        proof {
            assert(dec_server_stream(b@, pos as int) == Some(Seq::<ServerMsgV>::empty()));
            assert(server_views(out@) + Seq::<ServerMsgV>::empty() =~= server_views(out@));
        }
        Some(out)
    }
}

} // verus!

verus! {

// ---------- the game-information record ----------

/// The game-information record's layout: the unreliable port in little
/// endian, the tick rate, the extended-roster flag, then the roster text
/// and the checkpoint, each zero-terminated.
pub open spec fn game_info_bytes(
    port: u16,
    tickRate: u8,
    extended: bool,
    roster: Seq<char>,
    checkpoint: Seq<char>,
) -> Seq<u8> {
    le16(port) + seq![tickRate, (if extended { 1u8 } else { 0u8 })] + str_field(roster)
        + str_field(checkpoint)
}

/// The fields read back from a game-information record; a record with
/// missing terminators, broken text, or trailing bytes yields nothing.
pub open spec fn dec_game_info(b: Seq<u8>) -> Option<(u16, u8, bool, Seq<char>, Seq<char>)> {
    if b.len() >= 4 {
        match dec_str(b, 4) {
            Some((roster, n1)) => match dec_str(b, n1) {
                Some((checkpoint, n2)) => if n2 == b.len() {
                    Some((u16_of_le(b[0], b[1]), b[2], b[3] != 0, roster, checkpoint))
                } else {
                    None
                },
                None => None,
            },
            None => None,
        }
    } else {
        None
    }
}

/// Decoding a game-information record inverts writing one.
pub proof fn lemma_game_info_roundtrip(
    port: u16,
    tickRate: u8,
    extended: bool,
    roster: Seq<char>,
    checkpoint: Seq<char>,
)
    requires
        wf_str(roster),
        wf_str(checkpoint),
    ensures
        dec_game_info(game_info_bytes(port, tickRate, extended, roster, checkpoint))
            == Some((port, tickRate, extended, roster, checkpoint)),
{
    let b = game_info_bytes(port, tickRate, extended, roster, checkpoint);
    let sr = str_field(roster);
    let sc = str_field(checkpoint);
    let lr = sr.len() as int;
    let lc = sc.len() as int;
    assert(b.subrange(4, 4 + lr) =~= sr);
    lemma_dec_str_of_enc(b, 4, roster);
    assert(b.subrange(4 + lr, 4 + lr + lc) =~= sc);
    lemma_dec_str_of_enc(b, 4 + lr, checkpoint);
    lemma_le16_roundtrip(port);
    assert(b[0] == le16(port)[0] && b[1] == le16(port)[1]);
    assert(b[2] == tickRate);
    assert(b[3] == (if extended { 1u8 } else { 0u8 }));
}

/// Reads a game-information record, as `dec_game_info` describes.
pub fn parseGameInfo(b: &Vec<u8>) -> (r: Option<(u16, u8, bool, String, String)>)
    ensures
        r is Some <==> dec_game_info(b@) is Some,
        r is Some ==> dec_game_info(b@) == Some((
            (r->0).0,
            (r->0).1,
            (r->0).2,
            (r->0).3@,
            (r->0).4@,
        )),
{
    if b.len() < 4 {
        return None;
    }
    let port = crate::bytes::u16_from_le(b[0], b[1]);
    let (roster, n1) = match read_str(b, 4) {
        Some(v) => v,
        None => {
            return None;
        }
    };
    let (checkpoint, n2) = match read_str(b, n1) {
        Some(v) => v,
        None => {
            return None;
        }
    };
    if n2 != b.len() {
        return None;
    }
    Some((port, b[2], b[3] != 0, roster, checkpoint))
}

} // verus!
