//! The server's decision core: accepting connections into the slot table,
//! classifying what the reliable channel read, dispatching decoded requests,
//! the chat-command interpreter with its quote-aware tokenizer, voting
//! resolution, and the discovery reply. All sockets and timers live with
//! the caller; this core maps plain values to plain values.
use vstd::prelude::*;
use rand::RngExt;
use crate::bytes::le16;
use crate::codec::{ClientMessage, ServerMessage, ClientMsgV, ServerMsgV, wf_client, wf_server,
    wf_str, no_nul, enc_client, dec_server_stream, lemma_server_stream_wf,
    lemma_wf_str_no_nul};
use crate::state::{Account, AccountV, State, StateV, default_account};
use crate::table::{SlotTable, SlotV, empty_slot, update_class_spec, expected_packets};
use crate::voting::{Voting, VotingV, is_first_max};

verus! {

/// Relies on rand's `random_range` over `0..n`: it panics only on an empty
/// range and returns a value inside the range. Nothing else is assumed of
/// the draw.
#[verifier::external_body]
fn pick_index(n: usize) -> (r: usize)
    requires
        n > 0,
    ensures
        r < n,
{
    rand::rng().random_range(0..n)
}

// ---------- decimal parsing ----------

/// A decimal digit.
pub open spec fn is_digit(c: char) -> bool {
    48 <= c as u32 <= 57
}

/// Every character is a decimal digit.
pub open spec fn all_digits(s: Seq<char>) -> bool {
    forall|i: int| 0 <= i < s.len() ==> is_digit(#[trigger] s[i])
}

/// The number the digits spell, most significant first.
pub open spec fn digits_val(s: Seq<char>) -> int
    decreases s.len(),
{
    if s.len() == 0 {
        0
    } else {
        digits_val(s.drop_last()) * 10 + (s.last() as u32 - 48)
    }
}

/// A digit string's value only grows as digits are appended.
proof fn lemma_digits_val_prefix(s: Seq<char>, i: int)
    requires
        all_digits(s),
        0 <= i <= s.len(),
    ensures
        0 <= digits_val(s.take(i)) <= digits_val(s),
    decreases s.len() - i,
{
    if i == s.len() {
        assert(s.take(i) =~= s);
        lemma_digits_val_nonneg(s);
    } else {
        lemma_digits_val_prefix(s, i + 1);
        let t = s.take(i + 1);
        assert(t.drop_last() =~= s.take(i));
        assert(is_digit(s[i]));
        assert(t.last() == s[i]);
        lemma_digits_val_nonneg(s.take(i));
        assert(digits_val(s.take(i)) <= digits_val(t)) by (nonlinear_arith)
            requires
                digits_val(t) == digits_val(s.take(i)) * 10 + (t.last() as u32 - 48),
                digits_val(s.take(i)) >= 0,
                48 <= t.last() as u32 <= 57,
        ;
    }
}

proof fn lemma_digits_val_nonneg(s: Seq<char>)
    requires
        all_digits(s),
    ensures
        digits_val(s) >= 0,
    decreases s.len(),
{
    if s.len() > 0 {
        assert(all_digits(s.drop_last())) by {
            assert(forall|i: int| 0 <= i < s.len() - 1 ==> s.drop_last()[i] == s[i]);
        }
        assert(is_digit(s.last()));
        lemma_digits_val_nonneg(s.drop_last());
        assert(digits_val(s.drop_last()) * 10 >= 0) by (nonlinear_arith)
            requires
                digits_val(s.drop_last()) >= 0,
        ;
    }
}

/// Reads an unsigned decimal number: at least one digit, nothing else, and
/// the value must fit 64 bits, else nothing.
pub fn parse_u64(s: &String) -> (r: Option<u64>)
    ensures
        r is Some <==> s@.len() > 0 && all_digits(s@) && digits_val(s@) <= u64::MAX as int,
        r is Some ==> r->0 as int == digits_val(s@),
{
    if s.as_str().unicode_len() == 0 {
        return None;
    }
    parse_digits(s.as_str())
}

/// The first decimal point at or after `i`, or the length if none.
pub open spec fn find_dot(s: Seq<char>, i: int) -> int
    decreases s.len() - i,
{
    if i < 0 || i >= s.len() {
        s.len() as int
    } else if s[i] == '.' {
        i
    } else {
        find_dot(s, i + 1)
    }
}

/// The milliseconds a decimal fraction of a second names: the first three
/// fractional digits count, at millisecond precision; deeper digits are
/// cut off.
pub open spec fn frac_ms(f: Seq<char>) -> int {
    if f.len() >= 3 {
        digits_val(f.take(3))
    } else if f.len() == 2 {
        digits_val(f) * 10
    } else if f.len() == 1 {
        digits_val(f) * 100
    } else {
        0
    }
}

/// The timeout in milliseconds a token names: whole seconds, or seconds
/// with a decimal fraction; anything else names nothing.
pub open spec fn timeout_ms_spec(s: Seq<char>) -> Option<int> {
    let d = find_dot(s, 0);
    if d == s.len() {
        if s.len() > 0 && all_digits(s) {
            Some(digits_val(s) * 1000)
        } else {
            None
        }
    } else {
        let ip = s.take(d);
        let fp = s.skip(d + 1);
        if ip.len() + fp.len() > 0 && all_digits(ip) && all_digits(fp) {
            Some(digits_val(ip) * 1000 + frac_ms(fp))
        } else {
            None
        }
    }
}

/// At most three digits spell at most 999.
proof fn lemma_digits_val_small(s: Seq<char>)
    requires
        all_digits(s),
        s.len() <= 3,
    ensures
        0 <= digits_val(s),
        s.len() <= 1 ==> digits_val(s) <= 9,
        s.len() <= 2 ==> digits_val(s) <= 99,
        digits_val(s) <= 999,
    decreases s.len(),
{
    if s.len() > 0 {
        assert(all_digits(s.drop_last())) by {
            assert(forall|i: int| 0 <= i < s.len() - 1 ==> s.drop_last()[i] == s[i]);
        }
        lemma_digits_val_small(s.drop_last());
        assert(is_digit(s.last()));
    }
}

/// Whether every character is a decimal digit.
fn is_all_digits(s: &str) -> (r: bool)
    ensures
        r == all_digits(s@),
{
    let n = s.unicode_len();
    let mut i: usize = 0;
    while i < n
        invariant
            n == s@.len(),
            i <= n,
            forall|j: int| 0 <= j < i ==> is_digit(#[trigger] s@[j]),
        decreases n - i,
    {
        let cv = s.get_char(i) as u32;
        if cv < 48 || cv > 57 {
            proof {
                assert(!is_digit(s@[i as int]));
            }
            return false;
        }
        i = i + 1;
    }
    true
}

/// Reads a digit string's value; an empty string reads as zero.
fn parse_digits(s: &str) -> (r: Option<u64>)
    ensures
        r is Some <==> all_digits(s@) && digits_val(s@) <= u64::MAX as int,
        r is Some ==> r->0 as int == digits_val(s@),
{
    let n = s.unicode_len();
    let mut v: u64 = 0;
    let mut i: usize = 0;
    while i < n
        invariant
            n == s@.len(),
            i <= n,
            all_digits(s@.take(i as int)),
            v as int == digits_val(s@.take(i as int)),
        decreases n - i,
    {
        let c = s.get_char(i);
        let cv = c as u32;
        if cv < 48 || cv > 57 {
            proof {
                assert(!is_digit(s@[i as int]));
            }
            return None;
        }
        let d = (cv - 48) as u64;
        proof {
            assert(s@.take(i + 1).drop_last() =~= s@.take(i as int));
            assert(s@.take(i + 1).last() == s@[i as int]);
            assert(all_digits(s@.take(i + 1))) by {
                assert(forall|j: int| 0 <= j < i + 1 ==> s@.take(i + 1)[j] == s@[j]);
            }
        }
        if v > (u64::MAX - d) / 10 {
            proof {
                assert(v * 10 + d > u64::MAX) by (nonlinear_arith)
                    requires
                        v > (u64::MAX - d) / 10,
                        d <= 9,
                ;
                assert(digits_val(s@.take(i + 1)) > u64::MAX) by {
                    assert(digits_val(s@.take(i + 1)) == v * 10 + d);
                }
                if all_digits(s@) {
                    lemma_digits_val_prefix(s@, i + 1);
                }
            }
            return None;
        }
        proof {
            assert(v * 10 + d <= u64::MAX) by (nonlinear_arith)
                requires
                    v <= (u64::MAX - d) / 10,
                    d <= 9,
            ;
        }
        v = v * 10 + d;
        i = i + 1;
    }
    proof {
        assert(s@.take(n as int) =~= s@);
    }
    Some(v)
}

/// Reads a vote timeout, in milliseconds, as `timeout_ms_spec` describes;
/// a value past 64 bits reads as nothing.
pub fn parse_timeout_ms(s: &String) -> (r: Option<u64>)
    ensures
        r is Some <==> timeout_ms_spec(s@) is Some && timeout_ms_spec(s@)->0
            <= u64::MAX as int,
        r is Some ==> r->0 as int == timeout_ms_spec(s@)->0,
{
    let n = s.as_str().unicode_len();
    let mut d: usize = 0;
    while d < n && s.as_str().get_char(d) != '.'
        invariant
            n == s@.len(),
            d <= n,
            find_dot(s@, 0) == find_dot(s@, d as int),
        decreases n - d,
    {
        d = d + 1;
    }
    if d == n {
        proof {
            assert(find_dot(s@, 0) == n);
        }
        match parse_u64(s) {
            Some(v) => {
                if v > u64::MAX / 1000 {
                    proof {
                        assert(v * 1000 > u64::MAX) by (nonlinear_arith)
                            requires
                                v > u64::MAX / 1000,
                        ;
                    }
                    return None;
                }
                proof {
                    assert(v * 1000 <= u64::MAX) by (nonlinear_arith)
                        requires
                            v <= u64::MAX / 1000,
                    ;
                }
                Some(v * 1000)
            }
            None => {
                proof {
                    if all_digits(s@) && s@.len() > 0 {
                        lemma_digits_val_nonneg(s@);
                        assert(digits_val(s@) * 1000 > u64::MAX as int) by (nonlinear_arith)
                            requires
                                digits_val(s@) > u64::MAX as int,
                        ;
                    }
                }
                None
            }
        }
    } else {
        proof {
            assert(find_dot(s@, 0) == d);
        }
        let ip = s.as_str().substring_char(0, d);
        let fp = s.as_str().substring_char(d + 1, n);
        proof {
            assert(ip@ =~= s@.take(d as int));
            assert(fp@ =~= s@.skip(d + 1));
        }
        if !is_all_digits(ip) || !is_all_digits(fp) {
            return None;
        }
        if d == 0 && fp.unicode_len() == 0 {
            return None;
        }
        let fl = fp.unicode_len();
        let cut = if fl >= 3 {
            3
        } else {
            fl
        };
        let head = fp.substring_char(0, cut);
        proof {
            assert(head@ =~= fp@.take(cut as int));
            assert(all_digits(head@)) by {
                assert(forall|j: int| 0 <= j < cut ==> head@[j] == fp@[j]);
            }
            lemma_digits_val_small(head@);
            if fl >= 3 {
                assert(fp@.take(3) == head@);
            } else {
                assert(head@ =~= fp@);
            }
        }
        let hv = match parse_digits(head) {
            Some(v) => v,
            None => {
                proof {
                    assert(false);
                }
                return None;
            }
        };
        let frac: u64 = if fl >= 3 {
            hv
        } else if fl == 2 {
            hv * 10
        } else if fl == 1 {
            hv * 100
        } else {
            0
        };
        proof {
            assert(frac as int == frac_ms(fp@));
            assert(frac <= 999);
        }
        match parse_digits(ip) {
            Some(v) => {
                if v > (u64::MAX - frac) / 1000 {
                    proof {
                        assert(v * 1000 + frac > u64::MAX) by (nonlinear_arith)
                            requires
                                v > (u64::MAX - frac) / 1000,
                                frac <= 999,
                        ;
                    }
                    None
                } else {
                    proof {
                        assert(v * 1000 + frac <= u64::MAX) by (nonlinear_arith)
                            requires
                                v <= (u64::MAX - frac) / 1000,
                                frac <= 999,
                        ;
                    }
                    Some(v * 1000 + frac)
                }
            }
            None => {
                proof {
                    lemma_digits_val_nonneg(ip@);
                    assert(digits_val(ip@) * 1000 + frac_ms(fp@) > u64::MAX as int)
                        by (nonlinear_arith)
                        requires
                            digits_val(ip@) > u64::MAX as int,
                            frac_ms(fp@) >= 0,
                    ;
                }
                None
            }
        }
    }
}

// ---------- the quote-aware tokenizer ----------

/// The tokenizer's remaining work: reading `src` from `i` with the token
/// collected so far and whether a double quote is open. Spaces split
/// tokens unless quoted; a quote ends the token collected so far and
/// toggles quoting; delimiters themselves are dropped.
pub open spec fn split_rec(src: Seq<char>, i: int, cur: Seq<char>, quoted: bool)
    -> Seq<Seq<char>>
    decreases src.len() - i,
{
    if i < 0 || i >= src.len() {
        if cur.len() > 0 {
            seq![cur]
        } else {
            Seq::empty()
        }
    } else {
        let c = src[i];
        if c == ' ' {
            if quoted {
                split_rec(src, i + 1, cur.push(' '), true)
            } else if cur.len() > 0 {
                seq![cur] + split_rec(src, i + 1, Seq::empty(), false)
            } else {
                split_rec(src, i + 1, Seq::empty(), false)
            }
        } else if c == '"' {
            if cur.len() > 0 {
                seq![cur] + split_rec(src, i + 1, Seq::empty(), !quoted)
            } else {
                split_rec(src, i + 1, Seq::empty(), !quoted)
            }
        } else {
            split_rec(src, i + 1, cur.push(c), quoted)
        }
    }
}

/// The tokens of a command line.
pub open spec fn split_spec(src: Seq<char>) -> Seq<Seq<char>> {
    split_rec(src, 0, Seq::empty(), false)
}

/// Tokenizes a command line: spaces separate tokens, double-quoted spans
/// keep their spaces, the quotes themselves are dropped.
pub fn split(src: String) -> (r: Vec<String>)
    ensures
        r@.map_values(|t: String| t@) == split_spec(src@),
{
    let n = src.as_str().unicode_len();
    let mut out: Vec<String> = Vec::new();
    let mut start: usize = 0;
    let mut i: usize = 0;
    let mut quoted = false;
    proof {
        assert(src@.subrange(0, 0) =~= Seq::<char>::empty());
        assert(out@.map_values(|t: String| t@) + split_spec(src@) =~= split_spec(src@));
    }
    while i < n
        invariant
            n == src@.len(),
            start <= i <= n,
            split_spec(src@) == out@.map_values(|t: String| t@) + split_rec(
                src@,
                i as int,
                src@.subrange(start as int, i as int),
                quoted,
            ),
        decreases n - i,
    {
        let ghost prev = out@;
        let c = src.as_str().get_char(i);
        if c == ' ' {
            if quoted {
                proof {
                    assert(src@.subrange(start as int, i as int).push(' ')
                        =~= src@.subrange(start as int, i + 1));
                }
            } else {
                if start < i {
                    let tok = src.as_str().substring_char(start, i).to_owned();
                    out.push(tok);
                    proof {
                        assert(out@.map_values(|t: String| t@) =~= prev.map_values(
                            |t: String| t@).push(src@.subrange(start as int, i as int)));
                        assert(prev.map_values(|t: String| t@).push(src@.subrange(
                            start as int, i as int)) + split_rec(src@, i + 1, Seq::empty(), false)
                            =~= prev.map_values(|t: String| t@) + (seq![src@.subrange(
                            start as int, i as int)] + split_rec(src@, i + 1, Seq::empty(),
                            false)));
                    }
                }
                start = i + 1;
                proof {
                    assert(src@.subrange(start as int, i + 1) =~= Seq::<char>::empty());
                }
            }
        } else if c == '"' {
            if start < i {
                let tok = src.as_str().substring_char(start, i).to_owned();
                out.push(tok);
                proof {
                    assert(out@.map_values(|t: String| t@) =~= prev.map_values(
                        |t: String| t@).push(src@.subrange(start as int, i as int)));
                    assert(prev.map_values(|t: String| t@).push(src@.subrange(
                        start as int, i as int)) + split_rec(src@, i + 1, Seq::empty(), !quoted)
                        =~= prev.map_values(|t: String| t@) + (seq![src@.subrange(
                        start as int, i as int)] + split_rec(src@, i + 1, Seq::empty(),
                        !quoted)));
                }
            }
            start = i + 1;
            quoted = !quoted;
            proof {
                assert(src@.subrange(start as int, i + 1) =~= Seq::<char>::empty());
            }
        } else {
            proof {
                assert(src@.subrange(start as int, i as int).push(src@[i as int])
                    =~= src@.subrange(start as int, i + 1));
            }
        }
        i = i + 1;
    }
    if start < n {
        let ghost prev = out@;
        let tok = src.as_str().substring_char(start, n).to_owned();
        out.push(tok);
        proof {
            assert(out@.map_values(|t: String| t@) =~= prev.map_values(|t: String| t@).push(
                src@.subrange(start as int, n as int)));
            assert(prev.map_values(|t: String| t@).push(src@.subrange(start as int, n as int))
                =~= prev.map_values(|t: String| t@) + seq![src@.subrange(
                start as int, n as int)]);
        }
    } else {
        proof {
            assert(out@.map_values(|t: String| t@) + Seq::<Seq<char>>::empty()
                =~= out@.map_values(|t: String| t@));
        }
    }
    out
}

/// Every token the tokenizer yields is made of characters of the line and
/// the open token, so a line without NUL yields tokens without NUL.
pub proof fn lemma_split_no_nul(src: Seq<char>, i: int, cur: Seq<char>, quoted: bool)
    requires
        crate::codec::no_nul(src),
        crate::codec::no_nul(cur),
    ensures
        forall|k: int| 0 <= k < split_rec(src, i, cur, quoted).len()
            ==> crate::codec::no_nul(#[trigger] split_rec(src, i, cur, quoted)[k]),
    decreases src.len() - i,
{
    let r = split_rec(src, i, cur, quoted);
    if i < 0 || i >= src.len() {
        if cur.len() > 0 {
            assert(r[0] == cur);
        }
    } else {
        let c = src[i];
        assert((c as u32) != 0);
        assert(crate::codec::no_nul(cur.push(c))) by {
            assert(forall|j: int| 0 <= j < cur.len() ==> cur.push(c)[j] == cur[j]);
        }
        assert(crate::codec::no_nul(cur.push(' '))) by {
            assert(forall|j: int| 0 <= j < cur.len() ==> cur.push(' ')[j] == cur[j]);
            assert((' ' as u32) != 0);
        }
        if c == ' ' {
            if quoted {
                lemma_split_no_nul(src, i + 1, cur.push(' '), true);
                assert forall|k: int| 0 <= k < r.len() implies crate::codec::no_nul(
                    #[trigger] r[k]) by {
                    assert(r[k] == split_rec(src, i + 1, cur.push(' '), true)[k]);
                }
            } else if cur.len() > 0 {
                lemma_split_no_nul(src, i + 1, Seq::empty(), false);
                let rest = split_rec(src, i + 1, Seq::empty(), false);
                assert forall|k: int| 0 <= k < r.len() implies crate::codec::no_nul(
                    #[trigger] r[k]) by {
                    if k == 0 {
                        assert(r[k] == cur);
                    } else {
                        assert(r[k] == rest[k - 1]);
                    }
                }
            } else {
                lemma_split_no_nul(src, i + 1, Seq::empty(), false);
                assert forall|k: int| 0 <= k < r.len() implies crate::codec::no_nul(
                    #[trigger] r[k]) by {
                    assert(r[k] == split_rec(src, i + 1, Seq::empty(), false)[k]);
                }
            }
        } else if c == '"' {
            lemma_split_no_nul(src, i + 1, Seq::empty(), !quoted);
            if cur.len() == 0 {
                assert forall|k: int| 0 <= k < r.len() implies crate::codec::no_nul(
                    #[trigger] r[k]) by {
                    assert(r[k] == split_rec(src, i + 1, Seq::empty(), !quoted)[k]);
                }
            }
            if cur.len() > 0 {
                let rest = split_rec(src, i + 1, Seq::empty(), !quoted);
                assert forall|k: int| 0 <= k < r.len() implies crate::codec::no_nul(
                    #[trigger] r[k]) by {
                    if k == 0 {
                        assert(r[k] == cur);
                    } else {
                        assert(r[k] == rest[k - 1]);
                    }
                }
            }
        } else {
            lemma_split_no_nul(src, i + 1, cur.push(c), quoted);
            assert forall|k: int| 0 <= k < r.len() implies crate::codec::no_nul(
                #[trigger] r[k]) by {
                assert(r[k] == split_rec(src, i + 1, cur.push(c), quoted)[k]);
            }
        }
    }
}

// ---------- discovery ----------

/// The reply to a broadcast discovery probe: the reliable listener's port
/// as two little-endian bytes.
pub fn discoveryReply(port: u16) -> (r: Vec<u8>)
    ensures
        r@ == le16(port),
{
    let (lo, hi) = crate::bytes::u16_le_bytes(port);
    let mut out: Vec<u8> = Vec::new();
    out.push(lo);
    out.push(hi);
    proof {
        assert(out@ =~= le16(port));
    }
    out
}

} // verus!

verus! {

// ---------- the server core ----------

/// What one read of a slot's reliable channel yielded, classified by the
/// caller from the socket outcome: bytes, nothing this tick, a graceful or
/// abrupt close, or any other I/O error.
pub enum ReadEvent {
    Data(Vec<u8>),
    WouldBlock,
    Closed,
    Error,
}

/// The mathematical content of the server core.
pub ghost struct CoreV {
    pub table: Seq<SlotV>,
    pub state: StateV,
    pub voting: VotingV,
    pub requests: Seq<(u8, ServerMsgV)>,
    pub broadcast: Seq<ClientMsgV>,
    pub replies: Seq<(u8, ClientMsgV)>,
    pub started: bool,
    pub udpPort: u16,
}

/// The server's whole decision state: the slot table, the game state, the
/// running poll, the queue of decoded inbound requests, the outbound
/// broadcast and per-slot reply queues, whether the game started, and the
/// unreliable channel's port.
pub struct ServerCore {
    table: SlotTable,
    state: State,
    voting: Voting,
    requests: Vec<(u8, ServerMessage)>,
    broadcast: Vec<ClientMessage>,
    replies: Vec<(u8, ClientMessage)>,
    started: bool,
    udpPort: u16,
}

impl View for ServerCore {
    type V = CoreV;

    closed spec fn view(&self) -> CoreV {
        CoreV {
            table: self.table@,
            state: self.state@,
            voting: self.voting@,
            requests: self.requests@.map_values(|e: (u8, ServerMessage)| (e.0, e.1@)),
            broadcast: self.broadcast@.map_values(|m: ClientMessage| m@),
            replies: self.replies@.map_values(|e: (u8, ClientMessage)| (e.0, e.1@)),
            started: self.started,
            udpPort: self.udpPort,
        }
    }
}

/// An account as the wire can carry it: one whose strings hold a NUL
/// character, and so could never be encoded, falls back to the default.
pub open spec fn sanitized(a: AccountV) -> AccountV {
    if wf_str(a.name) && wf_str(a.class) {
        a
    } else {
        default_account()
    }
}

/// Inbound messages paired with the slot they came from.
pub open spec fn with_id(id: u8, msgs: Seq<ServerMsgV>) -> Seq<(u8, ServerMsgV)> {
    msgs.map_values(|m: ServerMsgV| (id, m))
}

/// The core with its inbound queue set aside: the per-request transition
/// relations speak of this, since draining the queue is what applies them.
pub open spec fn sans_requests(v: CoreV) -> CoreV {
    CoreV { requests: Seq::empty(), ..v }
}

impl ServerCore {
    /// The core's invariant: unique account addresses, one tally per poll
    /// option, a non-empty option list whenever a poll is active, a roster
    /// that fits slot ids, and only encodable messages in the queues.
    pub open spec fn wf(self) -> bool {
        &&& self.wf_state()
        &&& self.wf_voting()
        &&& self.wf_table()
        &&& forall|k: int| 0 <= k < self@.requests.len()
            ==> wf_server((#[trigger] self@.requests[k]).1)
        &&& forall|k: int| 0 <= k < self@.broadcast.len()
            ==> wf_client(#[trigger] self@.broadcast[k])
        &&& forall|k: int| 0 <= k < self@.replies.len()
            ==> wf_client((#[trigger] self@.replies[k]).1)
    }

    /// The table part of the invariant: the roster fits slot ids and every
    /// seat's account strings fit the wire.
    pub open spec fn wf_table(self) -> bool {
        &&& self@.table.len() <= 255
        &&& forall|j: int| 0 <= j < self@.table.len() ==> wf_str(
            (#[trigger] self@.table[j]).info.name) && wf_str(self@.table[j].info.class)
    }

    /// The game-state part of the invariant.
    pub open spec fn wf_state(self) -> bool {
        crate::kvlist::kv_unique(self@.state.accounts)
    }

    /// The voting part of the invariant: one tally per option, a topic
    /// whenever options exist, and only wire-safe poll strings.
    pub open spec fn wf_voting(self) -> bool {
        &&& self@.voting.tally.len() == self@.voting.options.len()
        &&& self@.voting.topic.len() != 0 ==> self@.voting.options.len() > 0
        &&& no_nul(self@.voting.topic)
        &&& forall|k: int| 0 <= k < self@.voting.options.len()
            ==> no_nul(#[trigger] self@.voting.options[k])
    }

    /// Builds the core around a loaded game state: a fresh slot table of
    /// the state's roster size, no poll, empty queues.
    pub fn new(state: State, udpPort: u16) -> (r: ServerCore)
        requires
            state.wf(),
        ensures
            r.wf(),
            r@.state == state@,
            r@.table.len() == 5 * (if state@.settings.extendPlayers { 2 as int } else { 1 as int }),
            forall|i: int| 0 <= i < r@.table.len() ==> r@.table[i] == empty_slot(),
            r@.voting.topic.len() == 0,
            r@.requests.len() == 0,
            r@.broadcast.len() == 0,
            r@.replies.len() == 0,
            !r@.started,
            r@.udpPort == udpPort,
    {
        let count = state.getPlayersCount();
        let r = ServerCore {
            table: SlotTable::new(count),
            state,
            voting: Voting::new(),
            requests: Vec::new(),
            broadcast: Vec::new(),
            replies: Vec::new(),
            started: false,
            udpPort,
        };
        proof {
            assert(r@.requests =~= Seq::<(u8, ServerMsgV)>::empty());
            assert(r@.broadcast =~= Seq::<ClientMsgV>::empty());
            assert(r@.replies =~= Seq::<(u8, ClientMsgV)>::empty());
            lemma_wf_literals();
            assert(r@.voting.topic.len() == 0);
            assert(no_nul(r@.voting.topic));
            assert(r.wf());
        }
        r
    }

    /// The roster size.
    pub fn playerCount(&self) -> (r: usize)
        ensures
            r == self@.table.len(),
    {
        self.table.len()
    }

    /// Queues a broadcast message; every queued message must be encodable.
    fn pushBroadcast(&mut self, m: ClientMessage)
        requires
            old(self).wf(),
            wf_client(m@),
        ensures
            final(self).wf(),
            final(self)@ == (CoreV { broadcast: old(self)@.broadcast.push(m@), ..old(self)@ }),
    {
        self.broadcast.push(m);
        proof {
            assert(self@.broadcast =~= old(self)@.broadcast.push(m@));
        }
    }

    /// Queues a reply to one slot; every queued message must be encodable.
    fn pushReply(&mut self, id: u8, m: ClientMessage)
        requires
            old(self).wf(),
            wf_client(m@),
        ensures
            final(self).wf(),
            final(self)@ == (CoreV { replies: old(self)@.replies.push((id, m@)), ..old(self)@ }),
    {
        self.replies.push((id, m));
        proof {
            assert(self@.replies =~= old(self)@.replies.push((id, m@)));
        }
    }

    /// Accepts one reliable connection from address `ip`: the smallest free
    /// slot is granted, the address's account is fetched or created, the
    /// account's class passes the role-uniqueness rule against the current
    /// roster, and the player's login is queued for broadcast. Zero means
    /// no capacity: nothing changes, and the caller drops the connection.
    pub fn accept(&mut self, ip: String) -> (r: u8)
        requires
            old(self).wf(),
        ensures
            final(self).wf(),
            r == 0 ==> final(self)@ == old(self)@ && (forall|j: int|
                0 <= j < old(self)@.table.len() ==> old(self)@.table[j].connected),
            r != 0 ==> ({
                let acct = sanitized(crate::kvlist::kv_lookup(old(self)@.state.accounts, ip@,
                    default_account()));
                let cls = update_class_spec(old(self)@.table, "unknown"@, acct.class,
                    old(self)@.state.settings.extendPlayers);
                &&& 1 <= r as int <= old(self)@.table.len()
                &&& !old(self)@.table[r as int - 1].connected
                &&& (forall|j: int| 0 <= j < r as int - 1 ==> old(self)@.table[j].connected)
                &&& final(self)@.table.len() == old(self)@.table.len()
                &&& final(self)@.table[r as int - 1] == (SlotV {
                    connected: true,
                    udp: None,
                    info: AccountV { class: cls, ..acct },
                    state: empty_slot().state,
                })
                &&& (forall|j: int| 0 <= j < old(self)@.table.len() && j != r as int - 1
                    ==> final(self)@.table[j] == old(self)@.table[j])
                &&& crate::kvlist::kv_lookup(final(self)@.state.accounts, ip@,
                    default_account()) == crate::kvlist::kv_lookup(old(self)@.state.accounts,
                    ip@, default_account())
                &&& (forall|m: Seq<char>| m != ip@ ==> crate::kvlist::kv_lookup(
                    final(self)@.state.accounts, m, default_account())
                    == crate::kvlist::kv_lookup(old(self)@.state.accounts, m,
                    default_account()))
                &&& final(self)@.state.chatHistory == old(self)@.state.chatHistory
                &&& final(self)@.state.settings == old(self)@.state.settings
                &&& final(self)@.state.save == old(self)@.state.save
                &&& final(self)@.broadcast == old(self)@.broadcast.push(
                    ClientMsgV::Login(r, acct.name))
                &&& final(self)@.voting == old(self)@.voting
                &&& final(self)@.requests == old(self)@.requests
                &&& final(self)@.replies == old(self)@.replies
                &&& final(self)@.started == old(self)@.started
                &&& final(self)@.udpPort == old(self)@.udpPort
            }),
    {
        let id = self.table.getAvailablePlayerID();
        if id == 0 {
            return 0;
        }
        let ghost gip = ip@;
        let raw_info = self.state.getPlayerInfo(ip);
        let info = if str_wire_ok(raw_info.name.as_str())
            && str_wire_ok(raw_info.class.as_str()) {
            raw_info
        } else {
            Account::default()
        };
        proof {
            lemma_wf_literals();
            assert(info@ == sanitized(crate::kvlist::kv_lookup(old(self)@.state.accounts, gip,
                default_account())));
            assert(self@.table == old(self)@.table);
        }
        let cls = self.table.updateClass("unknown".to_owned(), info.class.clone(),
            self.state.settings.extendPlayers);
        proof {
            lemma_wf_str_no_nul("unknown"@);
            assert(no_nul("unknown"@));
            assert(cls@ == update_class_spec(old(self)@.table, "unknown"@, info@.class,
                old(self)@.state.settings.extendPlayers));
            assert(wf_str(cls@)) by {
                if cls@ == "unknown"@ {
                } else {
                }
            }
        }
        let name = info.name.clone();
        let bound = Account { class: cls, ..info };
        self.table.connect(id, bound);
        proof {
            assert(self@.requests == old(self)@.requests);
            assert(self@.broadcast == old(self)@.broadcast);
            assert(self@.replies == old(self)@.replies);
            assert(self@.voting == old(self)@.voting);
            assert forall|j: int| 0 <= j < self@.table.len() implies wf_str(
                (#[trigger] self@.table[j]).info.name) && wf_str(self@.table[j].info.class) by {
                if j != id as int - 1 {
                    assert(self@.table[j] == old(self)@.table[j]);
                }
            }
            assert(self.wf());
        }
        self.pushBroadcast(ClientMessage::Login(id, name));
        id
    }

    /// Classifies one read of slot `id`'s reliable channel and queues what
    /// it yielded: nothing for a would-block; every decoded message of the
    /// buffer in order; and the synthesized disconnect for a zero-length
    /// read, a closed or failed connection, or a malformed buffer, which
    /// tears the connection down.
    pub fn receive(&mut self, id: u8, ev: ReadEvent)
        requires
            old(self).wf(),
        ensures
            final(self).wf(),
            ({
                let disc = old(self)@.requests.push((id, ServerMsgV::Disconnected));
                let post = match ev {
                    ReadEvent::WouldBlock => old(self)@.requests,
                    ReadEvent::Closed => disc,
                    ReadEvent::Error => disc,
                    ReadEvent::Data(buf) => if buf@.len() == 0 {
                        disc
                    } else {
                        match dec_server_stream(buf@, 0) {
                            Some(msgs) => old(self)@.requests + with_id(id, msgs),
                            None => disc,
                        }
                    },
                };
                final(self)@ == (CoreV { requests: post, ..old(self)@ })
            }),
    {
        match ev {
            ReadEvent::WouldBlock => {}
            ReadEvent::Closed | ReadEvent::Error => {
                self.requests.push((id, ServerMessage::Disconnected));
                proof {
                    assert(self@.requests =~= old(self)@.requests.push(
                        (id, ServerMsgV::Disconnected)));
                }
            }
            ReadEvent::Data(buf) => {
                if buf.len() == 0 {
                    self.requests.push((id, ServerMessage::Disconnected));
                    proof {
                        assert(self@.requests =~= old(self)@.requests.push(
                            (id, ServerMsgV::Disconnected)));
                    }
                } else {
                    match ServerMessage::parse(&buf) {
                        Some(msgs) => {
                            proof {
                                lemma_server_stream_wf(buf@, 0);
                            }
                            let ghost gmsgs = msgs@.map_values(|m: ServerMessage| m@);
                            let mut k: usize = 0;
                            let count = msgs.len();
                            let mut rest = msgs;
                            proof {
                                assert(with_id(id, gmsgs.take(0)) =~= Seq::<(u8,
                                    ServerMsgV)>::empty());
                                assert(old(self)@.requests + with_id(id, gmsgs.take(0))
                                    =~= old(self)@.requests);
                            }
                            while k < count
                                invariant
                                    forall|t: int| 0 <= t < old(self)@.broadcast.len()
                                        ==> wf_client(#[trigger] old(self)@.broadcast[t]),
                                    forall|t: int| 0 <= t < old(self)@.replies.len()
                                        ==> wf_client((#[trigger] old(self)@.replies[t]).1),
                                    forall|t: int| 0 <= t < old(self)@.table.len()
                                        ==> wf_str((#[trigger] old(self)@.table[t]).info.name)
                                            && wf_str(old(self)@.table[t].info.class),
                                    no_nul(old(self)@.voting.topic),
                                    forall|t: int| 0 <= t < old(self)@.voting.options.len()
                                        ==> no_nul(#[trigger] old(self)@.voting.options[t]),
                                    k <= count == gmsgs.len(),
                                    rest@.len() == count - k,
                                    forall|j: int| 0 <= j < rest@.len()
                                        ==> (#[trigger] rest@[j])@ == gmsgs[k + j],
                                    forall|j: int| 0 <= j < gmsgs.len()
                                        ==> wf_server(#[trigger] gmsgs[j]),
                                    self.wf(),
                                    self@ == (CoreV {
                                        requests: old(self)@.requests + with_id(id,
                                            gmsgs.take(k as int)),
                                        ..old(self)@
                                    }),
                                decreases count - k,
                            {
                                let ghost before = self@.requests;
                                let m = rest.remove(0);
                                self.requests.push((id, m));
                                k = k + 1;
                                proof {
                                    assert(m@ == gmsgs[k - 1]);
                                    assert(self@.requests =~= before.push((id, gmsgs[
                                        k - 1])));
                                    assert(old(self)@.requests + with_id(id, gmsgs.take(
                                        k as int)) =~= before.push((id, gmsgs[k - 1])));
                                    assert(self@.broadcast == old(self)@.broadcast);
                                    assert(self@.replies == old(self)@.replies);
                                    assert forall|t: int| 0 <= t < self@.broadcast.len()
                                        implies wf_client(#[trigger] self@.broadcast[t]) by {
                                        assert(self@.broadcast[t] == old(self)@.broadcast[t]);
                                    }
                                    assert forall|t: int| 0 <= t < self@.replies.len()
                                        implies wf_client((#[trigger] self@.replies[t]).1) by {
                                        assert(self@.replies[t] == old(self)@.replies[t]);
                                    }
                                    assert forall|t: int| 0 <= t < self@.table.len()
                                        implies wf_str((#[trigger] self@.table[t]).info.name)
                                            && wf_str(self@.table[t].info.class) by {
                                        assert(self@.table[t] == old(self)@.table[t]);
                                    }
                                    assert forall|t: int| 0 <= t < self@.voting.options.len()
                                        implies no_nul(
                                        #[trigger] self@.voting.options[t]) by {
                                        assert(self@.voting == old(self)@.voting);
                                    }
                                    let reqs = self@.requests;
                                    assert forall|t: int| 0 <= t < reqs.len() implies
                                        wf_server((#[trigger] reqs[t]).1) by {
                                        assert(reqs == before.push((id, gmsgs[k - 1])));
                                        if t < before.len() {
                                            assert(reqs[t] == before[t]);
                                        } else {
                                            assert(reqs[t] == (id, gmsgs[k - 1]));
                                        }
                                    }
                                    assert(self.wf());
                                }
                            }
                            proof {
                                assert(gmsgs.take(count as int) =~= gmsgs);
                            }
                        }
                        None => {
                            self.requests.push((id, ServerMessage::Disconnected));
                            proof {
                                assert(self@.requests =~= old(self)@.requests.push(
                                    (id, ServerMsgV::Disconnected)));
                            }
                        }
                    }
                }
            }
        }
    }

    /// Hands back the queued broadcast frames, encoded, and frees the slot
    /// of every queued disconnect, as the broadcast pass does after sending.
    /// The caller writes each frame to every connected slot's channel.
    pub fn flushBroadcast(&mut self) -> (r: Vec<Vec<u8>>)
        requires
            old(self).wf(),
        ensures
            final(self).wf(),
            r@.len() == old(self)@.broadcast.len(),
            forall|k: int| 0 <= k < r@.len() ==> (#[trigger] r@[k])@ == enc_client(
                old(self)@.broadcast[k]),
            final(self)@.broadcast.len() == 0,
            final(self)@.table.len() == old(self)@.table.len(),
            forall|j: int| 0 <= j < old(self)@.table.len() ==> final(self)@.table[j] == (
                if exists|k: int| 0 <= k < old(self)@.broadcast.len()
                    && old(self)@.broadcast[k] == ClientMsgV::Disconnected((j + 1) as u8) {
                    empty_slot()
                } else {
                    old(self)@.table[j]
                }),
            final(self)@.state == old(self)@.state,
            final(self)@.voting == old(self)@.voting,
            final(self)@.requests == old(self)@.requests,
            final(self)@.replies == old(self)@.replies,
            final(self)@.started == old(self)@.started,
            final(self)@.udpPort == old(self)@.udpPort,
    {
        let mut frames: Vec<Vec<u8>> = Vec::new();
        let ghost queue = self@.broadcast;
        let mut k: usize = 0;
        let count = self.broadcast.len();
        while k < count
            invariant
                old(self).wf(),
                self.wf(),
                k <= count == queue.len(),
                frames@.len() == k,
                forall|i: int| 0 <= i < k ==> (#[trigger] frames@[i])@ == enc_client(queue[i]),
                self@.broadcast == queue,
                self@.table.len() == old(self)@.table.len() <= 255,
                forall|j: int| 0 <= j < old(self)@.table.len() ==> self@.table[j] == (
                    if exists|i: int| 0 <= i < k && queue[i] == ClientMsgV::Disconnected(
                        (j + 1) as u8) {
                        empty_slot()
                    } else {
                        old(self)@.table[j]
                    }),
                self@.state == old(self)@.state,
                self@.voting == old(self)@.voting,
                self@.requests == old(self)@.requests,
                self@.replies == old(self)@.replies,
                self@.started == old(self)@.started,
                self@.udpPort == old(self)@.udpPort,
            decreases count - k,
        {
            let frame = self.encodeBroadcastAt(k);
            frames.push(frame);
            let ghost tbefore = self@.table;
            let mid = self.disconnectIdAt(k);
            if mid != 0 {
                if (mid as usize) <= self.table.len() {
                    self.table.reset(mid);
                }
            }
            proof {
                assert(self@.broadcast == queue);
                assert(self@.requests == old(self)@.requests);
                assert(self@.replies == old(self)@.replies);
                assert(self@.state == old(self)@.state);
                assert(self@.voting == old(self)@.voting);
                lemma_wf_literals();
                assert forall|j: int| 0 <= j < self@.table.len() implies wf_str(
                    (#[trigger] self@.table[j]).info.name)
                    && wf_str(self@.table[j].info.class) by {
                    if self@.table[j] == tbefore[j] {
                        assert(wf_str(tbefore[j].info.name) && wf_str(tbefore[j].info.class));
                    } else {
                        assert(self@.table[j] == empty_slot());
                    }
                }
                assert(self.wf());
            }
            k = k + 1;
            proof {
                assert forall|j: int| 0 <= j < old(self)@.table.len() implies self@.table[j]
                    == (if exists|i: int| 0 <= i < k && queue[i] == ClientMsgV::Disconnected(
                        (j + 1) as u8) {
                        empty_slot()
                    } else {
                        old(self)@.table[j]
                    }) by {
                    if exists|i: int| 0 <= i < k && queue[i] == ClientMsgV::Disconnected(
                        (j + 1) as u8) {
                        let i = choose|i: int| 0 <= i < k && queue[i]
                            == ClientMsgV::Disconnected((j + 1) as u8);
                        if i < k - 1 {
                            assert(tbefore[j] == empty_slot());
                        }
                    }
                }
            }
        }
        self.broadcast.clear();
        proof {
            assert(self@.broadcast =~= Seq::<ClientMsgV>::empty());
        }
        frames
    }

    /// Encodes the queued broadcast message at `k`.
    fn encodeBroadcastAt(&self, k: usize) -> (r: Vec<u8>)
        requires
            self.wf(),
            k < self@.broadcast.len(),
        ensures
            r@ == enc_client(self@.broadcast[k as int]),
    {
        proof {
            assert(self@.broadcast[k as int] == self.broadcast@[k as int]@);
        }
        let m = &self.broadcast[k];
        let c = match m {
            ClientMessage::Login(id, name) => ClientMessage::Login(*id, name.clone()),
            ClientMessage::Disconnected(id) => ClientMessage::Disconnected(*id),
            ClientMessage::Chat(text) => ClientMessage::Chat(text.clone()),
            ClientMessage::GameInfo(kind, raw) => ClientMessage::GameInfo(*kind, raw.clone()),
            ClientMessage::PlayerInfo(id, info) => ClientMessage::PlayerInfo(*id, info.clone()),
            ClientMessage::SelectChar(id, class) => ClientMessage::SelectChar(*id,
                class.clone()),
            ClientMessage::GameReady(st) => ClientMessage::GameReady(*st),
        };
        proof {
            assert(c@ == self@.broadcast[k as int]);
            assert(wf_client(c@));
        }
        c.toRaw()
    }

    /// The slot a queued disconnect frees, or zero.
    fn disconnectIdAt(&self, k: usize) -> (r: u8)
        requires
            k < self@.broadcast.len(),
        ensures
            self@.broadcast[k as int] matches ClientMsgV::Disconnected(id) ==> r == id && r != 0
                || r == id,
            !(self@.broadcast[k as int] is Disconnected) ==> r == 0,
    {
        match &self.broadcast[k] {
            ClientMessage::Disconnected(id) => *id,
            _ => 0,
        }
    }
}

/// Whether a string fits a zero-delimited wire field, checked by scanning
/// its bytes.
pub fn str_wire_ok(s: &str) -> (r: bool)
    ensures
        r == wf_str(s@),
{
    let bs = s.as_bytes_vec();
    let n = bs.len();
    let mut i: usize = 0;
    while i < n
        invariant
            n == bs@.len(),
            bs@ == vstd::utf8::encode_utf8(s@),
            i <= n,
            forall|j: int| 0 <= j < i ==> (#[trigger] bs@[j]) != 0,
        decreases n - i,
    {
        if bs[i] == 0 {
            return false;
        }
        i = i + 1;
    }
    true
}

} // verus!

verus! {

/// The fixed texts the server builds messages from hold no NUL character,
/// so they fit zero-delimited wire fields.
pub proof fn lemma_wf_literals()
    ensures
        wf_str("noname"@),
        wf_str("unknown"@),
        wf_str("Player "@),
        wf_str(" shot themselves in the knee."@),
        wf_str(" walked the plank."@),
        wf_str(" stood themselves in the corner."@),
        wf_str(" was punished by default."@),
        wf_str(" kicked "@),
        wf_str(" from the game."@),
        wf_str(" started a vote."@),
        wf_str(" voted."@),
        wf_str("/voting \""@),
        wf_str("\" "@),
        wf_str("\""@),
        wf_str("Voting result: "@),
        wf_str(" ("@),
        wf_str(" votes)"@),
        wf_str("/votingResult \""@),
        wf_str("\" \""@),
{
    reveal_strlit("noname");
    assert forall|i: int| 0 <= i < "noname"@.len() implies (#[trigger] ("noname"@)[i]) as u32 != 0 by {
        assert("noname"@.len() == 6);
    }
    lemma_wf_str_no_nul("noname"@);
    reveal_strlit("unknown");
    assert forall|i: int| 0 <= i < "unknown"@.len() implies (#[trigger] ("unknown"@)[i]) as u32 != 0 by {
        assert("unknown"@.len() == 7);
    }
    lemma_wf_str_no_nul("unknown"@);
    reveal_strlit("Player ");
    assert forall|i: int| 0 <= i < "Player "@.len() implies (#[trigger] ("Player "@)[i]) as u32 != 0 by {
        assert("Player "@.len() == 7);
    }
    lemma_wf_str_no_nul("Player "@);
    reveal_strlit(" shot themselves in the knee.");
    assert forall|i: int| 0 <= i < " shot themselves in the knee."@.len() implies (#[trigger] (" shot themselves in the knee."@)[i]) as u32 != 0 by {
        assert(" shot themselves in the knee."@.len() == 29);
    }
    lemma_wf_str_no_nul(" shot themselves in the knee."@);
    reveal_strlit(" walked the plank.");
    assert forall|i: int| 0 <= i < " walked the plank."@.len() implies (#[trigger] (" walked the plank."@)[i]) as u32 != 0 by {
        assert(" walked the plank."@.len() == 18);
    }
    lemma_wf_str_no_nul(" walked the plank."@);
    reveal_strlit(" stood themselves in the corner.");
    assert forall|i: int| 0 <= i < " stood themselves in the corner."@.len() implies (#[trigger] (" stood themselves in the corner."@)[i]) as u32 != 0 by {
        assert(" stood themselves in the corner."@.len() == 32);
    }
    lemma_wf_str_no_nul(" stood themselves in the corner."@);
    reveal_strlit(" was punished by default.");
    assert forall|i: int| 0 <= i < " was punished by default."@.len() implies (#[trigger] (" was punished by default."@)[i]) as u32 != 0 by {
        assert(" was punished by default."@.len() == 25);
    }
    lemma_wf_str_no_nul(" was punished by default."@);
    reveal_strlit(" kicked ");
    assert forall|i: int| 0 <= i < " kicked "@.len() implies (#[trigger] (" kicked "@)[i]) as u32 != 0 by {
        assert(" kicked "@.len() == 8);
    }
    lemma_wf_str_no_nul(" kicked "@);
    reveal_strlit(" from the game.");
    assert forall|i: int| 0 <= i < " from the game."@.len() implies (#[trigger] (" from the game."@)[i]) as u32 != 0 by {
        assert(" from the game."@.len() == 15);
    }
    lemma_wf_str_no_nul(" from the game."@);
    reveal_strlit(" started a vote.");
    assert forall|i: int| 0 <= i < " started a vote."@.len() implies (#[trigger] (" started a vote."@)[i]) as u32 != 0 by {
        assert(" started a vote."@.len() == 16);
    }
    lemma_wf_str_no_nul(" started a vote."@);
    reveal_strlit(" voted.");
    assert forall|i: int| 0 <= i < " voted."@.len() implies (#[trigger] (" voted."@)[i]) as u32 != 0 by {
        assert(" voted."@.len() == 7);
    }
    lemma_wf_str_no_nul(" voted."@);
    reveal_strlit("/voting \"");
    assert forall|i: int| 0 <= i < "/voting \""@.len() implies (#[trigger] ("/voting \""@)[i]) as u32 != 0 by {
        assert("/voting \""@.len() == 9);
    }
    lemma_wf_str_no_nul("/voting \""@);
    reveal_strlit("\" ");
    assert forall|i: int| 0 <= i < "\" "@.len() implies (#[trigger] ("\" "@)[i]) as u32 != 0 by {
        assert("\" "@.len() == 2);
    }
    lemma_wf_str_no_nul("\" "@);
    reveal_strlit("\"");
    assert forall|i: int| 0 <= i < "\""@.len() implies (#[trigger] ("\""@)[i]) as u32 != 0 by {
        assert("\""@.len() == 1);
    }
    lemma_wf_str_no_nul("\""@);
    reveal_strlit("Voting result: ");
    assert forall|i: int| 0 <= i < "Voting result: "@.len() implies (#[trigger] ("Voting result: "@)[i]) as u32 != 0 by {
        assert("Voting result: "@.len() == 15);
    }
    lemma_wf_str_no_nul("Voting result: "@);
    reveal_strlit(" (");
    assert forall|i: int| 0 <= i < " ("@.len() implies (#[trigger] (" ("@)[i]) as u32 != 0 by {
        assert(" ("@.len() == 2);
    }
    lemma_wf_str_no_nul(" ("@);
    reveal_strlit(" votes)");
    assert forall|i: int| 0 <= i < " votes)"@.len() implies (#[trigger] (" votes)"@)[i]) as u32 != 0 by {
        assert(" votes)"@.len() == 7);
    }
    lemma_wf_str_no_nul(" votes)"@);
    reveal_strlit("/votingResult \"");
    assert forall|i: int| 0 <= i < "/votingResult \""@.len() implies (#[trigger] ("/votingResult \""@)[i]) as u32 != 0 by {
        assert("/votingResult \""@.len() == 15);
    }
    lemma_wf_str_no_nul("/votingResult \""@);
    reveal_strlit("\" \"");
    assert forall|i: int| 0 <= i < "\" \""@.len() implies (#[trigger] ("\" \""@)[i]) as u32 != 0 by {
        assert("\" \""@.len() == 3);
    }
    lemma_wf_str_no_nul("\" \""@);
}

/// Concatenation keeps strings NUL-free.
pub proof fn lemma_no_nul_concat(a: Seq<char>, b: Seq<char>)
    requires
        no_nul(a),
        no_nul(b),
    ensures
        no_nul(a + b),
{
    assert forall|i: int| 0 <= i < (a + b).len() implies (#[trigger] (a + b)[i]) as u32 != 0 by {
        if i < a.len() {
            assert((a + b)[i] == a[i]);
        } else {
            assert((a + b)[i] == b[i - a.len()]);
        }
    }
}

} // verus!

verus! {

// ---------- the game-information payload ----------

/// The roster text: one `id/name/class|` span for each connected seat, in
/// slot order.
pub open spec fn roster_chars(slots: Seq<SlotV>, i: int) -> Seq<char>
    decreases slots.len() - i,
{
    if i < 0 || i >= slots.len() {
        Seq::empty()
    } else {
        (if slots[i].connected {
            crate::bytes::dec_chars((i + 1) as nat) + "/"@ + slots[i].info.name + "/"@
                + slots[i].info.class + "|"@
        } else {
            Seq::empty()
        }) + roster_chars(slots, i + 1)
    }
}

/// The game-information record a handshake asks for: the unreliable
/// channel's port, the tick rate, the extended-roster flag, the roster
/// text and the last checkpoint, in the record's layout.
pub open spec fn game_info_payload(v: CoreV) -> Seq<u8> {
    crate::codec::game_info_bytes(v.udpPort, v.state.settings.tickRate,
        v.state.settings.extendPlayers, roster_chars(v.table, 0), v.state.save.checkpoint)
}

impl ServerCore {
    /// Builds the roster text.
    fn buildRoster(&self) -> (r: String)
        requires
            self.wf(),
        ensures
            r@ == roster_chars(self@.table, 0),
    {
        let mut out = String::new();
        let count = self.table.len();
        let mut i: usize = 0;
        proof {
            assert(out@ + roster_chars(self@.table, 0) =~= roster_chars(self@.table, 0));
        }
        while i < count
            invariant
                self.wf(),
                count == self@.table.len(),
                i <= count,
                roster_chars(self@.table, 0) == out@ + roster_chars(self@.table, i as int),
            decreases count - i,
        {
            let ghost gout = out@;
            if self.table.isConnected((i + 1) as u8) {
                let info = self.table.getInfo((i + 1) as u8);
                let ids = crate::bytes::dec_string((i + 1) as u64);
                out.append(ids.as_str());
                out.append("/");
                out.append(info.name.as_str());
                out.append("/");
                out.append(info.class.as_str());
                out.append("|");
                proof {
                    assert(out@ =~= gout + (crate::bytes::dec_chars((i + 1) as nat) + "/"@
                        + self@.table[i as int].info.name + "/"@
                        + self@.table[i as int].info.class + "|"@));
                }
            }
            i = i + 1;
            proof {
                assert(roster_chars(self@.table, 0) =~= out@ + roster_chars(self@.table,
                    i as int));
            }
        }
        out
    }

    /// Builds the game-information record.
    fn buildGameInfo(&self) -> (r: Vec<u8>)
        requires
            self.wf(),
        ensures
            r@ == game_info_payload(self@),
    {
        let mut out: Vec<u8> = Vec::new();
        let (lo, hi) = crate::bytes::u16_le_bytes(self.udpPort);
        out.push(lo);
        out.push(hi);
        out.push(self.state.settings.tickRate);
        out.push(if self.state.settings.extendPlayers { 1 } else { 0 });
        let roster = self.buildRoster();
        crate::codec::push_str_field(&mut out, roster.as_str());
        crate::codec::push_str_field(&mut out, self.state.save.checkpoint.as_str());
        proof {
            assert(out@ =~= game_info_payload(self@));
        }
        out
    }

    /// Applies one decoded request, except a chat command, which is handed
    /// back for the interpreter, as `dispatch_post` states.
    pub fn dispatchOne(&mut self, id: u8, msg: ServerMessage) -> (cmdline: Option<String>)
        requires
            old(self).wf(),
            wf_server(msg@),
        ensures
            final(self).wf(),
            final(self)@.requests == old(self)@.requests,
            dispatch_post(sans_requests(old(self)@), sans_requests(final(self)@), id, msg@),
            (match msg@ {
                ServerMsgV::Chat(text) => if text.len() > 0 && text[0] == '/' {
                    cmdline matches Some(rest) && rest@ == text.drop_first()
                } else {
                    cmdline is None
                },
                _ => cmdline is None,
            }),
    {
        match msg {
            ServerMessage::Register(name) => {
                if 1 <= id && (id as usize) <= self.table.len() {
                    let ghost tb = self@.table;
                    self.table.setName(id, name.clone());
                    proof {
                        assert(self@.table =~= tb.update(id as int - 1,
                            self@.table[id as int - 1]));
                        assert forall|j: int| 0 <= j < self@.table.len() implies wf_str(
                            (#[trigger] self@.table[j]).info.name)
                            && wf_str(self@.table[j].info.class) by {
                            if j != id as int - 1 {
                                assert(self@.table[j] == tb[j]);
                            }
                        }
                        assert(self@.requests == old(self)@.requests);
                        assert(self@.broadcast == old(self)@.broadcast);
                        assert(self@.replies == old(self)@.replies);
                        assert(self@.voting == old(self)@.voting);
                        assert(self@.state == old(self)@.state);
                        assert(self.wf());
                    }
                    self.pushBroadcast(ClientMessage::Login(id, name));
                }
                None
            }
            ServerMessage::Chat(text) => {
                let n = text.as_str().unicode_len();
                if n > 0 && text.as_str().get_char(0) == '/' {
                    let rest = text.as_str().substring_char(1, n).to_owned();
                    proof {
                        assert(rest@ =~= text@.drop_first());
                    }
                    return Some(rest);
                }
                if 1 <= id && (id as usize) <= self.table.len() {
                    let who = self.table.getInfo(id);
                    self.state.chatHistory.push((who.name, text.clone()));
                    proof {
                        assert(self@.state.chatHistory =~= old(self)@.state.chatHistory.push(
                            (old(self)@.table[id as int - 1].info.name, text@)));
                        assert(self@.requests == old(self)@.requests);
                        assert(self@.broadcast == old(self)@.broadcast);
                        assert(self@.replies == old(self)@.replies);
                        assert(self@.voting == old(self)@.voting);
                        assert(self@.table == old(self)@.table);
                        assert(self@.state.accounts == old(self)@.state.accounts);
                        assert(self.wf());
                    }
                    self.pushBroadcast(ClientMessage::Chat(text));
                }
                None
            }
            ServerMessage::Disconnected => {
                self.pushBroadcast(ClientMessage::Disconnected(id));
                None
            }
            ServerMessage::GetGameInfo(kind) => {
                let payload = self.buildGameInfo();
                if payload.len() <= 0xffff {
                    self.pushReply(id, ClientMessage::GameInfo(kind, payload));
                }
                None
            }
            ServerMessage::GetPlayerInfo(pid) => {
                if 1 <= pid && (pid as usize) <= self.table.len() {
                    let info = self.table.getInfo(pid);
                    self.pushReply(id, ClientMessage::PlayerInfo(pid, info));
                }
                None
            }
            ServerMessage::SetPlayerInfo(_, _) => None,
            ServerMessage::SetGameInfo(_, _) => None,
        }
    }
}

} // verus!

verus! {

// ---------- chat commands ----------

/// The chat line a kick produces: one of four taunts for a self-kick,
/// picked at random, or the plain notice for kicking another player.
pub open spec fn kick_text(name: Seq<char>, target: Seq<char>, pick: int) -> Seq<char> {
    if name == target {
        if pick == 0 {
            "Player "@ + target + " shot themselves in the knee."@
        } else if pick == 1 {
            "Player "@ + target + " walked the plank."@
        } else if pick == 2 {
            "Player "@ + target + " stood themselves in the corner."@
        } else {
            "Player "@ + target + " was punished by default."@
        }
    } else {
        "Player "@ + name + " kicked "@ + target + " from the game."@
    }
}

/// What a kick broadcasts: for every seat whose player bears the target
/// name, in slot order, its disconnect and then the chat notice.
pub open spec fn kick_msgs(slots: Seq<SlotV>, target: Seq<char>, text: Seq<char>, i: int)
    -> Seq<ClientMsgV>
    decreases slots.len() - i,
{
    if i < 0 || i >= slots.len() {
        Seq::empty()
    } else {
        (if slots[i].info.name == target {
            seq![ClientMsgV::Disconnected((i + 1) as u8), ClientMsgV::Chat(text)]
        } else {
            Seq::empty()
        }) + kick_msgs(slots, target, text, i + 1)
    }
}

/// What a kick records in the chat history: the notice once per match,
/// under no name.
pub open spec fn kick_hist(slots: Seq<SlotV>, target: Seq<char>, text: Seq<char>, i: int)
    -> Seq<(Seq<char>, Seq<char>)>
    decreases slots.len() - i,
{
    if i < 0 || i >= slots.len() {
        Seq::empty()
    } else {
        (if slots[i].info.name == target {
            seq![(Seq::<char>::empty(), text)]
        } else {
            Seq::empty()
        }) + kick_hist(slots, target, text, i + 1)
    }
}

/// The quoted options of the vote announcement, each followed by a space.
pub open spec fn quoted_opts(args: Seq<Seq<char>>, i: int) -> Seq<char>
    decreases args.len() - i,
{
    if i < 0 || i >= args.len() {
        Seq::empty()
    } else {
        "\""@ + args[i] + "\" "@ + quoted_opts(args, i + 1)
    }
}

/// The vote announcement the clients interpret.
pub open spec fn voting_cmd_text(topic: Seq<char>, args: Seq<Seq<char>>) -> Seq<char> {
    "/voting \""@ + topic + "\" "@ + quoted_opts(args, 3)
}

/// The chat line announcing a vote's result.
pub open spec fn result_text(opt: Seq<char>, votes: u32) -> Seq<char> {
    "Voting result: "@ + opt + " ("@ + crate::bytes::dec_chars(votes as nat) + " votes)"@
}

/// The result announcement the clients interpret.
pub open spec fn result_cmd_text(topic: Seq<char>, opt: Seq<char>) -> Seq<char> {
    "/votingResult \""@ + topic + "\" \""@ + opt + "\""@
}

/// Decimal digits never hold NUL.
proof fn lemma_dec_chars_no_nul(n: nat)
    ensures
        no_nul(crate::bytes::dec_chars(n)),
{
    crate::bytes::lemma_dec_bytes_ascii(n);
    let b = crate::bytes::dec_bytes(n);
    let c = crate::bytes::dec_chars(n);
    assert forall|i: int| 0 <= i < c.len() implies (#[trigger] c[i]) as u32 != 0 by {
        assert(c[i] == b[i] as char);
        assert(48 <= b[i] < 58);
    }
}

/// What one chat command does: the relation between the core's content
/// before and after interpreting `txt` from the player in seat `executor`
/// at time `now_ms`.
pub open spec fn cmd_post(
    pre: CoreV,
    post: CoreV,
    executor: u8,
    txt: Seq<char>,
    now_ms: u64,
    pick: int,
) -> bool {
    let args = split_spec(txt);
    let name = pre.table[executor as int - 1].info.name;
    &&& post.requests == pre.requests
    &&& post.replies == pre.replies
    &&& post.started == pre.started
    &&& post.udpPort == pre.udpPort
    &&& post.table == pre.table
    &&& post.state.accounts == pre.state.accounts
    &&& post.state.settings == pre.state.settings
    &&& post.state.save == pre.state.save
    &&& (if args.len() == 0 {
                    post == pre
                } else if args[0] == "kick"@ {
                    let target = if args.len() >= 2 {
                        args[1]
                    } else {
                        name
                    };
                    post == (CoreV {
                            broadcast: pre.broadcast + kick_msgs(pre.table,
                                target, kick_text(name, target, pick), 0),
                            state: StateV {
                                chatHistory: pre.state.chatHistory + kick_hist(
                                    pre.table, target, kick_text(name, target, pick), 0),
                                ..pre.state
                            },
                            ..pre
                        })
                } else if args[0] == "voting"@ {
                    if args.len() >= 4 && timeout_ms_spec(args[2]) is Some
                        && timeout_ms_spec(args[2])->0 <= u64::MAX as int {
                        &&& post.broadcast == pre.broadcast.push(
                            ClientMsgV::Chat("Player "@ + name + " started a vote."@)).push(
                            ClientMsgV::Chat(voting_cmd_text(args[1], args)))
                        &&& post.voting.topic == args[1]
                        &&& post.voting.options == args.subrange(3, args.len() as int)
                        &&& post.voting.tally.len() == args.len() - 3
                        &&& (forall|t: int| 0 <= t < args.len() - 3
                            ==> post.voting.tally[t] == 0)
                        &&& post.voting.timeout_ms as int == timeout_ms_spec(args[2])->0
                        &&& post.voting.started_at == now_ms
                        &&& post.state.chatHistory == pre.state.chatHistory
                    } else {
                        post == pre
                    }
                } else if args[0] == "vote"@ {
                    if args.len() >= 2 && args[1].len() > 0 && all_digits(args[1])
                        && digits_val(args[1]) <= u8::MAX as int {
                        &&& post.broadcast == pre.broadcast.push(
                            ClientMsgV::Chat("Player "@ + name + " voted."@))
                        &&& post.voting.options == pre.voting.options
                        &&& post.voting.topic == pre.voting.topic
                        &&& post.voting.timeout_ms == pre.voting.timeout_ms
                        &&& post.voting.started_at == pre.voting.started_at
                        &&& post.voting.tally.len() == pre.voting.tally.len()
                        &&& (forall|t: int| 0 <= t < pre.voting.tally.len()
                            && t != digits_val(args[1]) ==> post.voting.tally[t]
                            == pre.voting.tally[t])
                        &&& (digits_val(args[1]) < pre.voting.tally.len()
                            ==> post.voting.tally[digits_val(args[1])] == (
                            if pre.voting.tally[digits_val(args[1])] == u32::MAX {
                                u32::MAX
                            } else {
                                (pre.voting.tally[digits_val(args[1])] + 1) as u32
                            }))
                        &&& post.state.chatHistory == pre.state.chatHistory
                    } else {
                        post == pre
                    }
                } else {
                    post == pre
                }
    )
}

impl ServerCore {
    /// Interprets one chat command from the player in seat `executor`.
    /// `kick` disconnects every seat bearing the target name, announcing it
    /// with a taunt for a self-kick; `voting` starts a poll over the given
    /// topic, timeout in whole seconds, and options, discarding any poll
    /// under way; `vote` counts one vote for the chosen option. A command
    /// that is malformed, or any other word, does nothing.
    #[verifier::rlimit(100)]
    #[verifier::spinoff_prover]
    pub fn cmd(&mut self, executor: u8, txt: String, now_ms: u64)
        requires
            old(self).wf(),
            1 <= executor as int <= old(self)@.table.len(),
            no_nul(txt@),
        ensures
            final(self).wf(),
            final(self)@.requests == old(self)@.requests,
            exists|pick: int|
                #![trigger cmd_post(sans_requests(old(self)@), sans_requests(final(self)@),
                    executor, txt@, now_ms, pick)]
                0 <= pick < 4 && cmd_post(sans_requests(old(self)@),
                sans_requests(final(self)@), executor, txt@, now_ms, pick),
    {
        proof {
            lemma_wf_literals();
            lemma_split_no_nul(txt@, 0, Seq::empty(), false);
        }
        let args = split(txt);
        proof {
            assert forall|k: int| 0 <= k < args@.len() implies (#[trigger] args@[k])@
                == split_spec(txt@)[k] by {
                assert(args@.map_values(|t: String| t@)[k] == args@[k]@);
            }
            assert(args@.len() == split_spec(txt@).len());
        }
        if args.len() == 0 {
            proof {
                assert(cmd_post(sans_requests(old(self)@), sans_requests(self@), executor, txt@, now_ms, 0));
            }
            return;
        }
        let name = self.table.getInfo(executor).name;
        proof {
            lemma_wf_str_no_nul(name@);
        }
        if args[0] == "kick".to_owned() {
            let target: String = if args.len() >= 2 {
                args[1].clone()
            } else {
                name.clone()
            };
            proof {
                if args@.len() >= 2 {
                    assert(args@.map_values(|t: String| t@)[1] == args@[1]@);
                }
                lemma_wf_str_no_nul(target@);
            }
            let pick = pick_index(4);
            let text = self.kickText(&name, &target, pick);
            let ghost gtext = text@;
            proof {
                assert(gtext == kick_text(name@, target@, pick as int));
            }
            let count = self.table.len();
            let mut i: usize = 0;
            proof {
                assert(old(self)@.broadcast + kick_msgs(self@.table, target@, gtext, 0)
                    =~= self@.broadcast + kick_msgs(self@.table, target@, gtext, 0));
                assert(old(self)@.state.chatHistory + kick_hist(self@.table, target@, gtext, 0)
                    =~= self@.state.chatHistory + kick_hist(self@.table, target@, gtext, 0));
            }
            while i < count
                invariant
                    self.wf(),
                    wf_str(gtext),
                    text@ == gtext,
                    count == self@.table.len(),
                    i <= count,
                    self@.table == old(self)@.table,
                    self@.requests == old(self)@.requests,
                    self@.replies == old(self)@.replies,
                    self@.started == old(self)@.started,
                    self@.udpPort == old(self)@.udpPort,
                    self@.voting == old(self)@.voting,
                    self@.state.accounts == old(self)@.state.accounts,
                    self@.state.settings == old(self)@.state.settings,
                    self@.state.save == old(self)@.state.save,
                    old(self)@.broadcast + kick_msgs(old(self)@.table, target@, gtext, 0)
                        == self@.broadcast + kick_msgs(old(self)@.table, target@, gtext,
                        i as int),
                    old(self)@.state.chatHistory + kick_hist(old(self)@.table, target@, gtext,
                        0) == self@.state.chatHistory + kick_hist(old(self)@.table, target@,
                        gtext, i as int),
                decreases count - i,
            {
                let ghost gb = self@.broadcast;
                let ghost gh = self@.state.chatHistory;
                let who = self.table.getInfo((i + 1) as u8);
                if who.name == target {
                    self.pushBroadcast(ClientMessage::Disconnected((i + 1) as u8));
                    self.pushBroadcast(ClientMessage::Chat(text.clone()));
                    self.state.chatHistory.push((String::new(), text.clone()));
                    proof {
                        assert(self@.broadcast =~= gb + seq![ClientMsgV::Disconnected(
                            (i + 1) as u8), ClientMsgV::Chat(gtext)]);
                        assert(self@.state.chatHistory =~= gh + seq![(Seq::<char>::empty(),
                            gtext)]);
                        assert(self.wf());
                    }
                } else {
                    proof {
                        assert(self@.broadcast =~= gb + Seq::<ClientMsgV>::empty());
                        assert(self@.state.chatHistory
                            =~= gh + Seq::<(Seq<char>, Seq<char>)>::empty());
                    }
                }
                i = i + 1;
                proof {
                    assert(old(self)@.broadcast + kick_msgs(old(self)@.table, target@, gtext,
                        0) =~= self@.broadcast + kick_msgs(old(self)@.table, target@, gtext,
                        i as int));
                    assert(old(self)@.state.chatHistory + kick_hist(old(self)@.table, target@,
                        gtext, 0) =~= self@.state.chatHistory + kick_hist(old(self)@.table,
                        target@, gtext, i as int));
                }
            }
            proof {
                assert(kick_msgs(old(self)@.table, target@, gtext, count as int)
                    =~= Seq::<ClientMsgV>::empty());
                assert(kick_hist(old(self)@.table, target@, gtext, count as int)
                    =~= Seq::<(Seq<char>, Seq<char>)>::empty());
                assert(self@.broadcast =~= old(self)@.broadcast + kick_msgs(old(self)@.table,
                    target@, gtext, 0));
                assert(self@.state.chatHistory =~= old(self)@.state.chatHistory + kick_hist(
                    old(self)@.table, target@, gtext, 0));
                let sargs = split_spec(txt@);
                let sname = old(self)@.table[executor as int - 1].info.name;
                let starget = if sargs.len() >= 2 {
                    sargs[1]
                } else {
                    sname
                };
                assert(sargs[0] == args@[0]@);
                if sargs.len() >= 2 {
                    assert(sargs[1] == args@[1]@);
                }
                assert(target@ == starget);
                assert(gtext == kick_text(sname, starget, pick as int));
                assert(self@.state == (StateV {
                    chatHistory: old(self)@.state.chatHistory + kick_hist(old(self)@.table,
                        starget, kick_text(sname, starget, pick as int), 0),
                    ..old(self)@.state
                }));
                assert(self@ == (CoreV {
                    broadcast: old(self)@.broadcast + kick_msgs(old(self)@.table, starget,
                        kick_text(sname, starget, pick as int), 0),
                    state: StateV {
                        chatHistory: old(self)@.state.chatHistory + kick_hist(old(self)@.table,
                            starget, kick_text(sname, starget, pick as int), 0),
                        ..old(self)@.state
                    },
                    ..old(self)@
                }));
                assert(cmd_post(sans_requests(old(self)@), sans_requests(self@), executor, txt@, now_ms, pick as int));
            }
            return;
        } else if args[0] == "voting".to_owned() {
            if args.len() < 4 {
                proof {
                    assert(cmd_post(sans_requests(old(self)@), sans_requests(self@), executor, txt@, now_ms, 0));
                }
                return;
            }
            let topic = args[1].clone();
            let ms = match parse_timeout_ms(&args[2]) {
                Some(v) => v,
                None => {
                    proof {
                        assert(args@.map_values(|t: String| t@)[2] == args@[2]@);
                        assert(cmd_post(sans_requests(old(self)@), sans_requests(self@), executor, txt@, now_ms, 0));
                    }
                    return;
                }
            };
            proof {
                assert(args@.map_values(|t: String| t@)[1] == args@[1]@);
                assert(args@.map_values(|t: String| t@)[2] == args@[2]@);
                lemma_wf_str_no_nul(topic@);
            }
            let mut opt: Vec<String> = Vec::new();
            let mut i: usize = 3;
            while i < args.len()
                invariant
                    self == old(self),
                    3 <= i <= args@.len(),
                    opt@.map_values(|t: String| t@) == args@.map_values(|t: String| t@)
                        .subrange(3, i as int),
                decreases args@.len() - i,
            {
                let ghost gopt = opt@.map_values(|t: String| t@);
                opt.push(args[i].clone());
                i = i + 1;
                proof {
                    assert(opt@.map_values(|t: String| t@) =~= gopt.push(args@[
                        i - 1]@));
                    assert(args@.map_values(|t: String| t@).subrange(3, i as int)
                        =~= gopt.push(args@[i - 1]@));
                }
            }
            proof {
                lemma_wf_str_no_nul(" started a vote."@);
                assert forall|k: int| 0 <= k < args@.len() implies no_nul(
                    (#[trigger] args@[k])@) by {
                    assert(args@[k]@ == args@.map_values(|t: String| t@)[k]);
                }
            }
            let started = self.chatNotice(&name, " started a vote.");
            let announce = self.votingAnnounce(&topic, &args);
            self.pushBroadcast(ClientMessage::Chat(started));
            self.pushBroadcast(ClientMessage::Chat(announce));
            let ghost gopts = opt@.map_values(|t: String| t@);
            self.voting.start(topic, opt, ms, now_ms);
            proof {
                let sargs = split_spec(txt@);
                assert(gopts =~= sargs.subrange(3, sargs.len() as int));
                assert forall|t: int| 0 <= t < self@.voting.options.len() implies no_nul(
                    #[trigger] self@.voting.options[t]) by {
                    assert(self@.voting.options[t] == sargs[3 + t]);
                }
                assert(self.wf());
                assert(cmd_post(sans_requests(old(self)@), sans_requests(self@), executor, txt@, now_ms, 0));
            }
        } else if args[0] == "vote".to_owned() {
            if args.len() < 2 {
                proof {
                    assert(cmd_post(sans_requests(old(self)@), sans_requests(self@), executor, txt@, now_ms, 0));
                }
                return;
            }
            let x = match parse_u64(&args[1]) {
                Some(v) => if v <= 255 {
                    v as u8
                } else {
                    proof {
                        assert(cmd_post(sans_requests(old(self)@), sans_requests(self@), executor, txt@, now_ms, 0));
                    }
                    return;
                },
                None => {
                    proof {
                        assert(cmd_post(sans_requests(old(self)@), sans_requests(self@), executor, txt@, now_ms, 0));
                    }
                    return;
                },
            };
            proof {
                assert(args@.map_values(|t: String| t@)[1] == args@[1]@);
            }
            self.voting.vote(x);
            proof {
                assert forall|t: int| 0 <= t < self@.voting.options.len() implies no_nul(
                    #[trigger] self@.voting.options[t]) by {
                    assert(self@.voting.options[t] == old(self)@.voting.options[t]);
                }
                assert(self.wf());
            }
            proof {
                lemma_wf_str_no_nul(" voted."@);
            }
            let voted = self.chatNotice(&name, " voted.");
            self.pushBroadcast(ClientMessage::Chat(voted));
            proof {
                assert(cmd_post(sans_requests(old(self)@), sans_requests(self@), executor, txt@, now_ms, 0));
            }
        }
        proof {
            assert(cmd_post(sans_requests(old(self)@), sans_requests(self@), executor, txt@, now_ms, 0));
        }
    }

    /// Builds the kick notice.
    fn kickText(&self, name: &String, target: &String, pick: usize) -> (r: String)
        requires
            pick < 4,
            no_nul(name@),
            no_nul(target@),
        ensures
            r@ == kick_text(name@, target@, pick as int),
            wf_str(r@),
    {
        let mut t = String::new();
        t.append("Player ");
        if *name == *target {
            t.append(target.as_str());
            if pick == 0 {
                t.append(" shot themselves in the knee.");
            } else if pick == 1 {
                t.append(" walked the plank.");
            } else if pick == 2 {
                t.append(" stood themselves in the corner.");
            } else {
                t.append(" was punished by default.");
            }
        } else {
            t.append(name.as_str());
            t.append(" kicked ");
            t.append(target.as_str());
            t.append(" from the game.");
        }
        proof {
            lemma_wf_literals();
            assert(t@ =~= kick_text(name@, target@, pick as int));
            lemma_wf_str_no_nul(t@);
            assert forall|i: int| 0 <= i < t@.len() implies (#[trigger] t@[i]) as u32 != 0 by {
                lemma_kick_text_no_nul(name@, target@, pick as int);
            }
        }
        t
    }

    /// Builds a `Player <name><rest>` notice.
    fn chatNotice(&self, name: &String, rest: &str) -> (r: String)
        requires
            no_nul(name@),
            no_nul(rest@),
        ensures
            r@ == "Player "@ + name@ + rest@,
            wf_str(r@),
    {
        let mut t = String::new();
        t.append("Player ");
        t.append(name.as_str());
        t.append(rest);
        proof {
            lemma_wf_literals();
            lemma_wf_str_no_nul("Player "@);
            lemma_wf_str_no_nul(t@);
            assert forall|i: int| 0 <= i < t@.len() implies (#[trigger] t@[i]) as u32 != 0 by {
                assert(t@ == ("Player "@ + name@) + rest@);
                if i < "Player "@.len() + name@.len() {
                    assert(t@[i] == ("Player "@ + name@)[i]);
                    if i < "Player "@.len() {
                        assert(("Player "@ + name@)[i] == "Player "@[i]);
                    } else {
                        assert(("Player "@ + name@)[i] == name@[i - "Player "@.len()]);
                    }
                } else {
                    assert(t@[i] == rest@[i - ("Player "@.len() + name@.len())]);
                }
            }
        }
        t
    }

    /// Builds the vote announcement.
    fn votingAnnounce(&self, topic: &String, args: &Vec<String>) -> (r: String)
        requires
            no_nul(topic@),
            args@.len() >= 3,
            forall|k: int| 0 <= k < args@.len() ==> no_nul((#[trigger] args@[k])@),
        ensures
            r@ == voting_cmd_text(topic@, args@.map_values(|t: String| t@)),
            wf_str(r@),
    {
        let ghost gargs = args@.map_values(|t: String| t@);
        let mut t = String::new();
        t.append("/voting \"");
        t.append(topic.as_str());
        t.append("\" ");
        let ghost prefix = t@;
        let mut i: usize = 3;
        proof {
            assert(t@ + quoted_opts(gargs, 3) =~= prefix + quoted_opts(gargs, 3));
        }
        while i < args.len()
            invariant
                gargs == args@.map_values(|t2: String| t2@),
                forall|k: int| 0 <= k < args@.len() ==> no_nul((#[trigger] args@[k])@),
                3 <= i <= args@.len(),
                prefix + quoted_opts(gargs, 3) == t@ + quoted_opts(gargs, i as int),
            decreases args@.len() - i,
        {
            let ghost gt = t@;
            t.append("\"");
            t.append(args[i].as_str());
            t.append("\" ");
            i = i + 1;
            proof {
                assert(t@ =~= gt + ("\""@ + gargs[i - 1] + "\" "@));
                assert(prefix + quoted_opts(gargs, 3) =~= t@ + quoted_opts(gargs, i as int));
            }
        }
        proof {
            assert(quoted_opts(gargs, args@.len() as int) =~= Seq::<char>::empty());
            assert(t@ =~= prefix + quoted_opts(gargs, 3));
            assert(t@ =~= voting_cmd_text(topic@, gargs));
            lemma_wf_literals();
            lemma_wf_str_no_nul(t@);
            lemma_wf_str_no_nul("/voting \""@);
            lemma_wf_str_no_nul("\" "@);
            lemma_quoted_opts_no_nul(gargs, 3);
            assert forall|j: int| 0 <= j < t@.len() implies (#[trigger] t@[j]) as u32 != 0 by {
                assert(t@ == ("/voting \""@ + topic@ + "\" "@) + quoted_opts(gargs, 3));
                let head = "/voting \""@ + topic@ + "\" "@;
                if j < head.len() {
                    assert(t@[j] == head[j]);
                    if j < "/voting \""@.len() {
                        assert(head[j] == "/voting \""@[j]);
                    } else if j < "/voting \""@.len() + topic@.len() {
                        assert(head[j] == topic@[j - "/voting \""@.len()]);
                    } else {
                        assert(head[j] == "\" "@[j - "/voting \""@.len() - topic@.len()]);
                    }
                } else {
                    assert(t@[j] == quoted_opts(gargs, 3)[j - head.len()]);
                }
            }
        }
        t
    }
}

/// The kick notice never holds NUL.
proof fn lemma_kick_text_no_nul(name: Seq<char>, target: Seq<char>, pick: int)
    requires
        no_nul(name),
        no_nul(target),
    ensures
        no_nul(kick_text(name, target, pick)),
{
    lemma_wf_literals();
    lemma_wf_str_no_nul("Player "@);
    lemma_wf_str_no_nul(" shot themselves in the knee."@);
    lemma_wf_str_no_nul(" walked the plank."@);
    lemma_wf_str_no_nul(" stood themselves in the corner."@);
    lemma_wf_str_no_nul(" was punished by default."@);
    lemma_wf_str_no_nul(" kicked "@);
    lemma_wf_str_no_nul(" from the game."@);
    lemma_no_nul_concat("Player "@, target);
    lemma_no_nul_concat("Player "@ + target, " shot themselves in the knee."@);
    lemma_no_nul_concat("Player "@ + target, " walked the plank."@);
    lemma_no_nul_concat("Player "@ + target, " stood themselves in the corner."@);
    lemma_no_nul_concat("Player "@ + target, " was punished by default."@);
    lemma_no_nul_concat("Player "@, name);
    lemma_no_nul_concat("Player "@ + name, " kicked "@);
    lemma_no_nul_concat("Player "@ + name + " kicked "@, target);
    lemma_no_nul_concat("Player "@ + name + " kicked "@ + target, " from the game."@);
}

/// Quoted options never hold NUL.
proof fn lemma_quoted_opts_no_nul(args: Seq<Seq<char>>, i: int)
    requires
        forall|k: int| 0 <= k < args.len() ==> no_nul(#[trigger] args[k]),
    ensures
        no_nul(quoted_opts(args, i)),
    decreases args.len() - i,
{
    lemma_wf_literals();
    lemma_wf_str_no_nul("\""@);
    lemma_wf_str_no_nul("\" "@);
    if i < 0 || i >= args.len() {
    } else {
        lemma_quoted_opts_no_nul(args, i + 1);
        lemma_no_nul_concat("\""@, args[i]);
        lemma_no_nul_concat("\""@ + args[i], "\" "@);
        lemma_no_nul_concat("\""@ + args[i] + "\" "@, quoted_opts(args, i + 1));
    }
}

} // verus!

verus! {

impl ServerCore {
    /// Resolves the running poll once its timeout has elapsed: the winning
    /// option — strictly highest tally, first-registered among ties — is
    /// announced in chat and as a result command, and the poll is cleared.
    /// An inactive or still-running poll is left alone.
    pub fn pollVoting(&mut self, now_ms: u64)
        requires
            old(self).wf(),
        ensures
            final(self).wf(),
            final(self)@.requests == old(self)@.requests,
            final(self)@.replies == old(self)@.replies,
            final(self)@.table == old(self)@.table,
            final(self)@.state == old(self)@.state,
            final(self)@.started == old(self)@.started,
            final(self)@.udpPort == old(self)@.udpPort,
            ({
                let v = old(self)@.voting;
                let active = v.topic.len() != 0;
                let done = now_ms >= v.started_at && now_ms - v.started_at >= v.timeout_ms;
                if active && done {
                    exists|i: int|
                        {
                            &&& #[trigger] is_first_max(v.tally, i)
                            &&& final(self)@.broadcast == old(self)@.broadcast.push(
                                ClientMsgV::Chat(result_text(v.options[i], v.tally[i]))).push(
                                ClientMsgV::Chat(result_cmd_text(v.topic, v.options[i])))
                        } && final(self)@.voting == (VotingV {
                        topic: Seq::empty(),
                        options: Seq::empty(),
                        tally: Seq::empty(),
                        timeout_ms: 0,
                        started_at: 0,
                    })
                } else {
                    final(self)@ == old(self)@
                }
            }),
    {
        if !(self.voting.active() && self.voting.finished(now_ms)) {
            return;
        }
        let (opt, count) = self.voting.getResult();
        let ghost gi = choose|i: int|
            {
                &&& #[trigger] is_first_max(self@.voting.tally, i)
                &&& opt@ == self@.voting.options[i]
                &&& count == self@.voting.tally[i]
            };
        proof {
            assert(no_nul(opt@)) by {
                assert(self@.voting.options[gi] == old(self)@.voting.options[gi]);
            }
            lemma_wf_literals();
            lemma_wf_str_no_nul("Voting result: "@);
            lemma_wf_str_no_nul(" ("@);
            lemma_wf_str_no_nul(" votes)"@);
            lemma_wf_str_no_nul("/votingResult \""@);
            lemma_wf_str_no_nul("\" \""@);
            lemma_wf_str_no_nul("\""@);
            lemma_dec_chars_no_nul(count as nat);
        }
        let topic = self.voting.getTopic();
        let mut t1 = String::new();
        t1.append("Voting result: ");
        t1.append(opt.as_str());
        t1.append(" (");
        let cs = crate::bytes::dec_string(count as u64);
        t1.append(cs.as_str());
        t1.append(" votes)");
        proof {
            assert(t1@ =~= result_text(opt@, count));
            lemma_no_nul_concat("Voting result: "@, opt@);
            lemma_no_nul_concat("Voting result: "@ + opt@, " ("@);
            lemma_no_nul_concat("Voting result: "@ + opt@ + " ("@,
                crate::bytes::dec_chars(count as nat));
            lemma_no_nul_concat("Voting result: "@ + opt@ + " ("@
                + crate::bytes::dec_chars(count as nat), " votes)"@);
            lemma_wf_str_no_nul(t1@);
        }
        let mut t2 = String::new();
        t2.append("/votingResult \"");
        t2.append(topic.as_str());
        t2.append("\" \"");
        t2.append(opt.as_str());
        t2.append("\"");
        proof {
            assert(t2@ =~= result_cmd_text(old(self)@.voting.topic, opt@));
            lemma_no_nul_concat("/votingResult \""@, old(self)@.voting.topic);
            lemma_no_nul_concat("/votingResult \""@ + old(self)@.voting.topic, "\" \""@);
            lemma_no_nul_concat("/votingResult \""@ + old(self)@.voting.topic + "\" \""@,
                opt@);
            lemma_no_nul_concat("/votingResult \""@ + old(self)@.voting.topic + "\" \""@
                + opt@, "\""@);
            lemma_wf_str_no_nul(t2@);
        }
        self.pushBroadcast(ClientMessage::Chat(t1));
        self.pushBroadcast(ClientMessage::Chat(t2));
        self.voting = Voting::new();
        proof {
            assert(self.wf());
            assert(is_first_max(old(self)@.voting.tally, gi));
        }
    }

    /// Drains the request queue: each request is dispatched in arrival
    /// order and any chat command it carries is interpreted, so the final
    /// core is the fold of the per-request effects over the queue, as
    /// `drained` states.
    pub fn handleRequests(&mut self, now_ms: u64)
        requires
            old(self).wf(),
        ensures
            final(self).wf(),
            final(self)@.requests.len() == 0,
            drained(sans_requests(old(self)@), sans_requests(final(self)@),
                old(self)@.requests, now_ms),
    {
        while self.requests.len() > 0
            invariant
                self.wf(),
                forall|fin: CoreV| drained(sans_requests(self@), fin, self@.requests,
                    now_ms) ==> drained(sans_requests(old(self)@), fin,
                    old(self)@.requests, now_ms),
            decreases self@.requests.len(),
        {
            let ghost pre_all = self@;
            let ghost before = self@.requests;
            let (id, msg) = self.requests.remove(0);
            let ghost gmsg = msg@;
            proof {
                assert(self@.requests =~= before.drop_first());
                assert(wf_server(msg@)) by {
                    assert(before[0].1 == msg@);
                }
                assert forall|t: int| 0 <= t < self@.requests.len() implies wf_server(
                    (#[trigger] self@.requests[t]).1) by {
                    assert(self@.requests[t] == before[t + 1]);
                }
                assert(self@.broadcast == pre_all.broadcast);
                assert forall|t: int| 0 <= t < self@.broadcast.len() implies wf_client(
                    #[trigger] self@.broadcast[t]) by {
                    assert(self@.broadcast[t] == pre_all.broadcast[t]);
                }
                assert forall|t: int| 0 <= t < self@.replies.len() implies wf_client(
                    (#[trigger] self@.replies[t]).1) by {
                    assert(self@.replies[t] == pre_all.replies[t]);
                }
                assert forall|t: int| 0 <= t < self@.table.len() implies wf_str(
                    (#[trigger] self@.table[t]).info.name)
                    && wf_str(self@.table[t].info.class) by {
                    assert(self@.table[t] == pre_all.table[t]);
                }
                assert(self.wf());
                assert(sans_requests(self@) == sans_requests(pre_all));
            }
            let line = self.dispatchOne(id, msg);
            let ghost mid_all = self@;
            let ghost mut gpick: int = 0;
            match line {
                Some(text) => {
                    if 1 <= id && (id as usize) <= self.table.len() {
                        proof {
                            let t = gmsg->Chat_0;
                            lemma_wf_str_no_nul(t);
                            assert forall|i: int| 0 <= i < text@.len() implies
                                (#[trigger] text@[i]) as u32 != 0 by {
                                assert(text@[i] == t[i + 1]);
                            }
                        }
                        let ghost gtext = text@;
                        self.cmd(id, text, now_ms);
                        proof {
                            gpick = choose|p: int|
                                0 <= p < 4 && cmd_post(sans_requests(mid_all),
                                sans_requests(self@), id, gtext, now_ms, p);
                            assert(sans_requests(mid_all) == sans_requests(pre_all));
                            assert(step_post(sans_requests(pre_all), sans_requests(self@),
                                id, gmsg, now_ms, gpick));
                        }
                    } else {
                        proof {
                            assert(sans_requests(self@) == sans_requests(pre_all));
                            assert(step_post(sans_requests(pre_all), sans_requests(self@),
                                id, gmsg, now_ms, gpick));
                        }
                    }
                }
                None => {
                    proof {
                        assert(step_post(sans_requests(pre_all), sans_requests(self@),
                            id, gmsg, now_ms, gpick));
                    }
                }
            }
            proof {
                assert(0 <= gpick < 4);
                assert(before[0] == (id, gmsg));
                assert(before.drop_first() =~= self@.requests);
                assert forall|fin: CoreV| drained(sans_requests(self@), fin,
                    self@.requests, now_ms) implies drained(sans_requests(old(self)@), fin,
                    old(self)@.requests, now_ms) by {
                    assert(step_post(sans_requests(pre_all), sans_requests(self@),
                        before[0].0, before[0].1, now_ms, gpick));
                    assert(drained(sans_requests(self@), fin, before.drop_first(), now_ms));
                    assert(drained(sans_requests(pre_all), fin, before, now_ms));
                }
            }
        }
        proof {
            assert(drained(sans_requests(self@), sans_requests(self@), self@.requests,
                now_ms));
        }
    }

    /// Hands back the queued per-slot replies, encoded.
    pub fn flushReplies(&mut self) -> (r: Vec<(u8, Vec<u8>)>)
        requires
            old(self).wf(),
        ensures
            final(self).wf(),
            r@.len() == old(self)@.replies.len(),
            forall|k: int| 0 <= k < r@.len() ==> (#[trigger] r@[k]).0 == old(self)@.replies[
                k].0 && r@[k].1@ == enc_client(old(self)@.replies[k].1),
            final(self)@ == (CoreV { replies: Seq::empty(), ..old(self)@ }),
    {
        let mut frames: Vec<(u8, Vec<u8>)> = Vec::new();
        let ghost queue = self@.replies;
        let mut k: usize = 0;
        let count = self.replies.len();
        while k < count
            invariant
                self.wf(),
                self == old(self),
                k <= count == queue.len(),
                queue == self@.replies,
                frames@.len() == k,
                forall|i: int| 0 <= i < k ==> (#[trigger] frames@[i]).0 == queue[i].0
                    && frames@[i].1@ == enc_client(queue[i].1),
            decreases count - k,
        {
            let target = self.replies[k].0;
            let frame = self.encodeReplyAt(k);
            frames.push((target, frame));
            k = k + 1;
        }
        self.replies.clear();
        proof {
            assert(self@.replies =~= Seq::<(u8, ClientMsgV)>::empty());
        }
        frames
    }

    /// Encodes the queued reply at `k`.
    fn encodeReplyAt(&self, k: usize) -> (r: Vec<u8>)
        requires
            self.wf(),
            k < self@.replies.len(),
        ensures
            r@ == enc_client(self@.replies[k as int].1),
    {
        proof {
            assert(self@.replies[k as int] == (self.replies@[k as int].0,
                self.replies@[k as int].1@));
        }
        let m = &self.replies[k].1;
        let c = match m {
            ClientMessage::Login(id, name) => ClientMessage::Login(*id, name.clone()),
            ClientMessage::Disconnected(id) => ClientMessage::Disconnected(*id),
            ClientMessage::Chat(text) => ClientMessage::Chat(text.clone()),
            ClientMessage::GameInfo(kind, raw) => ClientMessage::GameInfo(*kind, raw.clone()),
            ClientMessage::PlayerInfo(id, info) => ClientMessage::PlayerInfo(*id, info.clone()),
            ClientMessage::SelectChar(id, class) => ClientMessage::SelectChar(*id,
                class.clone()),
            ClientMessage::GameReady(st) => ClientMessage::GameReady(*st),
        };
        proof {
            assert(c@ == self@.replies[k as int].1);
            assert(wf_client(c@));
        }
        c.toRaw()
    }

    /// Applies one unreliable datagram, as the slot table describes: a
    /// 9-byte record reaches the seat its status byte names, binding the
    /// peer on first contact; anything else changes nothing.
    pub fn applyDatagram(&mut self, src: u64, data: &Vec<u8>) -> (r: bool)
        requires
            old(self).wf(),
        ensures
            final(self).wf(),
            ({
                let id = data@[0] & 0x07;
                if data@.len() == 9 && 1 <= id as int <= old(self)@.table.len() {
                    &&& r
                    &&& final(self)@ == (CoreV {
                        table: old(self)@.table.update(id as int - 1, SlotV {
                            udp: if old(self)@.table[id as int - 1].udp is Some {
                                old(self)@.table[id as int - 1].udp
                            } else {
                                Some(src)
                            },
                            state: data@,
                            ..old(self)@.table[id as int - 1]
                        }),
                        ..old(self)@
                    })
                } else {
                    !r && final(self)@ == old(self)@
                }
            }),
    {
        let ghost tb = self@.table;
        let r = self.table.applyDatagram(src, data);
        proof {
            if r {
                let id = data@[0] & 0x07;
                assert(self@.table =~= tb.update(id as int - 1, self@.table[id as int - 1]));
            }
            assert forall|j: int| 0 <= j < self@.table.len() implies wf_str(
                (#[trigger] self@.table[j]).info.name) && wf_str(self@.table[j].info.class) by {
                if self@.table[j] != tb[j] {
                    assert(self@.table[j].info == tb[j].info);
                } else {
                    assert(wf_str(tb[j].info.name) && wf_str(tb[j].info.class));
                }
            }
            assert(self.wf());
        }
        r
    }

    /// This tick's replication packets, as the slot table describes them:
    /// each peer-bound seat gets every other bound seat's state, never its
    /// own.
    pub fn tickPackets(&self) -> (r: Vec<(u8, Vec<u8>)>)
        requires
            self.wf(),
        ensures
            r@.map_values(|p: (u8, Vec<u8>)| (p.0, p.1@)) == expected_packets(self@.table, 0),
    {
        self.table.tickPackets()
    }

    /// The unreliable peer key bound to seat `id`, if any.
    pub fn getUdp(&self, id: u8) -> (r: Option<u64>)
        requires
            1 <= id as int <= self@.table.len(),
        ensures
            r == self@.table[id as int - 1].udp,
    {
        self.table.getUdp(id)
    }

    /// The account seat `id` plays as.
    pub fn slotInfo(&self, id: u8) -> (r: Account)
        requires
            1 <= id as int <= self@.table.len(),
        ensures
            r@ == self@.table[id as int - 1].info,
    {
        self.table.getInfo(id)
    }

    /// Whether seat `id` has a reliable connection.
    pub fn isConnected(&self, id: u8) -> (r: bool)
        requires
            1 <= id as int <= self@.table.len(),
        ensures
            r == self@.table[id as int - 1].connected,
    {
        self.table.isConnected(id)
    }

    /// The game state, for the persistence writer.
    pub fn stateRef(&self) -> (r: &State)
        ensures
            r@ == self@.state,
    {
        &self.state
    }

    /// The send interval, in milliseconds.
    pub fn sendTimeMs(&self) -> (r: u64)
        ensures
            r == self@.state.settings.sendTime,
    {
        self.state.settings.sendTime
    }

    /// Marks the game started or back in the lobby.
    pub fn setStarted(&mut self, started: bool)
        requires
            old(self).wf(),
        ensures
            final(self).wf(),
            final(self)@ == (CoreV { started, ..old(self)@ }),
    {
        self.started = started;
        proof {
            assert(self.wf());
        }
    }

    /// Whether the game started.
    pub fn isStarted(&self) -> (r: bool)
        ensures
            r == self@.started,
    {
        self.started
    }

    /// Stores the account of one address, as the save pass does for every
    /// connected seat before the document is written.
    pub fn recordAccount(&mut self, ip: String, info: Account)
        requires
            old(self).wf(),
        ensures
            final(self).wf(),
            crate::kvlist::kv_lookup(final(self)@.state.accounts, ip@, default_account())
                == info@,
            forall|m: Seq<char>| m != ip@ ==> crate::kvlist::kv_lookup(
                final(self)@.state.accounts, m, default_account()) == crate::kvlist::kv_lookup(
                old(self)@.state.accounts, m, default_account()),
            final(self)@.state.chatHistory == old(self)@.state.chatHistory,
            final(self)@.state.settings == old(self)@.state.settings,
            final(self)@.state.save == old(self)@.state.save,
            final(self)@.table == old(self)@.table,
            final(self)@.voting == old(self)@.voting,
            final(self)@.requests == old(self)@.requests,
            final(self)@.broadcast == old(self)@.broadcast,
            final(self)@.replies == old(self)@.replies,
            final(self)@.started == old(self)@.started,
            final(self)@.udpPort == old(self)@.udpPort,
    {
        self.state.setAccount(ip, info);
        proof {
            assert(self@.requests == old(self)@.requests);
            assert(self@.broadcast == old(self)@.broadcast);
            assert(self@.replies == old(self)@.replies);
            assert(self@.table == old(self)@.table);
            assert(self@.voting == old(self)@.voting);
            assert(self.wf());
        }
    }

    /// Stamps the save point before the document is written.
    pub fn setSavePoint(&mut self, checkpoint: String, date: String)
        requires
            old(self).wf(),
        ensures
            final(self).wf(),
            final(self)@ == (CoreV {
                state: StateV {
                    save: crate::state::SaveV { checkpoint: checkpoint@, date: date@ },
                    ..old(self)@.state
                },
                ..old(self)@
            }),
    {
        self.state.save.checkpoint = checkpoint;
        self.state.save.date = date;
        proof {
            assert(self.wf());
        }
    }
}

} // verus!

verus! {

/// What one request does to the core, its inbound queue set aside: the
/// dispatcher's per-variant effect. A rename is granted and announced; a
/// chat line is broadcast and recorded, unless it carries a command, which
/// leaves the core untouched here (the interpreter's own effect is
/// `cmd_post`); a disconnect is announced; the information requests are
/// answered to the requester alone; the write requests have no handler in
/// this revision.
pub open spec fn dispatch_post(pre: CoreV, post: CoreV, id: u8, m: ServerMsgV) -> bool {
    match m {
        ServerMsgV::Register(name) => if 1 <= id as int <= pre.table.len() {
            post == (CoreV {
                table: pre.table.update(id as int - 1, SlotV {
                    info: AccountV { name, ..pre.table[id as int - 1].info },
                    ..pre.table[id as int - 1]
                }),
                broadcast: pre.broadcast.push(ClientMsgV::Login(id, name)),
                ..pre
            })
        } else {
            post == pre
        },
        ServerMsgV::Chat(text) => if text.len() > 0 && text[0] == '/' {
            post == pre
        } else if 1 <= id as int <= pre.table.len() {
            post == (CoreV {
                broadcast: pre.broadcast.push(ClientMsgV::Chat(text)),
                state: StateV {
                    chatHistory: pre.state.chatHistory.push((
                        pre.table[id as int - 1].info.name,
                        text,
                    )),
                    ..pre.state
                },
                ..pre
            })
        } else {
            post == pre
        },
        ServerMsgV::Disconnected => post == (CoreV {
            broadcast: pre.broadcast.push(ClientMsgV::Disconnected(id)),
            ..pre
        }),
        ServerMsgV::GetGameInfo(kind) => ({
            let payload = game_info_payload(pre);
            if payload.len() <= 0xffff {
                post == (CoreV {
                    replies: pre.replies.push((id, ClientMsgV::GameInfo(kind, payload))),
                    ..pre
                })
            } else {
                post == pre
            }
        }),
        ServerMsgV::GetPlayerInfo(pid) => if 1 <= pid as int <= pre.table.len() {
            post == (CoreV {
                replies: pre.replies.push((id, ClientMsgV::PlayerInfo(pid,
                    pre.table[pid as int - 1].info))),
                ..pre
            })
        } else {
            post == pre
        },
        ServerMsgV::SetPlayerInfo(_, _) => post == pre,
        ServerMsgV::SetGameInfo(_, _) => post == pre,
    }
}

/// The whole effect of one request, command interpretation included: the
/// dispatcher's effect, and, for a chat line opening with the command
/// prefix from a seated player, the interpreter's effect with the given
/// taunt pick. A command from a seat outside the roster is dropped.
pub open spec fn step_post(
    pre: CoreV,
    post: CoreV,
    id: u8,
    m: ServerMsgV,
    now_ms: u64,
    pick: int,
) -> bool {
    match m {
        ServerMsgV::Chat(text) => if text.len() > 0 && text[0] == '/' {
            if 1 <= id as int <= pre.table.len() {
                cmd_post(pre, post, id, text.drop_first(), now_ms, pick)
            } else {
                post == pre
            }
        } else {
            dispatch_post(pre, post, id, m)
        },
        _ => dispatch_post(pre, post, id, m),
    }
}

/// Draining a request queue: the final core is reached from the first by
/// the per-request steps, in arrival order, each through some intermediate
/// core and some taunt pick.
pub open spec fn drained(pre: CoreV, post: CoreV, reqs: Seq<(u8, ServerMsgV)>, now_ms: u64)
    -> bool
    decreases reqs.len(),
{
    if reqs.len() == 0 {
        post == pre
    } else {
        exists|mid: CoreV, pick: int|
            0 <= pick < 4 && #[trigger] step_post(pre, mid, reqs[0].0, reqs[0].1, now_ms,
                pick) && drained(mid, post, reqs.drop_first(), now_ms)
    }
}

} // verus!
