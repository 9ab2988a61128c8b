//! The persisted documents, written as JSON bytes: the save document with
//! its accounts, save point and settings, and the configuration document
//! with its permissions and settings. Only the writer lives here; reading
//! the documents back is the caller's parser's job, field by field.
use vstd::prelude::*;
use vstd::utf8::encode_utf8;
use vstd::string::StrSliceExecFns;
use crate::bytes::{dec_bytes, dec_digits_vec};
use crate::state::{State, StateV, AccountV, Account};
use crate::config::{Config, ConfigV, Permission};

verus! {

/// The lowercase hex digit of a value below sixteen.
pub open spec fn hex_digit(d: int) -> u8 {
    if d < 10 {
        (48 + d) as u8
    } else {
        (87 + d) as u8
    }
}

/// One byte of a string, escaped for a JSON text: quote and backslash get
/// a backslash, control bytes become a `\u00..` escape, everything else
/// stands as it is. Multi-byte characters pass through untouched.
pub open spec fn esc_byte(b: u8) -> Seq<u8> {
    if b == 0x22 {
        seq![0x5cu8, 0x22u8]
    } else if b == 0x5c {
        seq![0x5cu8, 0x5cu8]
    } else if b < 0x20 {
        seq![0x5cu8, 0x75u8, 0x30u8, 0x30u8, hex_digit((b >> 4) as int),
            hex_digit((b & 0x0f) as int)]
    } else {
        seq![b]
    }
}

/// A string's bytes, escaped.
pub open spec fn esc_bytes(b: Seq<u8>) -> Seq<u8>
    decreases b.len(),
{
    if b.len() == 0 {
        Seq::empty()
    } else {
        esc_bytes(b.drop_last()) + esc_byte(b.last())
    }
}

/// A JSON text: the escaped bytes between quotes.
pub open spec fn json_str(s: Seq<char>) -> Seq<u8> {
    seq![0x22u8] + esc_bytes(encode_utf8(s)) + seq![0x22u8]
}

/// A JSON boolean.
pub open spec fn json_bool(b: bool) -> Seq<u8> {
    if b {
        encode_utf8("true"@)
    } else {
        encode_utf8("false"@)
    }
}

/// One persisted account: name, class, color and health.
pub open spec fn account_json(a: AccountV) -> Seq<u8> {
    encode_utf8("{\"name\":"@) + json_str(a.name) + encode_utf8(",\"class\":"@)
        + json_str(a.class) + encode_utf8(",\"color\":{\"r\":"@) + dec_bytes(a.color.0 as nat)
        + encode_utf8(",\"g\":"@) + dec_bytes(a.color.1 as nat) + encode_utf8(",\"b\":"@)
        + dec_bytes(a.color.2 as nat) + encode_utf8("},\"hp\":"@) + dec_bytes(a.hp as nat)
        + encode_utf8("}"@)
}

/// The accounts object's members from index `i` on, comma-separated; a
/// member before `i` exists exactly when `i` is positive.
pub open spec fn players_json(accounts: Seq<(Seq<char>, AccountV)>, i: int) -> Seq<u8>
    decreases accounts.len() - i,
{
    if i < 0 || i >= accounts.len() {
        Seq::empty()
    } else {
        (if i > 0 {
            encode_utf8(","@)
        } else {
            Seq::empty()
        }) + json_str(accounts[i].0) + encode_utf8(":"@) + account_json(accounts[i].1)
            + players_json(accounts, i + 1)
    }
}

/// The whole save document.
pub open spec fn save_json(v: StateV) -> Seq<u8> {
    encode_utf8("{\"players\":{"@) + players_json(v.accounts, 0)
        + encode_utf8("},\"save\":{\"date\":"@) + json_str(v.save.date)
        + encode_utf8(",\"checkpoint\":"@) + json_str(v.save.checkpoint)
        + encode_utf8("},\"settings\":{\"extendPlayers\":"@) + json_bool(
        v.settings.extendPlayers) + encode_utf8(",\"tickRate\":"@) + dec_bytes(
        v.settings.tickRate as nat) + encode_utf8(",\"firstCP\":"@) + json_str(
        v.settings.firstCP) + encode_utf8(",\"maxItemCellSize\":"@) + dec_bytes(
        v.settings.maxItemCellSize as nat) + encode_utf8("}}"@)
}

/// The permissions object's members from index `i` on.
pub open spec fn perms_json(perms: Seq<(Seq<char>, Permission)>, i: int) -> Seq<u8>
    decreases perms.len() - i,
{
    if i < 0 || i >= perms.len() {
        Seq::empty()
    } else {
        (if i > 0 {
            encode_utf8(","@)
        } else {
            Seq::empty()
        }) + json_str(perms[i].0) + encode_utf8(":"@) + json_str(
            if perms[i].1 is Developer {
                "dev"@
            } else {
                "player"@
            }) + perms_json(perms, i + 1)
    }
}

/// The whole configuration document.
pub open spec fn config_json(v: ConfigV) -> Seq<u8> {
    encode_utf8("{\"permissions\":{"@) + perms_json(v.permissions, 0)
        + encode_utf8("},\"settings\":{\"extendedPlayers\":"@) + json_bool(v.extendedPlayers)
        + encode_utf8(",\"tickRate\":"@) + dec_bytes(v.tickRate as nat)
        + encode_utf8(",\"firstCP\":"@) + json_str(v.firstCheckpoint) + encode_utf8("}}"@)
}

/// Appends a string's bytes, escaped and quoted.
fn push_json_str(out: &mut Vec<u8>, s: &str)
    ensures
        final(out)@ == old(out)@ + json_str(s@),
{
    out.push(0x22);
    let bs = s.as_bytes_vec();
    let ghost gb = bs@;
    let mut k: usize = 0;
    let n = bs.len();
    proof {
        assert(gb.take(0) =~= Seq::<u8>::empty());
        assert(esc_bytes(gb.take(0)) =~= Seq::<u8>::empty());
        assert(out@ =~= old(out)@ + seq![0x22u8] + esc_bytes(gb.take(0)));
    }
    while k < n
        invariant
            n == gb.len(),
            gb == encode_utf8(s@),
            bs@ == gb,
            k <= n,
            out@ == old(out)@ + seq![0x22u8] + esc_bytes(gb.take(k as int)),
        decreases n - k,
    {
        let ghost before = out@;
        let b = bs[k];
        if b == 0x22 {
            out.push(0x5c);
            out.push(0x22);
        } else if b == 0x5c {
            out.push(0x5c);
            out.push(0x5c);
        } else if b < 0x20 {
            proof {
                assert(b >> 4 < 16 && (b & 0x0f) < 16) by (bit_vector);
            }
            out.push(0x5c);
            out.push(0x75);
            out.push(0x30);
            out.push(0x30);
            out.push(if (b >> 4) < 10 {
                48 + (b >> 4)
            } else {
                87 + (b >> 4)
            });
            out.push(if (b & 0x0f) < 10 {
                48 + (b & 0x0f)
            } else {
                87 + (b & 0x0f)
            });
        } else {
            out.push(b);
        }
        k = k + 1;
        proof {
            assert(b >> 4 < 16 && b & 0x0f < 16) by (bit_vector);
            assert(out@ =~= before + esc_byte(gb[k - 1]));
            assert(gb.take(k as int).drop_last() =~= gb.take(k - 1));
            assert(esc_bytes(gb.take(k as int)) =~= esc_bytes(gb.take(k - 1))
                + esc_byte(gb[k - 1]));
            assert(out@ =~= old(out)@ + seq![0x22u8] + esc_bytes(gb.take(k as int)));
        }
    }
    out.push(0x22);
    proof {
        assert(gb.take(n as int) =~= gb);
        assert(out@ =~= old(out)@ + json_str(s@));
    }
}

/// Appends an ASCII literal's bytes.
fn push_lit(out: &mut Vec<u8>, s: &str)
    ensures
        final(out)@ == old(out)@ + encode_utf8(s@),
{
    let mut bs = s.as_bytes_vec();
    out.append(&mut bs);
}

/// Appends a number in decimal.
fn push_dec(out: &mut Vec<u8>, n: u64)
    ensures
        final(out)@ == old(out)@ + dec_bytes(n as nat),
{
    let mut ds = dec_digits_vec(n);
    out.append(&mut ds);
}

/// Appends one account object.
fn push_account(out: &mut Vec<u8>, a: &Account)
    ensures
        final(out)@ == old(out)@ + account_json(a@),
{
    push_lit(out, "{\"name\":");
    push_json_str(out, a.name.as_str());
    push_lit(out, ",\"class\":");
    push_json_str(out, a.class.as_str());
    push_lit(out, ",\"color\":{\"r\":");
    push_dec(out, a.color.0 as u64);
    push_lit(out, ",\"g\":");
    push_dec(out, a.color.1 as u64);
    push_lit(out, ",\"b\":");
    push_dec(out, a.color.2 as u64);
    push_lit(out, "},\"hp\":");
    push_dec(out, a.hp as u64);
    push_lit(out, "}");
    proof {
        assert(out@ =~= old(out)@ + account_json(a@));
    }
}

/// Writes the save document for the given state.
#[verifier::rlimit(60)]
pub fn emit_save(state: &State) -> (r: Vec<u8>)
    ensures
        r@ == save_json(state@),
{
    let mut out: Vec<u8> = Vec::new();
    push_lit(&mut out, "{\"players\":{");
    let accounts = state.accountsList();
    let ghost gacc = state@.accounts;
    let mut k: usize = 0;
    let n = accounts.len();
    proof {
        assert(players_json(gacc, 0) =~= Seq::<u8>::empty() + players_json(gacc, 0));
        assert(out@ =~= encode_utf8("{\"players\":{"@));
    }
    while k < n
        invariant
            n == gacc.len(),
            accounts@.map_values(|e: (String, Account)| (e.0@, e.1@)) == gacc,
            accounts@.len() == n,
            k <= n,
            out@ + players_json(gacc, k as int) == encode_utf8("{\"players\":{"@)
                + players_json(gacc, 0),
        decreases n - k,
    {
        let ghost before = out@;
        if k > 0 {
            push_lit(&mut out, ",");
        }
        push_json_str(&mut out, accounts[k].0.as_str());
        push_lit(&mut out, ":");
        push_account(&mut out, &accounts[k].1);
        k = k + 1;
        proof {
            assert(gacc[k - 1] == (accounts@[k - 1].0@, accounts@[k - 1].1@));
            assert(out@ =~= before + ((if k - 1 > 0 {
                encode_utf8(","@)
            } else {
                Seq::<u8>::empty()
            }) + json_str(gacc[k - 1].0) + encode_utf8(":"@) + account_json(gacc[k - 1].1)));
            assert(out@ + players_json(gacc, k as int) =~= encode_utf8("{\"players\":{"@)
                + players_json(gacc, 0));
        }
    }
    proof {
        assert(players_json(gacc, n as int) =~= Seq::<u8>::empty());
        assert(out@ =~= encode_utf8("{\"players\":{"@) + players_json(gacc, 0));
    }
    push_lit(&mut out, "},\"save\":{\"date\":");
    push_json_str(&mut out, state.save.date.as_str());
    push_lit(&mut out, ",\"checkpoint\":");
    push_json_str(&mut out, state.save.checkpoint.as_str());
    push_lit(&mut out, "},\"settings\":{\"extendPlayers\":");
    push_lit(&mut out, if state.settings.extendPlayers { "true" } else { "false" });
    push_lit(&mut out, ",\"tickRate\":");
    push_dec(&mut out, state.settings.tickRate as u64);
    push_lit(&mut out, ",\"firstCP\":");
    push_json_str(&mut out, state.settings.firstCP.as_str());
    push_lit(&mut out, ",\"maxItemCellSize\":");
    push_dec(&mut out, state.settings.maxItemCellSize as u64);
    push_lit(&mut out, "}}");
    proof {
        assert(out@ =~= save_json(state@));
    }
    out
}

/// Writes the configuration document.
pub fn emit_config(config: &Config) -> (r: Vec<u8>)
    ensures
        r@ == config_json(config@),
{
    let mut out: Vec<u8> = Vec::new();
    push_lit(&mut out, "{\"permissions\":{");
    let ghost gp = config@.permissions;
    let names = config.permissionNames();
    let n = names.len();
    let mut k: usize = 0;
    proof {
        assert(perms_json(gp, 0) =~= Seq::<u8>::empty() + perms_json(gp, 0));
        assert(out@ =~= encode_utf8("{\"permissions\":{"@));
    }
    while k < n
        invariant
            n == gp.len(),
            names@.map_values(|e: (String, Permission)| (e.0@, e.1)) == gp,
            names@.len() == n,
            k <= n,
            out@ + perms_json(gp, k as int) == encode_utf8("{\"permissions\":{"@)
                + perms_json(gp, 0),
        decreases n - k,
    {
        let ghost before = out@;
        if k > 0 {
            push_lit(&mut out, ",");
        }
        push_json_str(&mut out, names[k].0.as_str());
        push_lit(&mut out, ":");
        let lvl = names[k].1.toString();
        push_json_str(&mut out, lvl.as_str());
        k = k + 1;
        proof {
            assert(gp[k - 1] == (names@[k - 1].0@, names@[k - 1].1));
            assert(out@ =~= before + ((if k - 1 > 0 {
                encode_utf8(","@)
            } else {
                Seq::<u8>::empty()
            }) + json_str(gp[k - 1].0) + encode_utf8(":"@) + json_str(
                if gp[k - 1].1 is Developer {
                    "dev"@
                } else {
                    "player"@
                })));
            assert(out@ + perms_json(gp, k as int) =~= encode_utf8("{\"permissions\":{"@)
                + perms_json(gp, 0));
        }
    }
    proof {
        assert(perms_json(gp, n as int) =~= Seq::<u8>::empty());
        assert(out@ =~= encode_utf8("{\"permissions\":{"@) + perms_json(gp, 0));
    }
    push_lit(&mut out, "},\"settings\":{\"extendedPlayers\":");
    push_lit(&mut out, if config.extendedPlayers { "true" } else { "false" });
    push_lit(&mut out, ",\"tickRate\":");
    push_dec(&mut out, config.tickRate as u64);
    push_lit(&mut out, ",\"firstCP\":");
    push_json_str(&mut out, config.firstCheckpoint.as_str());
    push_lit(&mut out, "}}");
    proof {
        assert(out@ =~= config_json(config@));
    }
    out
}

} // verus!
