//! The unreliable channel's fixed 9-byte state record: one status byte
//! (slot id in the low three bits, movement and action flags above) and
//! four little-endian 16-bit fields for position and velocity.
use vstd::prelude::*;
use crate::bytes::{le16, u16_of_le};

verus! {

/// One player's latest state snapshot. Positions and velocities are the
/// on-wire unsigned 16-bit values: fractional and negative values are
/// dropped before they reach this type.
#[derive(Clone, Copy, Debug, PartialEq, Eq)]
pub struct PlayerState {
    pub pos: (u16, u16),
    pub vel: (u16, u16),
    pub moveX: i8,
    pub jump: bool,
    pub attack: bool,
    pub protect: bool,
}

impl PlayerState {
    /// A record is well formed when its horizontal move direction is one
    /// of left, right or still.
    pub open spec fn wf(self) -> bool {
        self.moveX == -1 || self.moveX == 0 || self.moveX == 1
    }

    pub fn default() -> (r: PlayerState)
        ensures
            r == (PlayerState { pos: (0, 0), vel: (0, 0), moveX: 0 as i8, jump: false,
                attack: false, protect: false }),
    {
        PlayerState { pos: (0, 0), vel: (0, 0), moveX: 0, jump: false, attack: false,
            protect: false }
    }
}

/// The bit that the horizontal move direction contributes to the status byte.
pub open spec fn move_bits(moveX: i8) -> u8 {
    if moveX == -1 {
        0x20
    } else if moveX == 1 {
        0x10
    } else {
        0
    }
}

/// The status byte: slot id in the low three bits, then the flags.
pub open spec fn status_byte(id: u8, s: PlayerState) -> u8 {
    id | move_bits(s.moveX) | (if s.jump { 0x08 } else { 0 })
        | (if s.attack { 0x80 } else { 0 }) | (if s.protect { 0x40 } else { 0 })
}

/// The 9-byte record of slot `id` holding state `s`.
pub open spec fn state_bytes(id: u8, s: PlayerState) -> Seq<u8> {
    seq![status_byte(id, s)] + le16(s.pos.0) + le16(s.pos.1) + le16(s.vel.0) + le16(s.vel.1)
}

/// The slot id named by a status byte.
pub open spec fn decoded_id(status: u8) -> u8 {
    status & 0x07
}

/// The state read back from one 9-byte record.
pub open spec fn decoded_state(b: Seq<u8>) -> PlayerState {
    PlayerState {
        pos: (u16_of_le(b[1], b[2]), u16_of_le(b[3], b[4])),
        vel: (u16_of_le(b[5], b[6]), u16_of_le(b[7], b[8])),
        moveX: if b[0] & 0x20 != 0 {
            (-1) as i8
        } else if b[0] & 0x10 != 0 {
            1 as i8
        } else {
            0 as i8
        },
        jump: b[0] & 0x08 != 0,
        attack: b[0] & 0x80 != 0,
        protect: b[0] & 0x40 != 0,
    }
}

/// Decoding inverts encoding: a well-formed record written for a slot id
/// that fits the three-bit field reads back exactly.
pub proof fn lemma_state_roundtrip(id: u8, s: PlayerState)
    requires
        id < 8,
        s.wf(),
    ensures
        decoded_id(state_bytes(id, s)[0]) == id,
        decoded_state(state_bytes(id, s)) == s,
{
    let m = move_bits(s.moveX);
    let j: u8 = if s.jump { 0x08 } else { 0 };
    let a: u8 = if s.attack { 0x80 } else { 0 };
    let p: u8 = if s.protect { 0x40 } else { 0 };
    let st = status_byte(id, s);
    assert(st == id | m | j | a | p);
    assert({
        &&& ((id | m | j | a | p) & 0x07) == id
        &&& (((id | m | j | a | p) & 0x20 != 0) <==> m == 0x20)
        &&& (((id | m | j | a | p) & 0x10 != 0) <==> m == 0x10)
        &&& (((id | m | j | a | p) & 0x08 != 0) <==> j == 0x08)
        &&& (((id | m | j | a | p) & 0x80 != 0) <==> a == 0x80)
        &&& (((id | m | j | a | p) & 0x40 != 0) <==> p == 0x40)
    }) by (bit_vector)
        requires
            id < 8,
            m == 0 || m == 0x10 || m == 0x20,
            j == 0 || j == 0x08,
            a == 0 || a == 0x80,
            p == 0 || p == 0x40,
    ;
    crate::bytes::lemma_le16_roundtrip(s.pos.0);
    crate::bytes::lemma_le16_roundtrip(s.pos.1);
    crate::bytes::lemma_le16_roundtrip(s.vel.0);
    crate::bytes::lemma_le16_roundtrip(s.vel.1);
    assert(decoded_state(state_bytes(id, s)) == s);
}

impl PlayerState {
    /// Writes the 9-byte record of this state for slot `id`. A move
    /// direction other than left or right encodes as standing still.
    pub fn raw(&self, id: u8) -> (r: Vec<u8>)
        requires
            id < 8,
        ensures
            r@ == state_bytes(id, *self),
    {
        let m: u8 = if self.moveX == -1 {
            0x20
        } else if self.moveX == 1 {
            0x10
        } else {
            0
        };
        let j: u8 = if self.jump { 0x08 } else { 0 };
        let a: u8 = if self.attack { 0x80 } else { 0 };
        let p: u8 = if self.protect { 0x40 } else { 0 };
        let st: u8 = id | m | j | a | p;
        proof {
            assert(m == move_bits(self.moveX));
            assert(st == status_byte(id, *self));
        }
        let mut out: Vec<u8> = Vec::new();
        out.push(st);
        let (l0, h0) = crate::bytes::u16_le_bytes(self.pos.0);
        out.push(l0);
        out.push(h0);
        let (l1, h1) = crate::bytes::u16_le_bytes(self.pos.1);
        out.push(l1);
        out.push(h1);
        let (l2, h2) = crate::bytes::u16_le_bytes(self.vel.0);
        out.push(l2);
        out.push(h2);
        let (l3, h3) = crate::bytes::u16_le_bytes(self.vel.1);
        out.push(l3);
        out.push(h3);
        proof {
            assert(out@ =~= state_bytes(id, *self));
        }
        out
    }

    /// Reads the record starting at `off` and hands back its slot id and state.
    pub fn parse(data: &Vec<u8>, off: usize) -> (r: (u8, PlayerState))
        requires
            off + 9 <= data@.len(),
        ensures
            r.0 == decoded_id(data@.subrange(off as int, off + 9)[0]),
            r.1 == decoded_state(data@.subrange(off as int, off + 9)),
    {
        let ghost rec = data@.subrange(off as int, off + 9);
        let n = data.len();
        assert(off + 9 <= n);
        let status = data[off];
        let id = status & 0x07;
        let moveX: i8 = if status & 0x20 != 0 {
            -1
        } else if status & 0x10 != 0 {
            1
        } else {
            0
        };
        let px = crate::bytes::u16_from_le(data[off + 1], data[off + 2]);
        let py = crate::bytes::u16_from_le(data[off + 3], data[off + 4]);
        let vx = crate::bytes::u16_from_le(data[off + 5], data[off + 6]);
        let vy = crate::bytes::u16_from_le(data[off + 7], data[off + 8]);
        let s = PlayerState {
            pos: (px, py),
            vel: (vx, vy),
            moveX,
            jump: status & 0x08 != 0,
            attack: status & 0x80 != 0,
            protect: status & 0x40 != 0,
        };
        proof {
            assert(rec[0] == data@[off as int]);
            assert(rec[1] == data@[off + 1]);
            assert(rec[2] == data@[off + 2]);
            assert(rec[3] == data@[off + 3]);
            assert(rec[4] == data@[off + 4]);
            assert(rec[5] == data@[off + 5]);
            assert(rec[6] == data@[off + 6]);
            assert(rec[7] == data@[off + 7]);
            assert(rec[8] == data@[off + 8]);
        }
        (id, s)
    }
}

/// One decoded record of a batch: the slot id named by the record's status
/// byte, and the state it carries.
pub open spec fn batch_entry(data: Seq<u8>, k: int) -> (u8, PlayerState) {
    let rec = data.subrange(9 * k, 9 * k + 9);
    (decoded_id(rec[0]), decoded_state(rec))
}

/// Decodes a concatenation of 9-byte records. A buffer whose length is not
/// a multiple of nine is rejected whole; nothing is decoded from it.
pub fn decode_batch(data: &Vec<u8>) -> (r: Option<Vec<(u8, PlayerState)>>)
    ensures
        r is Some <==> data@.len() % 9 == 0,
        r is Some ==> r->0@.len() == data@.len() / 9,
        r is Some ==> forall|k: int|
            0 <= k < r->0@.len() ==> r->0@[k] == batch_entry(data@, k),
{
    if data.len() % 9 != 0 {
        return None;
    }
    let count = data.len() / 9;
    let mut out: Vec<(u8, PlayerState)> = Vec::new();
    let mut k: usize = 0;
    while k < count
        invariant
            data@.len() % 9 == 0,
            count == data@.len() / 9,
            0 <= k <= count,
            out@.len() == k,
            forall|j: int| 0 <= j < k ==> out@[j] == batch_entry(data@, j),
        decreases count - k,
    {
        let n = data.len();
        assert(9 * k + 9 <= n) by {
            assert(k + 1 <= count);
            assert(9 * (k + 1) <= 9 * count);
            assert(9 * count <= n) by {
                assert(count == n / 9);
                assert(n % 9 == 0);
            }
        }
        let (id, s) = PlayerState::parse(data, 9 * k);
        out.push((id, s));
        k = k + 1;
    }
    Some(out)
}

} // verus!
