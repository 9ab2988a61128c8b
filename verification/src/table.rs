//! The player slot table: a fixed-capacity registry of numbered seats.
//! Slot ids run from 1 to the capacity; a slot holds whether its reliable
//! connection is up, the opaque key of its unreliable peer once one is
//! bound, the account it plays as, and its latest 9-byte state record.
//! The table also builds each tick's replication packets: every bound slot
//! is sent the states of all other bound slots, never its own.
use vstd::prelude::*;
use crate::state::{Account, AccountV, default_account};

verus! {

/// One seat. The reliable handle itself lives with the caller; the table
/// keeps only whether one is bound. The unreliable peer is an opaque key
/// the caller assigns (it stands for a socket address).
pub struct Slot {
    pub connected: bool,
    pub udp: Option<u64>,
    pub info: Account,
    pub state: Vec<u8>,
}

/// The mathematical content of a seat.
pub ghost struct SlotV {
    pub connected: bool,
    pub udp: Option<u64>,
    pub info: AccountV,
    pub state: Seq<u8>,
}

impl View for Slot {
    type V = SlotV;

    open spec fn view(&self) -> SlotV {
        SlotV { connected: self.connected, udp: self.udp, info: self.info@, state: self.state@ }
    }
}

/// An empty seat: no connection, no peer, the default account, a zeroed
/// state record.
pub open spec fn empty_slot() -> SlotV {
    SlotV {
        connected: false,
        udp: None,
        info: default_account(),
        state: seq![0u8, 0u8, 0u8, 0u8, 0u8, 0u8, 0u8, 0u8, 0u8],
    }
}

impl Slot {
    pub fn default() -> (r: Slot)
        ensures
            r@ == empty_slot(),
    {
        let mut state: Vec<u8> = Vec::new();
        let mut k: usize = 0;
        while k < 9
            invariant
                state@.len() == k,
                k <= 9,
                forall|i: int| 0 <= i < k ==> state@[i] == 0,
        decreases 9 - k,
        {
            state.push(0);
            k = k + 1;
        }
        let r = Slot { connected: false, udp: None, info: Account::default(), state };
        proof {
            assert(r@.state =~= empty_slot().state);
        }
        r
    }
}

/// How many slots hold the given class.
pub open spec fn count_class(slots: Seq<SlotV>, c: Seq<char>) -> nat
    decreases slots.len(),
{
    if slots.len() == 0 {
        0
    } else {
        count_class(slots.drop_last(), c) + (if slots.last().info.class == c {
            1nat
        } else {
            0nat
        })
    }
}

/// The concatenated state records of every peer-bound slot below `j`,
/// slot `i` itself excluded.
pub open spec fn others_concat(slots: Seq<SlotV>, i: int, j: int) -> Seq<u8>
    decreases j,
{
    if j <= 0 {
        Seq::empty()
    } else {
        others_concat(slots, i, j - 1) + (if j - 1 != i && 0 <= j - 1 < slots.len()
            && slots[j - 1].udp is Some {
            slots[j - 1].state
        } else {
            Seq::empty()
        })
    }
}

/// The whole packet owed to slot index `i` each tick: every other bound
/// slot's state, in slot order.
pub open spec fn packet_for(slots: Seq<SlotV>, i: int) -> Seq<u8> {
    others_concat(slots, i, slots.len() as int)
}

/// The replication sends of one tick: for each bound slot, its id and its
/// packet; slots owed nothing are skipped.
pub open spec fn expected_packets(slots: Seq<SlotV>, i: int) -> Seq<(u8, Seq<u8>)>
    decreases slots.len() - i,
{
    if i < 0 || i >= slots.len() {
        Seq::empty()
    } else {
        (if slots[i].udp is Some && packet_for(slots, i).len() > 0 {
            seq![(((i + 1) as u8), packet_for(slots, i))]
        } else {
            Seq::empty()
        }) + expected_packets(slots, i + 1)
    }
}

/// The role-uniqueness rule, over the table's content: the class the
/// requester ends up with, given the class it held and the one it asks for.
pub open spec fn update_class_spec(
    slots: Seq<SlotV>,
    previous: Seq<char>,
    new: Seq<char>,
    extendPlayers: bool,
) -> Seq<char> {
    let holders = count_class(slots, new);
    if previous == new {
        "unknown"@
    } else if holders == 0 {
        new
    } else if holders == 1 {
        if extendPlayers {
            new
        } else {
            previous
        }
    } else {
        previous
    }
}

/// What accepting a connection does: either every seat was taken and
/// nothing changed, or the smallest free seat was granted, connected and
/// bound to the account, all other seats untouched.
pub open spec fn accept_post(pre: Seq<SlotV>, post: Seq<SlotV>, info: AccountV, r: u8) -> bool {
    &&& post.len() == pre.len()
    &&& (r == 0 ==> (forall|j: int| 0 <= j < pre.len() ==> (#[trigger] pre[j]).connected)
        && post == pre)
    &&& (r != 0 ==> {
        &&& 1 <= r as int <= pre.len()
        &&& !pre[r as int - 1].connected
        &&& (forall|j: int| 0 <= j < r as int - 1 ==> (#[trigger] pre[j]).connected)
        &&& post[r as int - 1] == (SlotV {
            connected: true,
            udp: None,
            info,
            state: empty_slot().state,
        })
        &&& (forall|j: int| 0 <= j < pre.len() && j != r as int - 1
            ==> post[j] == (#[trigger] pre[j]))
    })
}

/// Two seats never share an id: a successful accept grants a seat that was
/// free and leaves it taken, so a second accept into the resulting table
/// cannot grant the same id, and a full table grants no id at all.
pub proof fn lemma_no_double_grant(
    t0: Seq<SlotV>,
    t1: Seq<SlotV>,
    t2: Seq<SlotV>,
    a1: AccountV,
    a2: AccountV,
    r1: u8,
    r2: u8,
)
    requires
        accept_post(t0, t1, a1, r1),
        accept_post(t1, t2, a2, r2),
        r1 != 0,
    ensures
        r2 != r1,
{
    assert(t1[r1 as int - 1].connected);
    if r2 == r1 {
        assert(!t1[r2 as int - 1].connected);
    }
}

/// Capacity exhaustion is deterministic: once every seat is taken, an
/// accept grants nothing.
pub proof fn lemma_full_table_grants_nothing(
    pre: Seq<SlotV>,
    post: Seq<SlotV>,
    info: AccountV,
    r: u8,
)
    requires
        accept_post(pre, post, info, r),
        forall|j: int| 0 <= j < pre.len() ==> (#[trigger] pre[j]).connected,
    ensures
        r == 0,
        post == pre,
{
    if r != 0 {
        assert(pre[r as int - 1].connected);
    }
}

/// The fixed-capacity slot table.
pub struct SlotTable {
    slots: Vec<Slot>,
}

impl View for SlotTable {
    type V = Seq<SlotV>;

    closed spec fn view(&self) -> Seq<SlotV> {
        self.slots@.map_values(|s: Slot| s@)
    }
}

impl SlotTable {
    /// Builds a table of `count` empty seats.
    pub fn new(count: u8) -> (r: SlotTable)
        ensures
            r@.len() == count as int,
            forall|i: int| 0 <= i < count as int ==> r@[i] == empty_slot(),
    {
        let mut slots: Vec<Slot> = Vec::new();
        let mut k: usize = 0;
        while k < count as usize
            invariant
                slots@.len() == k,
                k <= count as usize,
                forall|i: int| 0 <= i < k ==> slots@[i]@ == empty_slot(),
            decreases count as usize - k,
        {
            slots.push(Slot::default());
            k = k + 1;
        }
        SlotTable { slots }
    }

    /// The capacity.
    pub fn len(&self) -> (r: usize)
        ensures
            r == self@.len(),
    {
        self.slots.len()
    }

    /// The smallest slot id with no reliable connection, or zero when every
    /// seat is taken: the capacity-exhausted outcome, not an error.
    pub fn getAvailablePlayerID(&self) -> (r: u8)
        requires
            self@.len() <= 255,
        ensures
            r != 0 ==> {
                &&& 1 <= r as int <= self@.len()
                &&& !self@[r as int - 1].connected
                &&& forall|j: int| 0 <= j < r as int - 1 ==> self@[j].connected
            },
            r == 0 ==> forall|j: int| 0 <= j < self@.len() ==> self@[j].connected,
    {
        let mut k: usize = 0;
        while k < self.slots.len()
            invariant
                k <= self@.len() <= 255,
                forall|j: int| 0 <= j < k ==> self@[j].connected,
            decreases self@.len() - k,
        {
            if !self.slots[k].connected {
                return (k + 1) as u8;
            }
            k = k + 1;
        }
        0
    }

    /// Binds a fresh connection and its account to seat `id`.
    pub fn connect(&mut self, id: u8, info: Account)
        requires
            1 <= id as int <= old(self)@.len(),
        ensures
            final(self)@.len() == old(self)@.len(),
            final(self)@[id as int - 1] == (SlotV {
                connected: true,
                udp: None,
                info: info@,
                state: empty_slot().state,
            }),
            forall|j: int| 0 <= j < old(self)@.len() && j != id as int - 1
                ==> final(self)@[j] == old(self)@[j],
    {
        let mut s = Slot::default();
        s.connected = true;
        s.info = info;
        self.slots.set(id as usize - 1, s);
    }

    /// Frees seat `id`: the empty slot takes its place.
    pub fn reset(&mut self, id: u8)
        requires
            1 <= id as int <= old(self)@.len(),
        ensures
            final(self)@.len() == old(self)@.len(),
            final(self)@[id as int - 1] == empty_slot(),
            forall|j: int| 0 <= j < old(self)@.len() && j != id as int - 1
                ==> final(self)@[j] == old(self)@[j],
    {
        self.slots.set(id as usize - 1, Slot::default());
    }

    /// Accepts a connection: the smallest free seat is granted and bound to
    /// `info`; zero is the capacity-exhausted outcome and changes nothing.
    pub fn acceptConnection(&mut self, info: Account) -> (r: u8)
        requires
            old(self)@.len() <= 255,
        ensures
            accept_post(old(self)@, final(self)@, info@, r),
    {
        let id = self.getAvailablePlayerID();
        if id == 0 {
            return 0;
        }
        self.connect(id, info);
        id
    }

    /// The account seat `id` plays as.
    pub fn getInfo(&self, id: u8) -> (r: Account)
        requires
            1 <= id as int <= self@.len(),
        ensures
            r@ == self@[id as int - 1].info,
    {
        self.slots[id as usize - 1].info.clone()
    }

    /// Whether seat `id` has a reliable connection.
    pub fn isConnected(&self, id: u8) -> (r: bool)
        requires
            1 <= id as int <= self@.len(),
        ensures
            r == self@[id as int - 1].connected,
    {
        self.slots[id as usize - 1].connected
    }

    /// The unreliable peer key bound to seat `id`, if any.
    pub fn getUdp(&self, id: u8) -> (r: Option<u64>)
        requires
            1 <= id as int <= self@.len(),
        ensures
            r == self@[id as int - 1].udp,
    {
        self.slots[id as usize - 1].udp
    }

    /// Renames the account of seat `id`.
    pub fn setName(&mut self, id: u8, name: String)
        requires
            1 <= id as int <= old(self)@.len(),
        ensures
            final(self)@.len() == old(self)@.len(),
            final(self)@[id as int - 1] == (SlotV {
                info: AccountV { name: name@, ..old(self)@[id as int - 1].info },
                ..old(self)@[id as int - 1]
            }),
            forall|j: int| 0 <= j < old(self)@.len() && j != id as int - 1
                ==> final(self)@[j] == old(self)@[j],
    {
        let idx = id as usize - 1;
        let mut s = self.slots.remove(idx);
        s.info.name = name;
        self.slots.insert(idx, s);
        proof {
            assert(self@ =~= old(self)@.update(id as int - 1, self@[id as int - 1]));
        }
    }

    /// Sets the class of seat `id`'s account.
    pub fn setClass(&mut self, id: u8, class: String)
        requires
            1 <= id as int <= old(self)@.len(),
        ensures
            final(self)@.len() == old(self)@.len(),
            final(self)@[id as int - 1] == (SlotV {
                info: AccountV { class: class@, ..old(self)@[id as int - 1].info },
                ..old(self)@[id as int - 1]
            }),
            forall|j: int| 0 <= j < old(self)@.len() && j != id as int - 1
                ==> final(self)@[j] == old(self)@[j],
    {
        let idx = id as usize - 1;
        let mut s = self.slots.remove(idx);
        s.info.class = class;
        self.slots.insert(idx, s);
        proof {
            assert(self@ =~= old(self)@.update(id as int - 1, self@[id as int - 1]));
        }
    }

    /// Applies one unreliable datagram from peer `src`. A record of the
    /// wrong size, or one naming no seat of this table, changes nothing.
    /// The first datagram a seat sees binds `src` to it for good; later
    /// records are applied without re-checking the peer.
    pub fn applyDatagram(&mut self, src: u64, data: &Vec<u8>) -> (r: bool)
        ensures
            final(self)@.len() == old(self)@.len(),
            ({
                let id = data@[0] & 0x07;
                if data@.len() == 9 && 1 <= id as int <= old(self)@.len() {
                    &&& r
                    &&& final(self)@[id as int - 1] == (SlotV {
                        udp: if old(self)@[id as int - 1].udp is Some {
                            old(self)@[id as int - 1].udp
                        } else {
                            Some(src)
                        },
                        state: data@,
                        ..old(self)@[id as int - 1]
                    })
                    &&& forall|j: int| 0 <= j < old(self)@.len() && j != id as int - 1
                        ==> final(self)@[j] == old(self)@[j]
                } else {
                    !r && final(self)@ == old(self)@
                }
            }),
    {
        if data.len() != 9 {
            return false;
        }
        let id = data[0] & 0x07;
        if id == 0 || id as usize > self.slots.len() {
            return false;
        }
        let idx = id as usize - 1;
        let mut s = self.slots.remove(idx);
        if s.udp.is_none() {
            s.udp = Some(src);
        }
        let mut copy: Vec<u8> = Vec::new();
        let mut k: usize = 0;
        while k < 9
            invariant
                data@.len() == 9,
                copy@.len() == k,
                k <= 9,
                copy@ == data@.subrange(0, k as int),
            decreases 9 - k,
        {
            copy.push(data[k]);
            k = k + 1;
            proof {
                assert(copy@ =~= data@.subrange(0, k as int));
            }
        }
        s.state = copy;
        self.slots.insert(idx, s);
        proof {
            assert(data@.subrange(0, 9) =~= data@);
            assert(final(self)@ =~= old(self)@.update(id as int - 1, final(self)@[id as int - 1]));
        }
        true
    }

    /// The role-uniqueness rule. Asking for the class already held gives
    /// the placeholder back. Otherwise the request is granted when no slot
    /// holds the class; granted only under the extended roster when exactly
    /// one does; and refused when two or more do.
    pub fn updateClass(&self, previous: String, new: String, extendPlayers: bool) -> (r: String)
        ensures
            r@ == update_class_spec(self@, previous@, new@, extendPlayers),
    {
        if previous == new {
            return "unknown".to_owned();
        }
        let mut count: u64 = 0;
        let mut k: usize = 0;
        while k < self.slots.len()
            invariant
                k <= self@.len(),
                count == count_class(self@.subrange(0, k as int), new@),
                count <= k,
            decreases self@.len() - k,
        {
            if self.slots[k].info.class == new {
                count = count + 1;
            }
            k = k + 1;
            proof {
                assert(self@.subrange(0, k as int).drop_last()
                    =~= self@.subrange(0, k as int - 1));
            }
        }
        proof {
            assert(self@.subrange(0, self@.len() as int) =~= self@);
        }
        if count == 0 {
            new
        } else if count == 1 {
            if extendPlayers {
                new
            } else {
                previous
            }
        } else {
            previous
        }
    }

    /// Builds this tick's replication packets: for every peer-bound seat,
    /// the concatenated state records of all other peer-bound seats — a
    /// seat's own state is never in its packet. Seats owed no bytes get no
    /// packet.
    pub fn tickPackets(&self) -> (r: Vec<(u8, Vec<u8>)>)
        requires
            self@.len() <= 255,
        ensures
            r@.map_values(|p: (u8, Vec<u8>)| (p.0, p.1@)) == expected_packets(self@, 0),
    {
        let mut out: Vec<(u8, Vec<u8>)> = Vec::new();
        let mut i: usize = 0;
        while i < self.slots.len()
            invariant
                i <= self@.len() <= 255,
                expected_packets(self@, 0) == out@.map_values(|p: (u8, Vec<u8>)| (p.0, p.1@))
                    + expected_packets(self@, i as int),
            decreases self@.len() - i,
        {
            let ghost prev = out@;
            if self.slots[i].udp.is_some() {
                let mut packet: Vec<u8> = Vec::new();
                let mut j: usize = 0;
                while j < self.slots.len()
                    invariant
                        i < self@.len(),
                        j <= self@.len(),
                        packet@ == others_concat(self@, i as int, j as int),
                    decreases self@.len() - j,
                {
                    if j != i && self.slots[j].udp.is_some() {
                        let mut k: usize = 0;
                        let ghost before = packet@;
                        let slen = self.slots[j].state.len();
                        while k < slen
                            invariant
                                j < self@.len(),
                                k <= slen,
                                slen == self@[j as int].state.len(),
                                packet@ == before + self@[j as int].state.subrange(0, k as int),
                            decreases slen - k,
                        {
                            packet.push(self.slots[j].state[k]);
                            k = k + 1;
                            proof {
                                assert(packet@ =~= before
                                    + self@[j as int].state.subrange(0, k as int));
                            }
                        }
                        proof {
                            assert(self@[j as int].state.subrange(0, slen as int)
                                =~= self@[j as int].state);
                        }
                    }
                    j = j + 1;
                }
                if packet.len() > 0 {
                    out.push(((i + 1) as u8, packet));
                    proof {
                        assert(out@.map_values(|p: (u8, Vec<u8>)| (p.0, p.1@))
                            =~= prev.map_values(|p: (u8, Vec<u8>)| (p.0, p.1@)).push(
                            (((i + 1) as u8), packet_for(self@, i as int))));
                    }
                }
            }
            i = i + 1;
            proof {
                assert(expected_packets(self@, 0) == out@.map_values(
                    |p: (u8, Vec<u8>)| (p.0, p.1@)) + expected_packets(self@, i as int));
            }
        }
        proof {
            assert(out@.map_values(|p: (u8, Vec<u8>)| (p.0, p.1@))
                + expected_packets(self@, self@.len() as int)
                =~= out@.map_values(|p: (u8, Vec<u8>)| (p.0, p.1@)));
        }
        out
    }
}

} // verus!
