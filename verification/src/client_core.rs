//! The client's decision core: the mirror table of every player's latest
//! state, filled from the unreliable channel's batched records, the
//! client's own state to send each tick, and the decoded reliable-channel
//! history. Sockets and timers live with the caller.
use vstd::prelude::*;
use crate::player_state::{PlayerState, decode_batch, batch_entry, state_bytes};
use crate::codec::{ClientMessage, ClientMsgV, dec_client_stream, client_views};

verus! {

/// The states after applying the first `k` records of a batch in order:
/// a record naming a seat of the table overwrites it, later records win,
/// and a record naming no seat falls through.
pub open spec fn apply_entries(states: Seq<PlayerState>, data: Seq<u8>, k: int)
    -> Seq<PlayerState>
    decreases k,
{
    if k <= 0 {
        states
    } else {
        let prev = apply_entries(states, data, k - 1);
        let e = batch_entry(data, k - 1);
        if 1 <= e.0 as int <= states.len() {
            prev.update(e.0 as int - 1, e.1)
        } else {
            prev
        }
    }
}

/// The mathematical content of the client core.
pub ghost struct ClientCoreV {
    pub id: u8,
    pub tickRate: u8,
    pub tickTime: u64,
    pub mainState: PlayerState,
    pub states: Seq<PlayerState>,
    pub tcpHistory: Seq<ClientMsgV>,
}

/// The client's replication state: who this client is, the tick cadence,
/// its own latest state, every player's mirrored state, and the reliable
/// messages received so far.
pub struct ClientCore {
    pub id: u8,
    pub tickRate: u8,
    pub tickTime: u64,
    mainState: PlayerState,
    states: Vec<PlayerState>,
    tcpHistory: Vec<ClientMessage>,
}

impl View for ClientCore {
    type V = ClientCoreV;

    closed spec fn view(&self) -> ClientCoreV {
        ClientCoreV {
            id: self.id,
            tickRate: self.tickRate,
            tickTime: self.tickTime,
            mainState: self.mainState,
            states: self.states@,
            tcpHistory: self.tcpHistory@.map_values(|m: ClientMessage| m@),
        }
    }
}

impl ClientCore {
    /// A fresh client: no id, one tick a second, everything zeroed.
    pub fn new() -> (r: ClientCore)
        ensures
            r@.id == 0,
            r@.tickRate == 1,
            r@.tickTime == 1000,
            r@.states.len() == 0,
            r@.tcpHistory.len() == 0,
            r@.mainState == (PlayerState { pos: (0, 0), vel: (0, 0), moveX: 0 as i8,
                jump: false, attack: false, protect: false }),
    {
        let r = ClientCore {
            id: 0,
            tickRate: 1,
            tickTime: 1000,
            mainState: PlayerState::default(),
            states: Vec::new(),
            tcpHistory: Vec::new(),
        };
        proof {
            assert(r@.tcpHistory =~= Seq::<ClientMsgV>::empty());
        }
        r
    }

    /// Sets the tick rate and derives the tick interval from it.
    pub fn setTickRate(&mut self, tickRate: u8)
        ensures
            final(self)@ == (ClientCoreV {
                tickRate,
                tickTime: crate::config::send_interval_ms(tickRate),
                ..old(self)@
            }),
    {
        self.tickRate = tickRate;
        if tickRate == 0 {
            self.tickTime = u64::MAX;
        } else {
            self.tickTime = 1000 / tickRate as u64;
        }
    }

    /// Resizes the mirror table for the plain or the extended roster; new
    /// seats start zeroed.
    pub fn setEP(&mut self, extendPlayers: bool)
        ensures
            final(self)@.states.len() == 5 * (if extendPlayers { 2 as int } else { 1 as int }),
            forall|j: int| 0 <= j < final(self)@.states.len() && j < old(self)@.states.len()
                ==> final(self)@.states[j] == old(self)@.states[j],
            forall|j: int| old(self)@.states.len() <= j < final(self)@.states.len()
                ==> final(self)@.states[j] == (PlayerState { pos: (0, 0), vel: (0, 0),
                moveX: 0 as i8, jump: false, attack: false, protect: false }),
            final(self)@.id == old(self)@.id,
            final(self)@.tickRate == old(self)@.tickRate,
            final(self)@.tickTime == old(self)@.tickTime,
            final(self)@.mainState == old(self)@.mainState,
            final(self)@.tcpHistory == old(self)@.tcpHistory,
    {
        let target: usize = if extendPlayers {
            10
        } else {
            5
        };
        self.states.resize(target, PlayerState::default());
    }

    /// Whether the mirror table is sized for the extended roster.
    pub fn getEP(&self) -> (r: bool)
        ensures
            r == (self@.states.len() / 5 == 2),
    {
        self.states.len() / 5 == 2
    }

    /// One mirrored state, by seat id.
    pub fn getState(&self, id: u8) -> (r: PlayerState)
        requires
            1 <= id as int <= self@.states.len(),
        ensures
            r == self@.states[id as int - 1],
    {
        self.states[id as usize - 1]
    }

    /// Applies one batch of 9-byte records to the mirror table, as
    /// `apply_entries` describes. A batch whose length is not a multiple of
    /// nine is rejected whole: nothing changes and the caller drops the
    /// unreliable channel.
    pub fn applyBatch(&mut self, data: &Vec<u8>) -> (r: bool)
        ensures
            r <==> data@.len() % 9 == 0,
            r ==> final(self)@ == (ClientCoreV {
                states: apply_entries(old(self)@.states, data@, (data@.len() / 9) as int),
                ..old(self)@
            }),
            !r ==> final(self)@ == old(self)@,
    {
        let entries = match decode_batch(data) {
            Some(e) => e,
            None => {
                return false;
            }
        };
        let count = entries.len();
        let mut k: usize = 0;
        while k < count
            invariant
                count == data@.len() / 9,
                data@.len() % 9 == 0,
                entries@.len() == count,
                forall|j: int| 0 <= j < count ==> entries@[j] == batch_entry(data@, j),
                k <= count,
                self@ == (ClientCoreV {
                    states: apply_entries(old(self)@.states, data@, k as int),
                    ..old(self)@
                }),
                self@.states.len() == old(self)@.states.len(),
            decreases count - k,
        {
            let (id, s) = entries[k];
            if 1 <= id && (id as usize) <= self.states.len() {
                self.states.set(id as usize - 1, s);
            }
            k = k + 1;
            proof {
                assert(apply_entries(old(self)@.states, data@, k as int) =~= self@.states);
            }
        }
        true
    }

    /// Records the client's own state for the next tick, exactly as given:
    /// the last value wins, and the next tick encodes it.
    pub fn setState(&mut self, px: u16, py: u16, vx: u16, vy: u16, state: (i8, bool, bool,
        bool))
        ensures
            final(self)@ == (ClientCoreV {
                mainState: PlayerState {
                    pos: (px, py),
                    vel: (vx, vy),
                    moveX: state.0,
                    jump: state.1,
                    attack: state.2,
                    protect: state.3,
                },
                ..old(self)@
            }),
    {
        self.mainState = PlayerState {
            pos: (px, py),
            vel: (vx, vy),
            moveX: state.0,
            jump: state.1,
            attack: state.2,
            protect: state.3,
        };
    }

    /// The 9-byte record of the client's own state, to send each tick. The
    /// slot id must fit the record's three-bit id field; a move direction
    /// other than left or right encodes as standing still.
    pub fn raw(&self) -> (r: Vec<u8>)
        requires
            self@.id < 8,
        ensures
            r@ == state_bytes(self@.id, self@.mainState),
    {
        self.mainState.raw(self.id)
    }

    /// Decodes one reliable-channel read and appends its messages to the
    /// history; a malformed buffer changes nothing and the caller drops
    /// the connection.
    pub fn applyTcp(&mut self, buf: &Vec<u8>) -> (r: bool)
        ensures
            r <==> dec_client_stream(buf@, 0) is Some,
            r ==> final(self)@ == (ClientCoreV {
                tcpHistory: old(self)@.tcpHistory + dec_client_stream(buf@, 0)->0,
                ..old(self)@
            }),
            !r ==> final(self)@ == old(self)@,
    {
        let msgs = match ClientMessage::parse(buf) {
            Some(m) => m,
            None => {
                return false;
            }
        };
        let ghost gmsgs = client_views(msgs@);
        let mut rest = msgs;
        let ghost entry_hist = self@.tcpHistory;
        let mut k: usize = 0;
        let count = rest.len();
        proof {
            assert(entry_hist + gmsgs.take(0) =~= entry_hist);
        }
        while k < count
            invariant
                count - k == rest@.len(),
                k <= count == gmsgs.len(),
                forall|j: int| 0 <= j < rest@.len() ==> (#[trigger] rest@[j])@ == gmsgs[k + j],
                self@ == (ClientCoreV {
                    tcpHistory: entry_hist + gmsgs.take(k as int),
                    ..old(self)@
                }),
                entry_hist == old(self)@.tcpHistory,
            decreases count - k,
        {
            let ghost before = self@.tcpHistory;
            let m = rest.remove(0);
            self.tcpHistory.push(m);
            k = k + 1;
            proof {
                assert(self@.tcpHistory =~= before.push(gmsgs[k - 1]));
                assert(entry_hist + gmsgs.take(k as int) =~= before.push(gmsgs[k - 1]));
            }
        }
        proof {
            assert(gmsgs.take(count as int) =~= gmsgs);
        }
        true
    }

    /// The decoded reliable-channel messages so far; the caller may clear
    /// what it consumed.
    pub fn takeHistory(&mut self) -> (r: Vec<ClientMessage>)
        ensures
            client_views(r@) == old(self)@.tcpHistory,
            final(self)@ == (ClientCoreV { tcpHistory: Seq::empty(), ..old(self)@ }),
    {
        let mut out: Vec<ClientMessage> = Vec::new();
        core::mem::swap(&mut out, &mut self.tcpHistory);
        proof {
            assert(final(self)@.tcpHistory =~= Seq::<ClientMsgV>::empty());
        }
        out
    }
}

} // verus!
