//! The voting subsystem: an ephemeral poll with a topic, an ordered option
//! list, one tally per option and a timeout. A vote is active while its
//! topic is non-empty; starting a new vote overwrites the old one without
//! queueing; the result is the option with the strictly highest tally, ties
//! falling to the first-registered option.
use vstd::prelude::*;

verus! {

/// The mathematical content of a poll.
pub ghost struct VotingV {
    pub topic: Seq<char>,
    pub options: Seq<Seq<char>>,
    pub tally: Seq<u32>,
    pub timeout_ms: u64,
    pub started_at: u64,
}

pub struct Voting {
    topic: String,
    options: Vec<String>,
    tally: Vec<u32>,
    timeout_ms: u64,
    started_at: u64,
}

impl View for Voting {
    type V = VotingV;

    closed spec fn view(&self) -> VotingV {
        VotingV {
            topic: self.topic@,
            options: self.options@.map_values(|s: String| s@),
            tally: self.tally@,
            timeout_ms: self.timeout_ms,
            started_at: self.started_at,
        }
    }
}

/// Index `i` holds the first maximum of `t`: everything before it is
/// strictly smaller, nothing after it is larger.
pub open spec fn is_first_max(t: Seq<u32>, i: int) -> bool {
    &&& 0 <= i < t.len()
    &&& forall|j: int| 0 <= j < i ==> t[j] < t[i]
    &&& forall|j: int| i <= j < t.len() ==> t[j] <= t[i]
}

impl Voting {
    /// One tally per option.
    pub open spec fn wf(self) -> bool {
        self@.tally.len() == self@.options.len()
    }

    /// The inactive poll: no topic, no options.
    pub fn new() -> (r: Voting)
        ensures
            r.wf(),
            r@ == (VotingV {
                topic: Seq::empty(),
                options: Seq::empty(),
                tally: Seq::empty(),
                timeout_ms: 0,
                started_at: 0,
            }),
    {
        let r = Voting {
            topic: String::new(),
            options: Vec::new(),
            tally: Vec::new(),
            timeout_ms: 0,
            started_at: 0,
        };
        proof {
            assert(r@.topic =~= Seq::<char>::empty());
            assert(r@.options =~= Seq::<Seq<char>>::empty());
            assert(r@.tally =~= Seq::<u32>::empty());
        }
        r
    }

    /// Starts a poll, discarding whatever poll was active before: the new
    /// state depends on the arguments alone, with every tally at zero.
    pub fn start(&mut self, topic: String, opt: Vec<String>, timeout_ms: u64, now_ms: u64)
        ensures
            final(self).wf(),
            final(self)@.topic == topic@,
            final(self)@.options == opt@.map_values(|s: String| s@),
            final(self)@.tally.len() == opt@.len(),
            forall|i: int| 0 <= i < opt@.len() ==> final(self)@.tally[i] == 0,
            final(self)@.timeout_ms == timeout_ms,
            final(self)@.started_at == now_ms,
    {
        let count = opt.len();
        let mut tally: Vec<u32> = Vec::new();
        let mut k: usize = 0;
        while k < count
            invariant
                tally@.len() == k,
                k <= count,
                forall|i: int| 0 <= i < k ==> tally@[i] == 0,
            decreases count - k,
        {
            tally.push(0);
            k = k + 1;
        }
        self.topic = topic;
        self.options = opt;
        self.tally = tally;
        self.timeout_ms = timeout_ms;
        self.started_at = now_ms;
    }

    /// Registers one vote for the option at `selection`. A selection past
    /// the option list changes nothing; a full tally stays at its maximum.
    pub fn vote(&mut self, selection: u8)
        requires
            old(self).wf(),
        ensures
            final(self).wf(),
            final(self)@.topic == old(self)@.topic,
            final(self)@.options == old(self)@.options,
            final(self)@.timeout_ms == old(self)@.timeout_ms,
            final(self)@.started_at == old(self)@.started_at,
            final(self)@.tally.len() == old(self)@.tally.len(),
            forall|i: int| 0 <= i < old(self)@.tally.len() && i != selection as int
                ==> final(self)@.tally[i] == old(self)@.tally[i],
            (selection as int) < old(self)@.tally.len() ==> final(self)@.tally[selection as int]
                == (if old(self)@.tally[selection as int] == u32::MAX {
                    u32::MAX
                } else {
                    (old(self)@.tally[selection as int] + 1) as u32
                }),
    {
        let sel = selection as usize;
        if sel < self.tally.len() {
            let t = self.tally[sel];
            let bumped: u32 = if t == u32::MAX {
                u32::MAX
            } else {
                t + 1
            };
            self.tally.set(sel, bumped);
        }
    }

    /// A poll is active exactly while its topic is non-empty.
    pub fn active(&self) -> (r: bool)
        ensures
            r == (self@.topic.len() != 0),
    {
        !self.topic.as_str().is_empty()
    }

    /// The poll has run out its timeout at `now_ms`.
    pub fn finished(&self, now_ms: u64) -> (r: bool)
        ensures
            r == (now_ms >= self@.started_at
                && now_ms - self@.started_at >= self@.timeout_ms),
    {
        if now_ms < self.started_at {
            false
        } else {
            now_ms - self.started_at >= self.timeout_ms
        }
    }

    /// The winning option and its tally: the strictly highest tally wins,
    /// and among equal tallies the first-registered option wins.
    pub fn getResult(&self) -> (r: (String, u32))
        requires
            self.wf(),
            self@.options.len() > 0,
        ensures
            exists|i: int|
                {
                    &&& #[trigger] is_first_max(self@.tally, i)
                    &&& r.0@ == self@.options[i]
                    &&& r.1 == self@.tally[i]
                },
    {
        let mut best_i: usize = 0;
        let mut best_v: u32 = self.tally[0];
        let mut k: usize = 1;
        while k < self.tally.len()
            invariant
                self.wf(),
                self@.tally.len() > 0,
                best_i < k <= self@.tally.len(),
                best_v == self@.tally[best_i as int],
                forall|j: int| 0 <= j < best_i ==> self@.tally[j] < best_v,
                forall|j: int| best_i <= j < k ==> self@.tally[j] <= best_v,
            decreases self@.tally.len() - k,
        {
            if self.tally[k] > best_v {
                best_i = k;
                best_v = self.tally[k];
            }
            k = k + 1;
        }
        proof {
            assert(is_first_max(self@.tally, best_i as int));
        }
        (self.options[best_i].clone(), best_v)
    }

    /// The active topic.
    pub fn getTopic(&self) -> (r: String)
        ensures
            r@ == self@.topic,
    {
        self.topic.clone()
    }
}

} // verus!
