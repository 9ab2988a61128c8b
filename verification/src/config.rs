//! Server configuration: the extended-roster switch, the tick rate with the
//! send and receive intervals derived from it, per-player permission levels,
//! and the first checkpoint.
use vstd::prelude::*;
use crate::kvlist::{kv_lookup, kv_unique, lemma_kv_at, lemma_kv_absent, lemma_kv_update,
    lemma_kv_push};

verus! {

/// A player's permission level.
#[derive(Clone, Copy, PartialEq, Eq, Structural, Debug)]
pub enum Permission {
    Developer,
    Player,
}

impl Permission {
    /// The level's name in the configuration document.
    pub fn toString(&self) -> (r: String)
        ensures
            self is Developer ==> r@ == "dev"@,
            self is Player ==> r@ == "player"@,
    {
        match self {
            Permission::Developer => "dev".to_owned(),
            Permission::Player => "player".to_owned(),
        }
    }

    /// Whether this level grants what `lvl` asks: everyone passes a player
    /// check, only developers pass a developer check.
    pub fn check(&self, lvl: Permission) -> (r: bool)
        ensures
            r == (lvl is Player || self is Developer),
    {
        match lvl {
            Permission::Player => true,
            Permission::Developer => match *self {
                Permission::Developer => true,
                Permission::Player => false,
            },
        }
    }
}

/// The permission level of `n` among the stored entries; an absent name is
/// a plain player.
pub open spec fn lookup_perm(s: Seq<(Seq<char>, Permission)>, n: Seq<char>) -> Permission {
    kv_lookup(s, n, Permission::Player)
}

/// The mathematical content of the configuration.
pub ghost struct ConfigV {
    pub extendedPlayers: bool,
    pub tickRate: u8,
    pub sendTime: u64,
    pub recvTime: u64,
    pub permissions: Seq<(Seq<char>, Permission)>,
    pub firstCheckpoint: Seq<char>,
}

/// The server configuration. Intervals are in milliseconds.
pub struct Config {
    pub extendedPlayers: bool,
    pub tickRate: u8,
    pub sendTime: u64,
    pub recvTime: u64,
    pub permissions: Vec<(String, Permission)>,
    pub firstCheckpoint: String,
}

impl View for Config {
    type V = ConfigV;

    open spec fn view(&self) -> ConfigV {
        ConfigV {
            extendedPlayers: self.extendedPlayers,
            tickRate: self.tickRate,
            sendTime: self.sendTime,
            recvTime: self.recvTime,
            permissions: self.permissions@.map_values(|e: (String, Permission)| (e.0@, e.1)),
            firstCheckpoint: self.firstCheckpoint@,
        }
    }
}

/// The send interval a tick rate dictates, in milliseconds; a zero rate
/// means the replication loop never fires.
pub open spec fn send_interval_ms(tickRate: u8) -> u64 {
    if tickRate == 0 {
        u64::MAX
    } else {
        (1000 as u64 / tickRate as u64) as u64
    }
}

/// Half the send interval: how long the receive side waits.
pub open spec fn recv_interval_ms(tickRate: u8) -> u64 {
    if tickRate == 0 {
        u64::MAX
    } else {
        (500 as u64 / tickRate as u64) as u64
    }
}

impl Config {
    /// No name stored twice.
    pub open spec fn wf(self) -> bool {
        kv_unique(self@.permissions)
    }

    /// Sets the tick rate and derives the two intervals from it.
    pub fn setTickRate(&mut self, tickRate: u8)
        ensures
            final(self)@ == (ConfigV {
                tickRate,
                sendTime: send_interval_ms(tickRate),
                recvTime: recv_interval_ms(tickRate),
                ..old(self)@
            }),
    {
        self.tickRate = tickRate;
        if tickRate == 0 {
            self.sendTime = u64::MAX;
            self.recvTime = u64::MAX;
        } else {
            self.sendTime = 1000 / tickRate as u64;
            self.recvTime = 500 / tickRate as u64;
        }
    }

    /// The permission level of `name`. The web console's reserved name is
    /// always a developer; an unlisted name is a plain player.
    pub fn getPermission(&self, name: &String) -> (r: Permission)
        requires
            self.wf(),
        ensures
            name@ == "WebClient"@ ==> r == Permission::Developer,
            name@ != "WebClient"@ ==> r == lookup_perm(self@.permissions, name@),
    {
        let reserved: String = "WebClient".to_owned();
        if *name == reserved {
            return Permission::Developer;
        }
        let mut k: usize = 0;
        while k < self.permissions.len()
            invariant
                self.wf(),
                name@ != "WebClient"@,
                k <= self@.permissions.len(),
                forall|j: int| 0 <= j < k ==> (#[trigger] self@.permissions[j]).0 != name@,
            decreases self@.permissions.len() - k,
        {
            if self.permissions[k].0 == *name {
                proof {
                    lemma_kv_at(self@.permissions, k as int, name@, Permission::Player);
                }
                return self.permissions[k].1;
            }
            k = k + 1;
        }
        proof {
            lemma_kv_absent(self@.permissions, name@, Permission::Player);
        }
        Permission::Player
    }

    /// Stores the permission level of `name`, replacing an old entry.
    pub fn setPermission(&mut self, name: String, group: Permission)
        requires
            old(self).wf(),
        ensures
            final(self).wf(),
            lookup_perm(final(self)@.permissions, name@) == group,
            forall|m: Seq<char>| m != name@ ==> lookup_perm(final(self)@.permissions, m)
                == lookup_perm(old(self)@.permissions, m),
            final(self)@.extendedPlayers == old(self)@.extendedPlayers,
            final(self)@.tickRate == old(self)@.tickRate,
            final(self)@.sendTime == old(self)@.sendTime,
            final(self)@.recvTime == old(self)@.recvTime,
            final(self)@.firstCheckpoint == old(self)@.firstCheckpoint,
    {
        let mut k: usize = 0;
        while k < self.permissions.len()
            invariant
                self == old(self),
                self.wf(),
                k <= self@.permissions.len(),
                forall|j: int| 0 <= j < k ==> (#[trigger] self@.permissions[j]).0 != name@,
            decreases self@.permissions.len() - k,
        {
            if self.permissions[k].0 == name {
                let ghost gperms = self@.permissions;
                self.permissions.set(k, (name, group));
                proof {
                    assert(self@.permissions =~= gperms.update(
                        k as int,
                        (self@.permissions[k as int].0, group),
                    ));
                    lemma_kv_update(gperms, k as int, self@.permissions[k as int],
                        Permission::Player);
                }
                return;
            }
            k = k + 1;
        }
        let ghost gperms = self@.permissions;
        self.permissions.push((name, group));
        proof {
            assert(self@.permissions.drop_last() =~= gperms);
            assert(self@.permissions =~= gperms.push(self@.permissions.last()));
            lemma_kv_push(gperms, self@.permissions.last(), Permission::Player);
        }
    }

    /// The stored permission entries, for the configuration writer.
    pub fn permissionNames(&self) -> (r: &Vec<(String, Permission)>)
        ensures
            r@.map_values(|e: (String, Permission)| (e.0@, e.1)) == self@.permissions,
    {
        &self.permissions
    }

    /// The roster size: five seats, doubled under the extended roster.
    pub fn getPlayersCount(&self) -> (r: u8)
        ensures
            r == 5 * (if self@.extendedPlayers { 2 as int } else { 1 as int }),
    {
        5 * (if self.extendedPlayers { 2 } else { 1 })
    }
}

impl Default for Config {
    /// The out-of-the-box configuration: five seats, one tick a second.
    fn default() -> (r: Config)
        ensures
            r.wf(),
            r@ == (ConfigV {
                extendedPlayers: false,
                tickRate: 1,
                sendTime: 1000,
                recvTime: 500,
                permissions: Seq::empty(),
                firstCheckpoint: "main"@,
            }),
    {
        let r = Config {
            extendedPlayers: false,
            tickRate: 1,
            sendTime: 1000,
            recvTime: 500,
            permissions: Vec::new(),
            firstCheckpoint: "main".to_owned(),
        };
        proof {
            assert(r@.permissions =~= Seq::<(Seq<char>, Permission)>::empty());
        }
        r
    }
}

} // verus!
