//! Persistent account records and the server's game state: accounts keyed
//! by remote address, chat history, settings and the last save point.
use vstd::prelude::*;
use crate::kvlist::{kv_lookup, kv_unique, lemma_kv_at, lemma_kv_absent, lemma_kv_update,
    lemma_kv_push};

verus! {

/// A persisted player identity, keyed by the remote address it connected
/// from. Created with default values on first sight of an address.
pub struct Account {
    pub name: String,
    pub class: String,
    pub color: (u8, u8, u8),
    pub hp: u16,
}

/// The mathematical content of an account: its strings as character
/// sequences, the rest as plain values.
pub ghost struct AccountV {
    pub name: Seq<char>,
    pub class: Seq<char>,
    pub color: (u8, u8, u8),
    pub hp: u16,
}

impl View for Account {
    type V = AccountV;

    open spec fn view(&self) -> AccountV {
        AccountV { name: self.name@, class: self.class@, color: self.color, hp: self.hp }
    }
}

/// The default account's content: the placeholder name and class, white
/// color, no health.
pub open spec fn default_account() -> AccountV {
    AccountV { name: "noname"@, class: "unknown"@, color: (255, 255, 255), hp: 0 }
}

impl Clone for Account {
    fn clone(&self) -> (r: Account)
        ensures
            r@ == self@,
    {
        Account {
            name: self.name.clone(),
            class: self.class.clone(),
            color: self.color,
            hp: self.hp,
        }
    }
}

impl Default for Account {
    fn default() -> (r: Account)
        ensures
            r@ == default_account(),
    {
        Account {
            name: "noname".to_owned(),
            class: "unknown".to_owned(),
            color: (255, 255, 255),
            hp: 0,
        }
    }
}

/// Game settings carried in the persisted document. The send interval is
/// in milliseconds, derived from the tick rate.
pub struct Settings {
    pub extendPlayers: bool,
    pub tickRate: u8,
    pub firstCP: String,
    pub maxItemCellSize: u8,
    pub sendTime: u64,
}

/// The mathematical content of the settings.
pub ghost struct SettingsV {
    pub extendPlayers: bool,
    pub tickRate: u8,
    pub firstCP: Seq<char>,
    pub maxItemCellSize: u8,
    pub sendTime: u64,
}

impl View for Settings {
    type V = SettingsV;

    open spec fn view(&self) -> SettingsV {
        SettingsV {
            extendPlayers: self.extendPlayers,
            tickRate: self.tickRate,
            firstCP: self.firstCP@,
            maxItemCellSize: self.maxItemCellSize,
            sendTime: self.sendTime,
        }
    }
}

/// The last save point.
pub struct Save {
    pub checkpoint: String,
    pub date: String,
}

/// The mathematical content of the save point.
pub ghost struct SaveV {
    pub checkpoint: Seq<char>,
    pub date: Seq<char>,
}

impl View for Save {
    type V = SaveV;

    open spec fn view(&self) -> SaveV {
        SaveV { checkpoint: self.checkpoint@, date: self.date@ }
    }
}

/// The server's game state: accounts keyed by the remote address they
/// connected from, the chat history, the settings and the last save point.
pub struct State {
    pub accounts: Vec<(String, Account)>,
    pub chatHistory: Vec<(String, String)>,
    pub settings: Settings,
    pub save: Save,
}

/// The mathematical content of the game state.
pub ghost struct StateV {
    pub accounts: Seq<(Seq<char>, AccountV)>,
    pub chatHistory: Seq<(Seq<char>, Seq<char>)>,
    pub settings: SettingsV,
    pub save: SaveV,
}

impl View for State {
    type V = StateV;

    open spec fn view(&self) -> StateV {
        StateV {
            accounts: self.accounts@.map_values(|e: (String, Account)| (e.0@, e.1@)),
            chatHistory: self.chatHistory@.map_values(|e: (String, String)| (e.0@, e.1@)),
            settings: self.settings@,
            save: self.save@,
        }
    }
}

impl State {
    /// Each address has at most one account record.
    pub open spec fn wf(self) -> bool {
        kv_unique(self@.accounts)
    }

    /// The out-of-the-box state: no accounts, no chat, default settings,
    /// the first checkpoint.
    pub fn new() -> (r: State)
        ensures
            r.wf(),
            r@.accounts.len() == 0,
            r@.chatHistory.len() == 0,
            r@.settings == (SettingsV {
                extendPlayers: false,
                tickRate: 1,
                firstCP: "main"@,
                maxItemCellSize: 64,
                sendTime: 1000,
            }),
            r@.save.checkpoint == "main"@,
            r@.save.date.len() == 0,
    {
        let r = State {
            accounts: Vec::new(),
            chatHistory: Vec::new(),
            settings: Settings {
                extendPlayers: false,
                tickRate: 1,
                firstCP: "main".to_owned(),
                maxItemCellSize: 64,
                sendTime: 1000,
            },
            save: Save { checkpoint: "main".to_owned(), date: String::new() },
        };
        proof {
            assert(r@.accounts =~= Seq::<(Seq<char>, AccountV)>::empty());
            assert(r@.chatHistory =~= Seq::<(Seq<char>, Seq<char>)>::empty());
        }
        r
    }

    /// The account of address `ip`, created with default values on first
    /// sight of the address.
    pub fn getPlayerInfo(&mut self, ip: String) -> (r: Account)
        requires
            old(self).wf(),
        ensures
            final(self).wf(),
            r@ == kv_lookup(old(self)@.accounts, ip@, default_account()),
            kv_lookup(final(self)@.accounts, ip@, default_account()) == r@,
            forall|m: Seq<char>| m != ip@ ==> kv_lookup(final(self)@.accounts, m,
                default_account()) == kv_lookup(old(self)@.accounts, m, default_account()),
            final(self)@.chatHistory == old(self)@.chatHistory,
            final(self)@.settings == old(self)@.settings,
            final(self)@.save == old(self)@.save,
    {
        let mut k: usize = 0;
        while k < self.accounts.len()
            invariant
                self == old(self),
                self.wf(),
                k <= self@.accounts.len(),
                forall|j: int| 0 <= j < k ==> (#[trigger] self@.accounts[j]).0 != ip@,
            decreases self@.accounts.len() - k,
        {
            if self.accounts[k].0 == ip {
                proof {
                    lemma_kv_at(self@.accounts, k as int, ip@, default_account());
                }
                return self.accounts[k].1.clone();
            }
            k = k + 1;
        }
        let ghost gaccounts = self@.accounts;
        let info = Account::default();
        self.accounts.push((ip, info.clone()));
        proof {
            lemma_kv_absent(gaccounts, self@.accounts.last().0, default_account());
            assert(self@.accounts.drop_last() =~= gaccounts);
            assert(self@.accounts =~= gaccounts.push(self@.accounts.last()));
            lemma_kv_push(gaccounts, self@.accounts.last(), default_account());
        }
        info
    }

    /// Stores the account of address `ip`, replacing an old record.
    pub fn setAccount(&mut self, ip: String, info: Account)
        requires
            old(self).wf(),
        ensures
            final(self).wf(),
            kv_lookup(final(self)@.accounts, ip@, default_account()) == info@,
            forall|m: Seq<char>| m != ip@ ==> kv_lookup(final(self)@.accounts, m,
                default_account()) == kv_lookup(old(self)@.accounts, m, default_account()),
            final(self)@.chatHistory == old(self)@.chatHistory,
            final(self)@.settings == old(self)@.settings,
            final(self)@.save == old(self)@.save,
    {
        let mut k: usize = 0;
        while k < self.accounts.len()
            invariant
                self == old(self),
                self.wf(),
                k <= self@.accounts.len(),
                forall|j: int| 0 <= j < k ==> (#[trigger] self@.accounts[j]).0 != ip@,
            decreases self@.accounts.len() - k,
        {
            if self.accounts[k].0 == ip {
                let ghost gaccounts = self@.accounts;
                self.accounts.set(k, (ip, info));
                proof {
                    assert(self@.accounts =~= gaccounts.update(
                        k as int,
                        (self@.accounts[k as int].0, self@.accounts[k as int].1),
                    ));
                    lemma_kv_update(gaccounts, k as int, self@.accounts[k as int],
                        default_account());
                }
                return;
            }
            k = k + 1;
        }
        let ghost gaccounts = self@.accounts;
        self.accounts.push((ip, info));
        proof {
            assert(self@.accounts.drop_last() =~= gaccounts);
            assert(self@.accounts =~= gaccounts.push(self@.accounts.last()));
            lemma_kv_push(gaccounts, self@.accounts.last(), default_account());
        }
    }

    /// The stored account records, for the persistence writer.
    pub fn accountsList(&self) -> (r: &Vec<(String, Account)>)
        ensures
            r@.map_values(|e: (String, Account)| (e.0@, e.1@)) == self@.accounts,
    {
        &self.accounts
    }

    /// Sets the tick rate and derives the send interval from it.
    pub fn setTickRate(&mut self, tickRate: u8)
        ensures
            final(self)@ == (StateV {
                settings: SettingsV {
                    tickRate,
                    sendTime: crate::config::send_interval_ms(tickRate),
                    ..old(self)@.settings
                },
                ..old(self)@
            }),
    {
        self.settings.tickRate = tickRate;
        if tickRate == 0 {
            self.settings.sendTime = u64::MAX;
        } else {
            self.settings.sendTime = 1000 / tickRate as u64;
        }
    }

    /// An empty checkpoint falls back to the first checkpoint of the
    /// settings; a named one stands.
    pub fn applyCheckpointFallback(&mut self)
        ensures
            final(self)@ == (StateV {
                save: SaveV {
                    checkpoint: if old(self)@.save.checkpoint.len() == 0 {
                        old(self)@.settings.firstCP
                    } else {
                        old(self)@.save.checkpoint
                    },
                    ..old(self)@.save
                },
                ..old(self)@
            }),
    {
        if self.save.checkpoint.as_str().is_empty() {
            self.save.checkpoint = self.settings.firstCP.clone();
        }
    }

    /// The roster size: five seats, doubled under the extended roster.
    pub fn getPlayersCount(&self) -> (r: u8)
        ensures
            r == 5 * (if self@.settings.extendPlayers { 2 as int } else { 1 as int }),
    {
        5 * (if self.settings.extendPlayers { 2 } else { 1 })
    }
}

} // verus!
