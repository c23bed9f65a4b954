use vstd::prelude::*;

use crate::model::{
    after_register, after_update, index_of, names_unique, register_outcome, registered,
    update_outcome, Player, Position, Record, Registration, RegistryError,
};
use crate::secret::fresh_secret;

verus! {

/// One player and the credential issued for it.
struct Entry {
    player: Player,
    secret: u64,
}

impl Entry {
    spec fn record(self) -> Record {
        Record { name: self.player.name@, position: self.player.position, secret: self.secret }
    }
}

/// The authoritative store of players and their credentials.
///
/// Every operation is one call on the registry: `register` and
/// `update_position` take it exclusively, so the check of a name or a
/// credential and the change it allows can never be split by another
/// caller. Names are unique at every instant; a player's name and
/// credential never change after registration. Every player is issued a
/// credential when it is created, so every move is checked against one.
pub struct PlayerRegistry {
    entries: Vec<Entry>,
}

impl View for PlayerRegistry {
    type V = Seq<Record>;

    closed spec fn view(&self) -> Seq<Record> {
        self.entries@.map_values(|e: Entry| e.record())
    }
}

impl PlayerRegistry {
    /// The registry's invariant: no two players share a name.
    pub open spec fn wf(&self) -> bool {
        names_unique(self@)
    }

    /// An empty registry.
    pub fn new() -> (r: PlayerRegistry)
        ensures
            r.wf(),
            r@ == Seq::<Record>::empty(),
    {
        let r = PlayerRegistry { entries: Vec::new() };
        assert(r@ =~= Seq::<Record>::empty());
        r
    }

    /// The number of registered players.
    pub fn len(&self) -> (r: usize)
        ensures
            r == self@.len(),
    {
        self.entries.len()
    }

    /// Finds the entry that carries `name`.
    fn find(&self, name: &String) -> (r: Option<usize>)
        requires
            self.wf(),
        ensures
            match r {
                Some(i) => registered(self@, name@) && i == index_of(self@, name@) && i
                    < self@.len(),
                None => !registered(self@, name@),
            },
    {
        let mut i: usize = 0;
        while i < self.entries.len()
            invariant
                i <= self.entries@.len(),
                self@.len() == self.entries@.len(),
                self.wf(),
                forall|j: int| 0 <= j < i ==> #[trigger] self@[j].name != name@,
            decreases self.entries.len() - i,
        {
            if self.entries[i].player.name == *name {
                proof {
                    assert(self@[i as int].name == name@);
                    let k = index_of(self@, name@);
                    assert(self@[k].name == self@[i as int].name);
                }
                return Some(i);
            }
            i = i + 1;
        }
        None
    }

    /// Registers `name` with a freshly drawn random credential.
    ///
    /// Fails with `NameConflict`, changing nothing, when the name is taken;
    /// otherwise adds a player at the origin and returns it together with
    /// its credential.
    pub fn register(&mut self, name: String) -> (r: Result<Registration, RegistryError>)
        requires
            old(self).wf(),
        ensures
            final(self).wf(),
            registered(final(self)@, name@),
            match r {
                Ok(reg) => register_outcome(old(self)@, name@) is Ok && reg.player.name@ == name@
                    && reg.player.position == Position::spec_origin() && final(self)@
                    == after_register(old(self)@, name@, reg.secret),
                Err(e) => register_outcome(old(self)@, name@) == Err::<(), RegistryError>(e)
                    && final(self)@ == old(self)@,
            },
    {
        let secret = fresh_secret();
        self.register_with_secret(name, secret)
    }

    /// Registers `name` with the credential `secret`.
    ///
    /// Fails with `NameConflict`, changing nothing, when the name is taken;
    /// otherwise adds a player at the origin bound to `secret` and returns
    /// it together with `secret`.
    pub fn register_with_secret(&mut self, name: String, secret: u64) -> (r: Result<
        Registration,
        RegistryError,
    >)
        requires
            old(self).wf(),
        ensures
            final(self).wf(),
            registered(final(self)@, name@),
            final(self)@ == after_register(old(self)@, name@, secret),
            match r {
                Ok(reg) => register_outcome(old(self)@, name@) is Ok && reg.player.name@ == name@
                    && reg.player.position == Position::spec_origin() && reg.secret == secret,
                Err(e) => register_outcome(old(self)@, name@) == Err::<(), RegistryError>(e),
            },
    {
        if self.find(&name).is_some() {
            return Err(RegistryError::NameConflict);
        }
        let ghost n = old(self)@.len();
        let player = Player { name: name.clone(), position: Position::origin() };
        let entry = Entry { player: Player { name, position: Position::origin() }, secret };
        self.entries.push(entry);
        proof {
            let s = old(self)@;
            let rec = Record { name: player.name@, position: Position::spec_origin(), secret };
            assert(self@ =~= s.push(rec));
            assert(self@[n as int].name == name@);
            assert forall|i: int, j: int|
                0 <= i < self@.len() && 0 <= j < self@.len() && #[trigger] self@[i].name
                    == #[trigger] self@[j].name implies i == j by {
                if i < s.len() && j < s.len() {
                    assert(s[i].name == s[j].name);
                } else if i < s.len() {
                    assert(s[i].name == player.name@);
                } else if j < s.len() {
                    assert(s[j].name == player.name@);
                }
            }
        }
        Ok(Registration { player, secret })
    }

    /// A snapshot of every registered player, in the order of registration.
    pub fn list(&self) -> (r: Vec<Player>)
        ensures
            r@.len() == self@.len(),
            forall|i: int|
                0 <= i < r@.len() ==> #[trigger] r@[i].name@ == self@[i].name && r@[i].position
                    == self@[i].position,
    {
        let mut out: Vec<Player> = Vec::new();
        let mut i: usize = 0;
        while i < self.entries.len()
            invariant
                i <= self.entries@.len(),
                self@.len() == self.entries@.len(),
                out@.len() == i,
                forall|j: int|
                    0 <= j < i ==> #[trigger] out@[j].name@ == self@[j].name && out@[j].position
                        == self@[j].position,
            decreases self.entries.len() - i,
        {
            let p = &self.entries[i].player;
            out.push(Player { name: p.name.clone(), position: p.position });
            i = i + 1;
        }
        out
    }

    /// The player registered under `name`, or `NotFound`.
    pub fn get(&self, name: &String) -> (r: Result<Player, RegistryError>)
        requires
            self.wf(),
        ensures
            match r {
                Ok(p) => registered(self@, name@) && p.name@ == name@ && p.position
                    == self@[index_of(self@, name@)].position,
                Err(e) => !registered(self@, name@) && e == RegistryError::NotFound,
            },
    {
        match self.find(name) {
            Some(i) => {
                let p = &self.entries[i].player;
                Ok(Player { name: p.name.clone(), position: p.position })
            },
            None => Err(RegistryError::NotFound),
        }
    }

    /// Moves the player `name` to `position`, provided `secret` is the
    /// credential issued for it.
    ///
    /// Fails with `NotFound` when no such player exists and with
    /// `Unauthorized` when the credential does not match; either way
    /// nothing changes. On success only that player's position changes,
    /// and the updated player is returned.
    pub fn update_position(&mut self, name: &String, position: Position, secret: u64) -> (r: Result<
        Player,
        RegistryError,
    >)
        requires
            old(self).wf(),
        ensures
            final(self).wf(),
            final(self)@ == after_update(old(self)@, name@, position, secret),
            match r {
                Ok(p) => update_outcome(old(self)@, name@, secret) is Ok && p.name@ == name@
                    && p.position == position,
                Err(e) => update_outcome(old(self)@, name@, secret) == Err::<(), RegistryError>(
                    e,
                ),
            },
    {
        let i = match self.find(name) {
            Some(i) => i,
            None => return Err(RegistryError::NotFound),
        };
        if self.entries[i].secret != secret {
            return Err(RegistryError::Unauthorized);
        }
        let ghost s = old(self)@;
        let old_entry = &self.entries[i];
        let entry = Entry {
            player: Player { name: old_entry.player.name.clone(), position },
            secret: old_entry.secret,
        };
        let out = Player { name: entry.player.name.clone(), position };
        self.entries.set(i, entry);
        proof {
            assert(self@ =~= s.update(i as int, Record { position, ..s[i as int] }));
            assert forall|a: int, b: int|
                0 <= a < self@.len() && 0 <= b < self@.len() && #[trigger] self@[a].name
                    == #[trigger] self@[b].name implies a == b by {
                assert(s[a].name == self@[a].name);
                assert(s[b].name == self@[b].name);
            }
        }
        Ok(out)
    }
}

} // verus!
