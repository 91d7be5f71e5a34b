//! The entity directory: every live entity, keyed by its `GlobalKey`.
//!
//! Entities are a closed tagged type — player, NPC, or ground item — and the
//! directory holds each exactly once. The single worker mutates an entity by
//! taking its record out of the directory, rewriting it, and putting it
//! back, so no observer ever sees a half-updated record.

use vstd::prelude::*;

use crate::assoc::{al_map, al_unique, lemma_al_map_dom, lemma_al_map_index};
use crate::duration::MyInstant;
use crate::gametypes::{GlobalKey, Position, Token, VITALS_MAX};

verus! {

/// Where an entity stands and where it respawns.
#[derive(Clone, Copy, Debug)]
pub struct Movement {
    pub pos: Position,
    pub spawn: Position,
    pub dir: u8,
}

/// Current, maximum and buffed vital values, one slot per vital kind.
#[derive(Clone, Copy, Debug)]
pub struct Vitals {
    pub vital: [i32; VITALS_MAX],
    pub vitalmax: [i32; VITALS_MAX],
    pub vitalbuffs: [i32; VITALS_MAX],
}

/// Whether a combatant is alive, a spirit, or dead.
#[derive(Clone, Copy, Debug, PartialEq, Eq, Structural)]
pub enum DeathType {
    Alive,
    Spirit,
    Dead,
}

impl DeathType {
    pub open spec fn spec_is_dead(self) -> bool {
        self != DeathType::Alive
    }

    pub fn is_dead(self) -> (r: bool)
        ensures
            r == self.spec_is_dead(),
    {
        !(self == DeathType::Alive)
    }
}

/// Combat state of a player.
#[derive(Clone, Copy, Debug)]
pub struct Combat {
    pub vitals: Vitals,
    pub level: i32,
    pub death_timer: MyInstant,
    pub death_type: DeathType,
}

/// Currency held by a player.
#[derive(Clone, Copy, Debug)]
pub struct Money {
    pub vals: u64,
}

/// The connection a player entity is bound to.
#[derive(Clone, Copy, Debug)]
pub struct SocketInfo {
    pub id: Token,
}

/// Appearance sprite.
#[derive(Clone, Copy, Debug)]
pub struct Sprite {
    pub id: u16,
}

/// Miscellaneous persistent counters and flags.
#[derive(Clone, Copy, Debug)]
pub struct GeneralData {
    pub resetcount: i16,
    pub levelexp: u64,
    pub pk: bool,
}

/// Deadline after which a consumed item may act again.
#[derive(Clone, Copy, Debug)]
pub struct ItemTimer {
    pub itemtimer: MyInstant,
}

/// Access level of an account.
#[derive(Clone, Copy, Debug, PartialEq, Eq, Structural)]
pub enum UserAccess {
    Standard,
    Monitor,
    Admin,
}

/// Account identity as the persistence collaborator knows it.
#[derive(Clone, Debug)]
pub struct Account {
    pub id: u128,
    pub username: String,
    pub passresetcode: Option<String>,
}

/// One equipment, inventory or bank slot.
#[derive(Clone, Copy, Debug)]
pub struct Item {
    pub num: u32,
    pub val: u16,
    pub level: u8,
    pub data: [i16; 5],
}

/// A fixed bank of item slots.
#[derive(Clone, Debug)]
pub struct ItemSlots {
    pub items: Vec<Item>,
}

/// One-time relogin codes registered for a player.
#[derive(Clone, Debug)]
pub struct ReloginCode {
    pub code: Vec<String>,
}

/// Handshake token the client must echo on login.
#[derive(Clone, Debug)]
pub struct LoginHandshake {
    pub handshake: String,
}

/// How far a player's session has progressed.
#[derive(Clone, Debug)]
pub struct PlayerEntity {
    pub movement: Movement,
    pub combat: Combat,
    pub money: Money,
    pub socket: SocketInfo,
    pub sprite: Sprite,
    pub general: GeneralData,
    pub item_timer: ItemTimer,
    pub account: Account,
    pub user_access: UserAccess,
    pub online_type: crate::gametypes::OnlineType,
    pub relogin_code: ReloginCode,
    pub login_handshake: LoginHandshake,
    pub equipment: ItemSlots,
    pub inventory: ItemSlots,
    pub storage: ItemSlots,
}

/// A non-player combatant; the core only tracks where it stands.
#[derive(Clone, Copy, Debug)]
pub struct NpcEntity {
    pub movement: Movement,
}

/// What a ground item shows to a client.
#[derive(Clone, Copy, Debug)]
pub struct MapItemGeneral {
    pub pos: Position,
    pub item: u32,
    pub ownerid: Option<GlobalKey>,
}

/// An item lying on a map.
#[derive(Clone, Copy, Debug)]
pub struct MapItemEntity {
    pub general: MapItemGeneral,
}

/// The closed set of entity kinds.
#[derive(Clone, Debug)]
pub enum Entity {
    Player(PlayerEntity),
    Npc(NpcEntity),
    MapItem(MapItemEntity),
}

/// The global lookup from entity id to its record.
#[derive(Debug)]
pub struct World {
    pub entities: Vec<(GlobalKey, Entity)>,
}

impl World {
    /// Each id owns at most one record.
    pub open spec fn wf(self) -> bool {
        al_unique(self.entities@)
    }

    /// The directory as a map.
    pub open spec fn entity_map(self) -> Map<GlobalKey, Entity> {
        al_map(self.entities@)
    }

    pub open spec fn has_entity(self, id: GlobalKey) -> bool {
        self.entity_map().dom().contains(id)
    }

    pub open spec fn is_player(self, id: GlobalKey) -> bool {
        self.has_entity(id) && self.entity_map()[id] is Player
    }

    /// The player record under `id`.
    pub open spec fn player_of(self, id: GlobalKey) -> PlayerEntity
        recommends
            self.is_player(id),
    {
        self.entity_map()[id]->Player_0
    }

    /// An empty directory.
    pub fn new() -> (r: World)
        ensures
            r.wf(),
            r.entities@.len() == 0,
    {
        World { entities: Vec::new() }
    }

    /// The index of `id`'s record, if any.
    pub fn find_index(&self, id: GlobalKey) -> (r: Option<usize>)
        ensures
            match r {
                Some(i) => i < self.entities@.len() && self.entities@[i as int].0 == id,
                None => !self.has_entity(id),
            },
    {
        let mut i: usize = 0;
        while i < self.entities.len()
            invariant
                i <= self.entities@.len(),
                forall|j: int| 0 <= j < i ==> self.entities@[j].0 != id,
            decreases self.entities@.len() - i,
        {
            if self.entities[i].0 == id {
                return Some(i);
            }
            i += 1;
        }
        proof {
            lemma_al_map_dom(self.entities@, id);
        }
        None
    }

    /// Whether any entity lives under `id`.
    pub fn contains_entity(&self, id: GlobalKey) -> (r: bool)
        requires
            self.wf(),
        ensures
            r == self.has_entity(id),
    {
        match self.find_index(id) {
            Some(i) => {
                proof {
                    lemma_al_map_index(self.entities@, i as int);
                }
                true
            },
            None => false,
        }
    }

    /// A shared view of the record under `id`, if any.
    pub fn get_opt_entity(&self, id: GlobalKey) -> (r: Option<&Entity>)
        requires
            self.wf(),
        ensures
            match r {
                Some(e) => self.has_entity(id) && *e == self.entity_map()[id],
                None => !self.has_entity(id),
            },
    {
        match self.find_index(id) {
            Some(i) => {
                proof {
                    lemma_al_map_index(self.entities@, i as int);
                }
                Some(&self.entities[i].1)
            },
            None => None,
        }
    }

    /// Registers a fresh entity; no record may hold its id yet.
    pub fn spawn_entity(&mut self, id: GlobalKey, e: Entity)
        requires
            old(self).wf(),
            !old(self).has_entity(id),
        ensures
            final(self).wf(),
            final(self).entity_map() == old(self).entity_map().insert(id, e),
    {
        proof {
            lemma_al_map_dom(self.entities@, id);
            crate::assoc::lemma_al_map_push(self.entities@, id, e);
        }
        self.entities.push((id, e));
        proof {
            let t = self.entities@;
            assert forall|p: int, q: int| 0 <= p < q < t.len() implies t[p].0 != t[q].0 by {
                if q == t.len() - 1 {
                    assert(t[p] == old(self).entities@[p]);
                }
            }
        }
    }

    /// Drops the record under `id`, if any.
    pub fn despawn_entity(&mut self, id: GlobalKey)
        requires
            old(self).wf(),
        ensures
            final(self).wf(),
            final(self).entity_map() == old(self).entity_map().remove(id),
    {
        match self.find_index(id) {
            Some(i) => {
                proof {
                    crate::assoc::lemma_al_map_remove(self.entities@, i as int);
                }
                self.entities.remove(i);
            },
            None => {
                proof {
                    lemma_al_map_dom(self.entities@, id);
                    assert(self.entity_map().remove(id) =~= self.entity_map());
                }
            },
        }
    }
}

} // verus!
