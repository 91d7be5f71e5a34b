//! Process-wide service state passed by reference through every flow: the
//! region registry, the pending visibility tasks, login registries, the
//! reconnect grace timers, the shared tick, and the two outbound queues that
//! stand for the packet collaborator.

use vstd::prelude::*;

use crate::assoc::{al_map, al_unique, lemma_al_map_dom};
use crate::duration::MyInstant;
use crate::gametypes::{FtlType, GlobalKey, MapPosition, Position, Token, VITALS_MAX};
use crate::maps::GameMap;
use crate::tasks::MapSwitchTasks;

verus! {

/// Deadline for reclaiming a disconnected-but-not-expired player.
#[derive(Clone, Copy, Debug)]
pub struct PlayerConnectionTimer(pub MyInstant);

/// Payload handed to the outbound packet collaborator. The collaborator
/// encodes it; the core only fixes the values it must carry.
#[derive(Clone, Debug, PartialEq)]
pub enum Packet {
    Vitals { entity: GlobalKey, vital: [i32; VITALS_MAX], vitalmax: [i32; VITALS_MAX] },
    NpcSpawn { entity: GlobalKey, did_spawn: bool },
    PlayerSpawn { entity: GlobalKey, did_spawn: bool },
    MapItem {
        entity: GlobalKey,
        pos: Position,
        item: u32,
        ownerid: Option<GlobalKey>,
        did_spawn: bool,
    },
    MyIndex { entity: GlobalKey },
    Codes { code: String, handshake: String },
    TlsCodes { code: String, handshake: String },
    Money { entity: GlobalKey, vals: u64 },
    CurrencyUpdate { entity: GlobalKey },
    FloatAlert { amount: u64, kind: FtlType },
}

/// Scope a batched packet is addressed to.
#[derive(Clone, Copy, Debug, PartialEq, Eq, Structural)]
pub enum DataTaskToken {
    Vitals(MapPosition),
    NpcSpawnToEntity(Token),
    PlayerSpawnToEntity(Token),
    ItemLoadToEntity(Token),
}

/// One batched packet with its scope.
#[derive(Clone, Debug, PartialEq)]
pub struct DataTask {
    pub token: DataTaskToken,
    pub packet: Packet,
}

/// A packet addressed directly to one socket.
#[derive(Clone, Debug, PartialEq)]
pub struct OutMessage {
    pub socket: Token,
    pub packet: Packet,
}

/// Process-wide registries and queues.
#[derive(Debug)]
pub struct Storage {
    pub maps: Vec<(MapPosition, GameMap)>,
    pub map_switch_tasks: Vec<(GlobalKey, Vec<MapSwitchTasks>)>,
    pub player_names: Vec<(String, GlobalKey)>,
    pub player_code: Vec<(String, GlobalKey)>,
    pub player_timeout: Vec<(GlobalKey, PlayerConnectionTimer)>,
    pub gettick: MyInstant,
    pub data_tasks: Vec<DataTask>,
    pub outbound: Vec<OutMessage>,
}

impl Storage {
    /// Keyed registries hold each key at most once.
    pub open spec fn wf(self) -> bool {
        &&& al_unique(self.maps@)
        &&& al_unique(self.map_switch_tasks@)
    }

    /// The region registry as a map.
    pub open spec fn maps_map(self) -> Map<MapPosition, GameMap> {
        al_map(self.maps@)
    }

    /// The pending visibility tasks as a map.
    pub open spec fn tasks_map(self) -> Map<GlobalKey, Seq<MapSwitchTasks>> {
        Map::new(
            |k: GlobalKey| al_map(self.map_switch_tasks@).dom().contains(k),
            |k: GlobalKey| al_map(self.map_switch_tasks@)[k]@,
        )
    }

    pub open spec fn names_map(self) -> Map<String, GlobalKey> {
        al_map(self.player_names@)
    }

    pub open spec fn codes_map(self) -> Map<String, GlobalKey> {
        al_map(self.player_code@)
    }

    pub open spec fn timeout_map(self) -> Map<GlobalKey, PlayerConnectionTimer> {
        al_map(self.player_timeout@)
    }

    /// Every registered region satisfies the region invariant.
    pub open spec fn maps_wf(self) -> bool {
        forall|mp: MapPosition|
            self.maps_map().dom().contains(mp) ==> (#[trigger] self.maps_map()[mp]).wf()
    }

    /// Every registered region is set/grid consistent.
    pub open spec fn maps_consistent(self) -> bool {
        forall|mp: MapPosition|
            self.maps_map().dom().contains(mp) ==> (#[trigger] self.maps_map()[mp]).consistent()
    }

    /// A fresh store with a given starting tick.
    pub fn new(tick: MyInstant) -> (r: Storage)
        ensures
            r.wf(),
            r.maps@.len() == 0,
            r.map_switch_tasks@.len() == 0,
            r.player_names@.len() == 0,
            r.player_code@.len() == 0,
            r.player_timeout@.len() == 0,
            r.data_tasks@.len() == 0,
            r.outbound@.len() == 0,
            r.gettick == tick,
    {
        Storage {
            maps: Vec::new(),
            map_switch_tasks: Vec::new(),
            player_names: Vec::new(),
            player_code: Vec::new(),
            player_timeout: Vec::new(),
            gettick: tick,
            data_tasks: Vec::new(),
            outbound: Vec::new(),
        }
    }

    /// The index of the region registered under `mp`, if any.
    pub fn find_map_index(&self, mp: MapPosition) -> (r: Option<usize>)
        ensures
            match r {
                Some(i) => i < self.maps@.len() && self.maps@[i as int].0 == mp,
                None => !self.maps_map().dom().contains(mp),
            },
    {
        let mut i: usize = 0;
        while i < self.maps.len()
            invariant
                i <= self.maps@.len(),
                forall|j: int| 0 <= j < i ==> self.maps@[j].0 != mp,
            decreases self.maps@.len() - i,
        {
            if self.maps[i].0 == mp {
                return Some(i);
            }
            i += 1;
        }
        proof {
            lemma_al_map_dom(self.maps@, mp);
        }
        None
    }

    /// Registers a region under `mp`; the slot must be free.
    pub fn insert_map(&mut self, mp: MapPosition, map: GameMap)
        requires
            old(self).wf(),
            !old(self).maps_map().dom().contains(mp),
        ensures
            final(self).wf(),
            final(self).maps_map() == old(self).maps_map().insert(mp, map),
            final(self).map_switch_tasks == old(self).map_switch_tasks,
            final(self).player_names == old(self).player_names,
            final(self).player_code == old(self).player_code,
            final(self).player_timeout == old(self).player_timeout,
            final(self).gettick == old(self).gettick,
            final(self).data_tasks == old(self).data_tasks,
            final(self).outbound == old(self).outbound,
    {
        proof {
            lemma_al_map_dom(self.maps@, mp);
            crate::assoc::lemma_al_map_push(self.maps@, mp, map);
        }
        self.maps.push((mp, map));
        proof {
            let t = self.maps@;
            assert forall|p: int, q: int| 0 <= p < q < t.len() implies t[p].0 != t[q].0 by {
                if q == t.len() - 1 {
                    assert(t[p] == old(self).maps@[p]);
                }
            }
        }
    }

    /// The index of `id`'s pending-task entry, if any.
    pub fn find_task_index(&self, id: GlobalKey) -> (r: Option<usize>)
        ensures
            match r {
                Some(i) => i < self.map_switch_tasks@.len() && self.map_switch_tasks@[i as int].0
                    == id,
                None => !self.tasks_map().dom().contains(id),
            },
    {
        let mut i: usize = 0;
        while i < self.map_switch_tasks.len()
            invariant
                i <= self.map_switch_tasks@.len(),
                forall|j: int| 0 <= j < i ==> self.map_switch_tasks@[j].0 != id,
            decreases self.map_switch_tasks@.len() - i,
        {
            if self.map_switch_tasks[i].0 == id {
                return Some(i);
            }
            i += 1;
        }
        proof {
            lemma_al_map_dom(self.map_switch_tasks@, id);
        }
        None
    }
}

impl DataTaskToken {
    /// Queues one batched packet under this scope; nothing else moves.
    pub fn add_task(self, storage: &mut Storage, packet: Packet)
        ensures
            final(storage).data_tasks@ == old(storage).data_tasks@.push(
                DataTask { token: self, packet },
            ),
            final(storage).maps == old(storage).maps,
            final(storage).map_switch_tasks == old(storage).map_switch_tasks,
            final(storage).player_names == old(storage).player_names,
            final(storage).player_code == old(storage).player_code,
            final(storage).player_timeout == old(storage).player_timeout,
            final(storage).gettick == old(storage).gettick,
            final(storage).outbound == old(storage).outbound,
    {
        storage.data_tasks.push(DataTask { token: self, packet });
    }
}

/// Queues a packet addressed to one socket; nothing else moves.
pub fn send_direct(storage: &mut Storage, socket: Token, packet: Packet)
    ensures
        final(storage).outbound@ == old(storage).outbound@.push(OutMessage { socket, packet }),
        final(storage).maps == old(storage).maps,
        final(storage).map_switch_tasks == old(storage).map_switch_tasks,
        final(storage).player_names == old(storage).player_names,
        final(storage).player_code == old(storage).player_code,
        final(storage).player_timeout == old(storage).player_timeout,
        final(storage).gettick == old(storage).gettick,
        final(storage).data_tasks == old(storage).data_tasks,
{
    storage.outbound.push(OutMessage { socket, packet });
}

} // verus!
