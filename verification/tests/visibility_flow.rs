use ascending_core::duration::MyInstant;
use ascending_core::gametypes::{GlobalKey, MapPosition, OnlineType, Position, Token};
use ascending_core::maps::GameMap;
use ascending_core::players::player_switch_maps;
use ascending_core::storage::{DataTaskToken, Packet, Storage};
use ascending_core::tasks::{init_data_lists, process_data_lists, MapSwitchTasks};
use ascending_core::world::{
    Account, Combat, DeathType, Entity, GeneralData, ItemSlots, ItemTimer, LoginHandshake,
    Money, Movement, NpcEntity, PlayerEntity, ReloginCode, SocketInfo, Sprite, UserAccess,
    Vitals, World,
};

fn make_player(pos: Position, socket: Token) -> PlayerEntity {
    PlayerEntity {
        movement: Movement { pos, spawn: pos, dir: 0 },
        combat: Combat {
            vitals: Vitals { vital: [10, 10, 10], vitalmax: [25, 25, 25], vitalbuffs: [0, 0, 0] },
            level: 1,
            death_timer: MyInstant(0),
            death_type: DeathType::Alive,
        },
        money: Money { vals: 100 },
        socket: SocketInfo { id: socket },
        sprite: Sprite { id: 1 },
        general: GeneralData { resetcount: 0, levelexp: 0, pk: false },
        item_timer: ItemTimer { itemtimer: MyInstant(0) },
        account: Account { id: 7, username: String::from("ada"), passresetcode: None },
        user_access: UserAccess::Standard,
        online_type: OnlineType::Online,
        relogin_code: ReloginCode { code: Vec::new() },
        login_handshake: LoginHandshake { handshake: String::new() },
        equipment: ItemSlots { items: Vec::new() },
        inventory: ItemSlots { items: Vec::new() },
        storage: ItemSlots { items: Vec::new() },
    }
}

fn map_mut(storage: &mut Storage, mp: MapPosition) -> &mut GameMap {
    for e in storage.maps.iter_mut() {
        if e.0 == mp {
            return &mut e.1;
        }
    }
    panic!("region not registered");
}

fn npc_spawn_entities(storage: &Storage, socket: Token) -> Vec<GlobalKey> {
    storage
        .data_tasks
        .iter()
        .filter_map(|t| match (&t.token, &t.packet) {
            (DataTaskToken::NpcSpawnToEntity(s), Packet::NpcSpawn { entity, .. }) if *s == socket => {
                Some(*entity)
            },
            _ => None,
        })
        .collect()
}

fn pending_entry<'a>(storage: &'a Storage, user: GlobalKey) -> Option<&'a Vec<MapSwitchTasks>> {
    storage.map_switch_tasks.iter().find(|e| e.0 == user).map(|e| &e.1)
}

/// Two regions far enough apart that neither sees the other, a switch, and
/// one drain pass: exactly the destination's five NPCs are announced.
#[test]
fn switch_announces_only_new_npcs() {
    let a = MapPosition { x: 0, y: 0, group: 0 };
    let b = MapPosition { x: 10, y: 0, group: 0 };
    let apos = Position { map: a, x: 5, y: 5 };
    let bpos = Position { map: b, x: 2, y: 2 };
    let user = GlobalKey(1);
    let socket = Token(4);

    let mut world = World::new();
    world.spawn_entity(user, Entity::Player(make_player(apos, socket)));
    let mut storage = Storage::new(MyInstant(0));
    storage.insert_map(a, GameMap::new());
    storage.insert_map(b, GameMap::new());
    {
        let ma = map_mut(&mut storage, a);
        ma.add_player(user);
        ma.add_entity_to_grid(user, apos);
    }
    for n in 0..3u64 {
        let id = GlobalKey(100 + n);
        world.spawn_entity(
            id,
            Entity::Npc(NpcEntity { movement: Movement { pos: apos, spawn: apos, dir: 0 } }),
        );
        let ma = map_mut(&mut storage, a);
        ma.add_npc(id);
        ma.add_entity_to_grid(id, apos);
    }
    for n in 0..5u64 {
        let id = GlobalKey(200 + n);
        world.spawn_entity(
            id,
            Entity::Npc(NpcEntity { movement: Movement { pos: bpos, spawn: bpos, dir: 0 } }),
        );
        let mb = map_mut(&mut storage, b);
        mb.add_npc(id);
        mb.add_entity_to_grid(id, bpos);
    }

    let r = player_switch_maps(&mut world, &mut storage, user, bpos).unwrap();
    assert_eq!(r, (bpos, true));
    init_data_lists(&mut world, &mut storage, user, Some(a)).unwrap();
    process_data_lists(&mut world, &mut storage).unwrap();

    let announced = npc_spawn_entities(&storage, socket);
    assert_eq!(announced.len(), 5);
    for n in 0..5u64 {
        assert!(announced.contains(&GlobalKey(200 + n)));
    }
    for n in 0..3u64 {
        assert!(!announced.contains(&GlobalKey(100 + n)));
    }
}

/// A pending, undrained id that is still visible survives a recomputation
/// of the announce lists.
#[test]
fn pending_ids_fold_forward() {
    let b = MapPosition { x: 10, y: 0, group: 0 };
    let bpos = Position { map: b, x: 2, y: 2 };
    let user = GlobalKey(1);
    let socket = Token(4);

    let mut world = World::new();
    world.spawn_entity(user, Entity::Player(make_player(bpos, socket)));
    let mut storage = Storage::new(MyInstant(0));
    storage.insert_map(b, GameMap::new());
    {
        let mb = map_mut(&mut storage, b);
        mb.add_player(user);
        mb.add_entity_to_grid(user, bpos);
    }
    for n in 0..5u64 {
        let id = GlobalKey(200 + n);
        world.spawn_entity(
            id,
            Entity::Npc(NpcEntity { movement: Movement { pos: bpos, spawn: bpos, dir: 0 } }),
        );
        let mb = map_mut(&mut storage, b);
        mb.add_npc(id);
        mb.add_entity_to_grid(id, bpos);
    }

    init_data_lists(&mut world, &mut storage, user, None).unwrap();
    // Recompute before any drain: the five NPCs are now previously visible,
    // but still pending, so they must be announced again.
    init_data_lists(&mut world, &mut storage, user, Some(b)).unwrap();
    let entry = pending_entry(&storage, user).expect("entry pending");
    match &entry[1] {
        MapSwitchTasks::Npc(ids) => {
            assert_eq!(ids.len(), 5);
            for n in 0..5u64 {
                assert!(ids.contains(&GlobalKey(200 + n)));
            }
        },
        _ => panic!("batch shape"),
    }
}

/// With one active pending player the per-list quota is 250: a backlog of
/// 260 NPCs drains 250 in the first pass and the remaining 10 in the next,
/// after which the entry is gone.
#[test]
fn drain_respects_quota() {
    let b = MapPosition { x: 10, y: 0, group: 0 };
    let bpos = Position { map: b, x: 2, y: 2 };
    let user = GlobalKey(1);
    let socket = Token(4);

    let mut world = World::new();
    world.spawn_entity(user, Entity::Player(make_player(bpos, socket)));
    let mut storage = Storage::new(MyInstant(0));
    storage.insert_map(b, GameMap::new());
    {
        let mb = map_mut(&mut storage, b);
        mb.add_player(user);
        mb.add_entity_to_grid(user, bpos);
    }
    for n in 0..260u64 {
        let id = GlobalKey(1000 + n);
        world.spawn_entity(
            id,
            Entity::Npc(NpcEntity { movement: Movement { pos: bpos, spawn: bpos, dir: 0 } }),
        );
        let mb = map_mut(&mut storage, b);
        mb.add_npc(id);
        mb.add_entity_to_grid(id, bpos);
    }

    init_data_lists(&mut world, &mut storage, user, None).unwrap();
    process_data_lists(&mut world, &mut storage).unwrap();
    assert_eq!(npc_spawn_entities(&storage, socket).len(), 250);
    let entry = pending_entry(&storage, user).expect("entry kept");
    match &entry[1] {
        MapSwitchTasks::Npc(ids) => assert_eq!(ids.len(), 10),
        _ => panic!("batch shape"),
    }
    process_data_lists(&mut world, &mut storage).unwrap();
    assert_eq!(npc_spawn_entities(&storage, socket).len(), 260);
    assert!(pending_entry(&storage, user).is_none());
}

/// Draining a player whose lists are already empty sends nothing and drops
/// the entry from the pending set.
#[test]
fn empty_queue_drain_is_noop_and_clears() {
    let b = MapPosition { x: 10, y: 0, group: 0 };
    let bpos = Position { map: b, x: 2, y: 2 };
    let user = GlobalKey(1);
    let socket = Token(4);

    let mut world = World::new();
    world.spawn_entity(user, Entity::Player(make_player(bpos, socket)));
    let mut storage = Storage::new(MyInstant(0));
    storage.map_switch_tasks.push((
        user,
        vec![
            MapSwitchTasks::Player(Vec::new()),
            MapSwitchTasks::Npc(Vec::new()),
            MapSwitchTasks::Items(Vec::new()),
        ],
    ));

    process_data_lists(&mut world, &mut storage).unwrap();
    assert_eq!(storage.data_tasks.len(), 0);
    assert!(pending_entry(&storage, user).is_none());
}

/// An id despawned between enqueue and drain is skipped silently.
#[test]
fn despawned_ids_skip_silently() {
    let b = MapPosition { x: 10, y: 0, group: 0 };
    let bpos = Position { map: b, x: 2, y: 2 };
    let user = GlobalKey(1);
    let socket = Token(4);

    let mut world = World::new();
    world.spawn_entity(user, Entity::Player(make_player(bpos, socket)));
    let mut storage = Storage::new(MyInstant(0));
    storage.insert_map(b, GameMap::new());
    {
        let mb = map_mut(&mut storage, b);
        mb.add_player(user);
        mb.add_entity_to_grid(user, bpos);
    }
    for n in 0..2u64 {
        let id = GlobalKey(300 + n);
        world.spawn_entity(
            id,
            Entity::Npc(NpcEntity { movement: Movement { pos: bpos, spawn: bpos, dir: 0 } }),
        );
        let mb = map_mut(&mut storage, b);
        mb.add_npc(id);
        mb.add_entity_to_grid(id, bpos);
    }
    init_data_lists(&mut world, &mut storage, user, None).unwrap();
    world.despawn_entity(GlobalKey(300));
    process_data_lists(&mut world, &mut storage).unwrap();
    let announced = npc_spawn_entities(&storage, socket);
    assert_eq!(announced, vec![GlobalKey(301)]);
}

/// A pending entry whose player has despawned is dropped whole, with
/// nothing sent.
#[test]
fn vanished_player_entry_is_dropped() {
    let user = GlobalKey(1);
    let mut world = World::new();
    let mut storage = Storage::new(MyInstant(0));
    storage.map_switch_tasks.push((
        user,
        vec![
            MapSwitchTasks::Player(Vec::new()),
            MapSwitchTasks::Npc(vec![GlobalKey(5), GlobalKey(6)]),
            MapSwitchTasks::Items(Vec::new()),
        ],
    ));
    process_data_lists(&mut world, &mut storage).unwrap();
    assert_eq!(storage.data_tasks.len(), 0);
    assert!(pending_entry(&storage, user).is_none());
}

/// Ground items drain with their full load payload.
#[test]
fn item_batches_carry_item_payload() {
    let b = MapPosition { x: 10, y: 0, group: 0 };
    let bpos = Position { map: b, x: 2, y: 2 };
    let ipos = Position { map: b, x: 3, y: 3 };
    let user = GlobalKey(1);
    let item_id = GlobalKey(500);
    let socket = Token(4);

    let mut world = World::new();
    world.spawn_entity(user, Entity::Player(make_player(bpos, socket)));
    world.spawn_entity(
        item_id,
        Entity::MapItem(ascending_core::world::MapItemEntity {
            general: ascending_core::world::MapItemGeneral {
                pos: ipos,
                item: 42,
                ownerid: Some(user),
            },
        }),
    );
    let mut storage = Storage::new(MyInstant(0));
    storage.insert_map(b, GameMap::new());
    {
        let mb = map_mut(&mut storage, b);
        mb.add_player(user);
        mb.add_entity_to_grid(user, bpos);
        mb.add_item(item_id);
        mb.add_entity_to_grid(item_id, ipos);
    }
    init_data_lists(&mut world, &mut storage, user, None).unwrap();
    process_data_lists(&mut world, &mut storage).unwrap();
    let found = storage.data_tasks.iter().any(|t| {
        matches!(&t.token, DataTaskToken::ItemLoadToEntity(s) if *s == socket)
            && t.packet
                == Packet::MapItem {
                    entity: item_id,
                    pos: ipos,
                    item: 42,
                    ownerid: Some(user),
                    did_spawn: false,
                }
    });
    assert!(found);
}
