use ascending_core::duration::MyInstant;
use ascending_core::gametypes::{GlobalKey, MapPosition, OnlineType, Position};
use ascending_core::maps::GameMap;
use ascending_core::players::player_switch_maps;
use ascending_core::players::player_swap_pos;
use ascending_core::storage::Storage;
use ascending_core::world::{
    Account, Combat, DeathType, Entity, GeneralData, ItemSlots, ItemTimer, LoginHandshake,
    Money, Movement, PlayerEntity, ReloginCode, SocketInfo, Sprite, UserAccess, Vitals, World,
};

fn make_player(pos: Position) -> PlayerEntity {
    PlayerEntity {
        movement: Movement { pos, spawn: pos, dir: 0 },
        combat: Combat {
            vitals: Vitals { vital: [10, 10, 10], vitalmax: [25, 25, 25], vitalbuffs: [0, 0, 0] },
            level: 1,
            death_timer: MyInstant(0),
            death_type: DeathType::Alive,
        },
        money: Money { vals: 100 },
        socket: SocketInfo { id: ascending_core::gametypes::Token(2) },
        sprite: Sprite { id: 1 },
        general: GeneralData { resetcount: 0, levelexp: 0, pk: false },
        item_timer: ItemTimer { itemtimer: MyInstant(0) },
        account: Account { id: 7, username: String::from("ada"), passresetcode: None },
        user_access: UserAccess::Standard,
        online_type: OnlineType::Online,
        relogin_code: ReloginCode { code: Vec::new() },
        login_handshake: LoginHandshake { handshake: String::new() },
        equipment: ItemSlots { items: Vec::new() },
        inventory: ItemSlots { items: Vec::new() },
        storage: ItemSlots { items: Vec::new() },
    }
}

fn map_ref(storage: &Storage, mp: MapPosition) -> &GameMap {
    for e in storage.maps.iter() {
        if e.0 == mp {
            return &e.1;
        }
    }
    panic!("region not registered");
}

fn map_mut(storage: &mut Storage, mp: MapPosition) -> &mut GameMap {
    for e in storage.maps.iter_mut() {
        if e.0 == mp {
            return &mut e.1;
        }
    }
    panic!("region not registered");
}

fn grid_has(m: &GameMap, id: GlobalKey) -> bool {
    m.grid.iter().any(|e| e.id == id)
}

fn grid_at(m: &GameMap, id: GlobalKey, x: i32, y: i32) -> bool {
    m.grid.iter().any(|e| e.id == id && e.x == x && e.y == y)
}

#[test]
fn grid_and_sets_move_together() {
    let mut m = GameMap::new();
    let id = GlobalKey(5);
    let pos = Position { map: MapPosition { x: 0, y: 0, group: 0 }, x: 3, y: 4 };
    m.add_player(id);
    m.add_entity_to_grid(id, pos);
    assert!(m.players.contains(&id));
    assert!(grid_at(&m, id, 3, 4));
    m.remove_player(id);
    m.remove_entity_from_grid(id);
    assert!(!m.players.contains(&id));
    assert!(!grid_has(&m, id));
}

#[test]
fn grid_never_indexes_twice() {
    let mut m = GameMap::new();
    let id = GlobalKey(5);
    let mp = MapPosition { x: 0, y: 0, group: 0 };
    m.add_entity_to_grid(id, Position { map: mp, x: 1, y: 1 });
    m.add_entity_to_grid(id, Position { map: mp, x: 2, y: 2 });
    assert_eq!(m.grid.iter().filter(|e| e.id == id).count(), 1);
    assert!(grid_at(&m, id, 2, 2));
}

#[test]
fn switch_maps_moves_exactly_once() {
    let a = MapPosition { x: 0, y: 0, group: 0 };
    let b = MapPosition { x: 1, y: 0, group: 0 };
    let apos = Position { map: a, x: 5, y: 5 };
    let bpos = Position { map: b, x: 7, y: 8 };
    let id = GlobalKey(1);

    let mut world = World::new();
    world.spawn_entity(id, Entity::Player(make_player(apos)));
    let mut storage = Storage::new(MyInstant(0));
    storage.insert_map(a, GameMap::new());
    storage.insert_map(b, GameMap::new());
    {
        let ma = map_mut(&mut storage, a);
        ma.add_player(id);
        ma.add_entity_to_grid(id, apos);
    }

    let r = player_switch_maps(&mut world, &mut storage, id, bpos).unwrap();
    assert_eq!(r, (bpos, true));
    let ma = map_ref(&storage, a);
    let mb = map_ref(&storage, b);
    assert!(!ma.players.contains(&id));
    assert!(!grid_has(ma, id));
    assert!(mb.players.contains(&id));
    assert!(grid_at(mb, id, 7, 8));
    match world.get_opt_entity(id) {
        Some(Entity::Player(p)) => assert_eq!(p.movement.pos, bpos),
        _ => panic!("player lost"),
    }
}

#[test]
fn switch_maps_aborts_when_destination_missing() {
    let a = MapPosition { x: 0, y: 0, group: 0 };
    let b = MapPosition { x: 1, y: 0, group: 0 };
    let apos = Position { map: a, x: 5, y: 5 };
    let bpos = Position { map: b, x: 7, y: 8 };
    let id = GlobalKey(1);

    let mut world = World::new();
    world.spawn_entity(id, Entity::Player(make_player(apos)));
    let mut storage = Storage::new(MyInstant(0));
    storage.insert_map(a, GameMap::new());
    {
        let ma = map_mut(&mut storage, a);
        ma.add_player(id);
        ma.add_entity_to_grid(id, apos);
    }

    let r = player_switch_maps(&mut world, &mut storage, id, bpos).unwrap();
    assert_eq!(r, (apos, false));
    let ma = map_ref(&storage, a);
    assert!(ma.players.contains(&id));
    assert!(grid_at(ma, id, 5, 5));
    match world.get_opt_entity(id) {
        Some(Entity::Player(p)) => assert_eq!(p.movement.pos, apos),
        _ => panic!("player lost"),
    }
}

#[test]
fn switch_maps_missing_entity_errors() {
    let mut world = World::new();
    let mut storage = Storage::new(MyInstant(0));
    let bpos = Position { map: MapPosition { x: 1, y: 0, group: 0 }, x: 7, y: 8 };
    let r = player_switch_maps(&mut world, &mut storage, GlobalKey(9), bpos);
    assert!(r.is_err());
}

#[test]
fn swap_pos_reindexes_within_region() {
    let a = MapPosition { x: 0, y: 0, group: 0 };
    let p1 = Position { map: a, x: 5, y: 5 };
    let p2 = Position { map: a, x: 6, y: 5 };
    let id = GlobalKey(1);

    let mut world = World::new();
    world.spawn_entity(id, Entity::Player(make_player(p1)));
    let mut storage = Storage::new(MyInstant(0));
    storage.insert_map(a, GameMap::new());
    {
        let ma = map_mut(&mut storage, a);
        ma.add_player(id);
        ma.add_entity_to_grid(id, p1);
    }

    let r = player_swap_pos(&mut world, &mut storage, id, p2).unwrap();
    assert_eq!(r, p2);
    let ma = map_ref(&storage, a);
    assert!(grid_at(ma, id, 6, 5));
    assert!(!grid_at(ma, id, 5, 5));
    assert!(ma.players.contains(&id));
    match world.get_opt_entity(id) {
        Some(Entity::Player(p)) => assert_eq!(p.movement.pos, p2),
        _ => panic!("player lost"),
    }
}

#[test]
fn swap_pos_same_position_is_noop() {
    let a = MapPosition { x: 0, y: 0, group: 0 };
    let p1 = Position { map: a, x: 5, y: 5 };
    let id = GlobalKey(1);
    let mut world = World::new();
    world.spawn_entity(id, Entity::Player(make_player(p1)));
    let mut storage = Storage::new(MyInstant(0));
    storage.insert_map(a, GameMap::new());
    {
        let ma = map_mut(&mut storage, a);
        ma.add_player(id);
        ma.add_entity_to_grid(id, p1);
    }
    let r = player_swap_pos(&mut world, &mut storage, id, p1).unwrap();
    assert_eq!(r, p1);
    assert!(grid_at(map_ref(&storage, a), id, 5, 5));
}
