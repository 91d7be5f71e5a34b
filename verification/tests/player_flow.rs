use ascending_core::duration::MyInstant;
use ascending_core::gametypes::{
    FtlType, GlobalKey, MapPosition, OnlineType, Position, Token, VitalTypes,
};
use ascending_core::players::{
    player_add_up_vital, player_give_vals, player_set_vital, player_take_vals, send_login_info,
    send_tls_reconnect,
};
use ascending_core::queries::{
    apply_slot_rows, load_player, save_player, PGAccount, PGCombat, PGGeneral, PGLocation,
    SlotRow,
};
use ascending_core::storage::{DataTaskToken, Packet, Storage};
use ascending_core::world::{
    Account, Combat, DeathType, Entity, GeneralData, Item, ItemSlots, ItemTimer,
    LoginHandshake, Money, Movement, PlayerEntity, ReloginCode, SocketInfo, Sprite, UserAccess,
    Vitals, World,
};

fn make_player(pos: Position, socket: Token) -> PlayerEntity {
    PlayerEntity {
        movement: Movement { pos, spawn: pos, dir: 0 },
        combat: Combat {
            vitals: Vitals { vital: [10, 10, 10], vitalmax: [25, 25, 25], vitalbuffs: [0, 0, 0] },
            level: 1,
            death_timer: MyInstant(0),
            death_type: DeathType::Alive,
        },
        money: Money { vals: 100 },
        socket: SocketInfo { id: socket },
        sprite: Sprite { id: 1 },
        general: GeneralData { resetcount: 0, levelexp: 0, pk: false },
        item_timer: ItemTimer { itemtimer: MyInstant(0) },
        account: Account { id: 7, username: String::from("ada"), passresetcode: None },
        user_access: UserAccess::Standard,
        online_type: OnlineType::Online,
        relogin_code: ReloginCode { code: Vec::new() },
        login_handshake: LoginHandshake { handshake: String::new() },
        equipment: ItemSlots { items: Vec::new() },
        inventory: ItemSlots { items: Vec::new() },
        storage: ItemSlots { items: Vec::new() },
    }
}

fn setup(money: u64) -> (World, Storage, GlobalKey, Token) {
    let id = GlobalKey(1);
    let socket = Token(3);
    let pos = Position { map: MapPosition { x: 0, y: 0, group: 0 }, x: 1, y: 1 };
    let mut p = make_player(pos, socket);
    p.money.vals = money;
    let mut world = World::new();
    world.spawn_entity(id, Entity::Player(p));
    (world, Storage::new(MyInstant(0)), id, socket)
}

fn player_money(world: &World, id: GlobalKey) -> u64 {
    match world.get_opt_entity(id) {
        Some(Entity::Player(p)) => p.money.vals,
        _ => panic!("player lost"),
    }
}

#[test]
fn give_vals_adds_and_alerts() {
    let (mut world, mut storage, id, socket) = setup(100);
    let left = player_give_vals(&mut world, &mut storage, id, 50).unwrap();
    assert_eq!(left, 0);
    assert_eq!(player_money(&world, id), 150);
    assert_eq!(storage.outbound.len(), 3);
    assert_eq!(storage.outbound[0].socket, socket);
    assert_eq!(storage.outbound[0].packet, Packet::Money { entity: id, vals: 150 });
    assert_eq!(storage.outbound[1].packet, Packet::CurrencyUpdate { entity: id });
    assert_eq!(
        storage.outbound[2].packet,
        Packet::FloatAlert { amount: 50, kind: FtlType::Money }
    );
}

#[test]
fn give_vals_saturates_at_top() {
    let (mut world, mut storage, id, _) = setup(u64::MAX - 10);
    let left = player_give_vals(&mut world, &mut storage, id, 50).unwrap();
    assert_eq!(left, 40);
    assert_eq!(player_money(&world, id), u64::MAX);
    assert_eq!(
        storage.outbound[2].packet,
        Packet::FloatAlert { amount: 10, kind: FtlType::Money }
    );
}

#[test]
fn give_vals_full_purse_changes_nothing() {
    let (mut world, mut storage, id, _) = setup(u64::MAX);
    let left = player_give_vals(&mut world, &mut storage, id, 50).unwrap();
    assert_eq!(left, 50);
    assert_eq!(player_money(&world, id), u64::MAX);
    assert_eq!(storage.outbound.len(), 0);
}

#[test]
fn give_vals_missing_entity_returns_amount() {
    let mut world = World::new();
    let mut storage = Storage::new(MyInstant(0));
    let left = player_give_vals(&mut world, &mut storage, GlobalKey(9), 50).unwrap();
    assert_eq!(left, 50);
}

#[test]
fn take_vals_subtracts_and_floors() {
    let (mut world, mut storage, id, _) = setup(100);
    player_take_vals(&mut world, &mut storage, id, 30).unwrap();
    assert_eq!(player_money(&world, id), 70);
    assert_eq!(
        storage.outbound[2].packet,
        Packet::FloatAlert { amount: 30, kind: FtlType::Money }
    );
    player_take_vals(&mut world, &mut storage, id, 500).unwrap();
    assert_eq!(player_money(&world, id), 0);
    assert_eq!(
        storage.outbound[5].packet,
        Packet::FloatAlert { amount: 70, kind: FtlType::Money }
    );
}

#[test]
fn set_vital_clamps_to_maximum() {
    let (mut world, mut storage, id, _) = setup(100);
    player_set_vital(&mut world, &mut storage, id, VitalTypes::Hp, 100).unwrap();
    match world.get_opt_entity(id) {
        Some(Entity::Player(p)) => assert_eq!(p.combat.vitals.vital, [25, 10, 10]),
        _ => panic!("player lost"),
    }
    assert_eq!(storage.data_tasks.len(), 1);
    match &storage.data_tasks[0].token {
        DataTaskToken::Vitals(mp) => assert_eq!(*mp, MapPosition { x: 0, y: 0, group: 0 }),
        _ => panic!("scope"),
    }
    assert_eq!(
        storage.data_tasks[0].packet,
        Packet::Vitals { entity: id, vital: [25, 10, 10], vitalmax: [25, 25, 25] }
    );
    player_set_vital(&mut world, &mut storage, id, VitalTypes::Mp, 5).unwrap();
    match world.get_opt_entity(id) {
        Some(Entity::Player(p)) => assert_eq!(p.combat.vitals.vital, [25, 5, 10]),
        _ => panic!("player lost"),
    }
}

#[test]
fn add_up_vital_floors_at_one() {
    let (mut world, _, id, _) = setup(100);
    match world.get_opt_entity(id) {
        Some(_) => {},
        None => panic!(),
    }
    // Buffed total positive.
    assert_eq!(player_add_up_vital(&mut world, id, 0).unwrap(), 25);
    // Push the total negative through the buff.
    let mut p = match world.get_opt_entity(id) {
        Some(Entity::Player(p)) => p.clone(),
        _ => panic!("player lost"),
    };
    p.combat.vitals.vitalmax[1] = -5;
    p.combat.vitals.vitalbuffs[1] = 2;
    world.despawn_entity(id);
    world.spawn_entity(id, Entity::Player(p));
    assert_eq!(player_add_up_vital(&mut world, id, 1).unwrap(), 1);
    // A missing entity counts one point.
    assert_eq!(player_add_up_vital(&mut world, GlobalKey(42), 0).unwrap(), 1);
}

#[test]
fn login_info_registers_and_notifies() {
    let (mut world, mut storage, id, _) = setup(100);
    let socket = Token(8);
    send_login_info(
        &mut world,
        &mut storage,
        id,
        String::from("SECRET-REDACTED"),
        String::from("SECRET-REDACTED"),
        socket,
        String::from("ada"),
    )
    .unwrap();
    assert_eq!(storage.player_names.last().unwrap().0, "ada");
    assert_eq!(storage.player_names.last().unwrap().1, id);
    assert_eq!(storage.player_code.last().unwrap().1, id);
    assert_eq!(storage.outbound.len(), 2);
    assert_eq!(storage.outbound[0].socket, socket);
    assert!(matches!(storage.outbound[0].packet, Packet::MyIndex { .. }));
    assert!(matches!(storage.outbound[1].packet, Packet::Codes { .. }));
    match world.get_opt_entity(id) {
        Some(Entity::Player(p)) => {
            assert_eq!(p.relogin_code.code.len(), 1);
            assert_eq!(p.login_handshake.handshake, "SECRET-REDACTED");
        },
        _ => panic!("player lost"),
    }
}

#[test]
fn tls_reconnect_requires_player() {
    let mut world = World::new();
    let mut storage = Storage::new(MyInstant(0));
    let r = send_tls_reconnect(
        &mut world,
        &mut storage,
        GlobalKey(9),
        String::from("SECRET-REDACTED"),
        String::from("SECRET-REDACTED"),
    );
    assert!(r.is_err());
    assert_eq!(storage.outbound.len(), 0);
    // The by-code lookup still records the attempt, as the login path does.
    assert_eq!(storage.player_code.len(), 1);
}

#[test]
fn slot_rows_overwrite_valid_slots() {
    let blank = Item { num: 0, val: 0, level: 0, data: [0; 5] };
    let mut items = vec![blank, blank, blank];
    let rows = vec![
        SlotRow { id: 1, num: 0, val: 0, level: 3, data: [1, 2, 3, 4, 5] },
        SlotRow { id: 7, num: 0, val: 0, level: 9, data: [0; 5] },
        SlotRow { id: -2, num: 0, val: 0, level: 9, data: [0; 5] },
    ];
    apply_slot_rows(&mut items, &rows);
    assert_eq!(items[1].level, 3);
    assert_eq!(items[1].data, [1, 2, 3, 4, 5]);
    assert_eq!(items[0].level, 0);
    assert_eq!(items[2].level, 0);
}

#[test]
fn save_and_load_roundtrip_fields() {
    let pos = Position { map: MapPosition { x: 2, y: 3, group: 0 }, x: 9, y: 9 };
    let mut p = make_player(pos, Token(3));
    p.sprite.id = 77;
    p.money.vals = 1234;
    p.item_timer.itemtimer = MyInstant(5000);
    p.combat.death_timer = MyInstant(0);
    let storage = Storage::new(MyInstant(1000));
    let rows = save_player(&storage, &p);
    assert_eq!(rows.account_id, 7);
    assert_eq!(rows.general.itemtimer, 4000);
    assert_eq!(rows.general.deathtimer, 0);
    assert_eq!(rows.combat.vital, [10, 10, 10]);
    assert_eq!(rows.location.pos, pos);
    assert!(!rows.combat.indeath);

    let mut p2 = make_player(Position { map: MapPosition { x: 0, y: 0, group: 0 }, x: 0, y: 0 }, Token(3));
    let account = PGAccount {
        username: String::from("ada"),
        passresetcode: None,
        useraccess: UserAccess::Monitor,
    };
    let general = PGGeneral {
        sprite: rows.general.sprite,
        money: rows.general.money,
        resetcount: 2,
        itemtimer: rows.general.itemtimer,
        deathtimer: rows.general.deathtimer,
    };
    let combat = PGCombat {
        indeath: false,
        level: 5,
        levelexp: 0,
        pk: true,
        vital: [1, 2, 3],
        vital_max: [4, 5, 6],
    };
    let location = PGLocation { spawn: pos, pos, dir: 2 };
    load_player(
        &mut p2,
        MyInstant(1000),
        7,
        &account,
        &general,
        &Vec::new(),
        &Vec::new(),
        &Vec::new(),
        &combat,
        &location,
    )
    .unwrap();
    assert_eq!(p2.sprite.id, 77);
    assert_eq!(p2.money.vals, 1234);
    assert_eq!(p2.item_timer.itemtimer.0, 5000);
    assert_eq!(p2.user_access, UserAccess::Monitor);
    assert_eq!(p2.combat.level, 5);
    assert_eq!(p2.combat.vitals.vital, [1, 2, 3]);
    assert_eq!(p2.movement.pos, pos);
    assert_eq!(p2.movement.dir, 2);
    assert_eq!(p2.general.resetcount, 2);
    assert!(p2.general.pk);
}
