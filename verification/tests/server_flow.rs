use ascending_core::duration::MyInstant;
use ascending_core::gametypes::{ClientState, GlobalKey, MapPosition, OnlineType, Position, Token};
use ascending_core::maps::GameMap;
use ascending_core::players::{reconnect_player, RECONNECT_GRACE_MS};
use ascending_core::server::{AcceptDecision, Server};
use ascending_core::storage::Storage;
use ascending_core::world::{
    Account, Combat, DeathType, Entity, GeneralData, ItemSlots, ItemTimer, LoginHandshake,
    Money, Movement, PlayerEntity, ReloginCode, SocketInfo, Sprite, UserAccess, Vitals, World,
};

fn make_player(pos: Position, socket: Token) -> PlayerEntity {
    PlayerEntity {
        movement: Movement { pos, spawn: pos, dir: 0 },
        combat: Combat {
            vitals: Vitals { vital: [10, 10, 10], vitalmax: [25, 25, 25], vitalbuffs: [0, 0, 0] },
            level: 1,
            death_timer: MyInstant(0),
            death_type: DeathType::Alive,
        },
        money: Money { vals: 100 },
        socket: SocketInfo { id: socket },
        sprite: Sprite { id: 1 },
        general: GeneralData { resetcount: 0, levelexp: 0, pk: false },
        item_timer: ItemTimer { itemtimer: MyInstant(0) },
        account: Account { id: 7, username: String::from("ada"), passresetcode: None },
        user_access: UserAccess::Standard,
        online_type: OnlineType::Offline,
        relogin_code: ReloginCode { code: Vec::new() },
        login_handshake: LoginHandshake { handshake: String::new() },
        equipment: ItemSlots { items: Vec::new() },
        inventory: ItemSlots { items: Vec::new() },
        storage: ItemSlots { items: Vec::new() },
    }
}

#[test]
fn pool_rejects_fourth_accept_with_capacity_three() {
    let mut server = Server::new(5);
    assert_eq!(server.tokens.len(), 3);
    let d1 = server.accept(false, String::from("10.0.0.1:1"));
    let d2 = server.accept(false, String::from("10.0.0.2:2"));
    let d3 = server.accept(true, String::from("10.0.0.3:3"));
    assert!(matches!(d1, AcceptDecision::Admitted(_)));
    assert!(matches!(d2, AcceptDecision::Admitted(_)));
    assert!(matches!(d3, AcceptDecision::Admitted(_)));
    assert_eq!(server.clients.len(), 3);
    assert_eq!(server.tokens.len(), 0);
    let d4 = server.accept(false, String::from("10.0.0.4:4"));
    assert_eq!(d4, AcceptDecision::NoTokens);
    assert_eq!(server.clients.len(), 3);
    assert_eq!(server.tokens.len(), 0);
}

#[test]
fn tokens_in_use_never_exceed_capacity() {
    let mut server = Server::new(6);
    let cap = server.capacity;
    for round in 0..3 {
        for i in 0..5 {
            let _ = server.accept(false, format!("10.0.{}.{}:7", round, i));
            assert!(server.clients.len() <= cap);
            assert_eq!(server.clients.len() + server.tokens.len(), cap);
        }
        let taken: Vec<Token> = server.clients.iter().map(|e| e.0).collect();
        for t in taken {
            server.remove(t);
            assert_eq!(server.clients.len() + server.tokens.len(), cap);
        }
    }
}

#[test]
fn removed_token_is_reused_once() {
    let mut server = Server::new(4);
    let d1 = server.accept(false, String::from("a:1"));
    let t1 = match d1 {
        AcceptDecision::Admitted(t) => t,
        _ => panic!("admit expected"),
    };
    server.remove(t1);
    assert_eq!(server.tokens[0], t1);
    let d2 = server.accept(false, String::from("a:2"));
    assert_eq!(d2, AcceptDecision::Admitted(t1));
}

#[test]
fn remove_unknown_token_is_noop() {
    let mut server = Server::new(4);
    let before = server.tokens.len();
    server.remove(Token(99));
    assert_eq!(server.tokens.len(), before);
    assert_eq!(server.clients.len(), 0);
}

#[test]
fn closed_or_vanished_sessions_are_evicted() {
    let mut server = Server::new(4);
    let t = match server.accept(false, String::from("a:1")) {
        AcceptDecision::Admitted(t) => t,
        _ => panic!("admit expected"),
    };
    server.finish_client_event(t, Some(ClientState::Open));
    assert_eq!(server.clients.len(), 1);
    server.finish_client_event(t, Some(ClientState::Closed));
    assert_eq!(server.clients.len(), 0);
    server.finish_client_event(Token(77), None);
    assert_eq!(server.clients.len(), 0);
}

#[test]
fn reconnect_rebinds_and_unindexes() {
    let a = MapPosition { x: 0, y: 0, group: 0 };
    let apos = Position { map: a, x: 5, y: 5 };
    let id = GlobalKey(1);

    let mut world = World::new();
    world.spawn_entity(id, Entity::Player(make_player(apos, Token(9))));
    let mut storage = Storage::new(MyInstant(1000));
    storage.insert_map(a, GameMap::new());
    for e in storage.maps.iter_mut() {
        if e.0 == a {
            e.1.add_player(id);
            e.1.add_entity_to_grid(id, apos);
        }
    }
    let mut server = Server::new(4);
    let fresh = match server.accept(true, String::from("b:2")) {
        AcceptDecision::Admitted(t) => t,
        _ => panic!("admit expected"),
    };

    reconnect_player(&mut world, &mut storage, &mut server, id, fresh).unwrap();

    let linked = server
        .clients
        .iter()
        .find(|e| e.0 == fresh)
        .map(|e| e.1.entity)
        .expect("session present");
    assert_eq!(linked, Some(id));
    match world.get_opt_entity(id) {
        Some(Entity::Player(p)) => assert_eq!(p.online_type, OnlineType::Accepted),
        _ => panic!("player lost"),
    }
    let ma = storage.maps.iter().find(|e| e.0 == a).map(|e| &e.1).unwrap();
    assert!(ma.players.contains(&id));
    assert!(!ma.grid.iter().any(|e| e.id == id));
    let (tid, timer) = storage.player_timeout.last().unwrap();
    assert_eq!(*tid, id);
    assert_eq!(timer.0 .0, 1000 + RECONNECT_GRACE_MS);
}
