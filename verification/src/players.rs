//! Player-facing flows: vitals, currency, login/reconnect notification and
//! the atomic map transition.
//!
//! Every mutation of a player record happens by taking the record out of
//! the world directory, rewriting it, and reinserting it under the same id,
//! so each flow is atomic with respect to any observer of the directory.

use vstd::prelude::*;

use vstd::array::spec_array_update;

use crate::assoc::{lemma_al_map_index, lemma_al_map_reinsert};
use crate::duration::{sat_add_i64_spec, MyDuration, MyInstant};
use crate::gametypes::{AscendingError, FtlType, GlobalKey, Position, Token, VitalTypes, VITALS_MAX};
use crate::maps::GameMap;
use crate::server::Server;
use crate::storage::{
    send_direct, DataTask, DataTaskToken, OutMessage, Packet, PlayerConnectionTimer, Storage,
};
use crate::world::{Combat, Entity, LoginHandshake, Money, PlayerEntity, ReloginCode, Vitals, World};

verus! {

/// Milliseconds a disconnected player stays resident awaiting reconnect.
pub const RECONNECT_GRACE_MS: i64 = 600000;

/// Saturating signed addition on vital values.
pub open spec fn sat_add_i32_spec(a: i32, b: i32) -> i32 {
    if a + b > i32::MAX {
        i32::MAX
    } else if a + b < i32::MIN {
        i32::MIN
    } else {
        (a + b) as i32
    }
}

fn sat_add_i32(a: i32, b: i32) -> (r: i32)
    ensures
        r == sat_add_i32_spec(a, b),
{
    if b >= 0 {
        if a <= i32::MAX - b {
            a + b
        } else {
            i32::MAX
        }
    } else {
        if a >= i32::MIN - b {
            a + b
        } else {
            i32::MIN
        }
    }
}

/// The effective maximum of a vital: its base maximum plus its buff,
/// clamped to at least one point.
pub open spec fn add_up_vital_spec(p: PlayerEntity, vital: int) -> i32 {
    let s = sat_add_i32_spec(p.combat.vitals.vitalmax[vital], p.combat.vitals.vitalbuffs[vital]);
    if s <= 0 {
        1i32
    } else {
        s
    }
}

/// `p` with one current vital slot rewritten.
pub open spec fn with_vital(p: PlayerEntity, idx: int, v: i32) -> PlayerEntity {
    PlayerEntity {
        combat: Combat {
            vitals: Vitals {
                vital: spec_array_update(p.combat.vitals.vital, idx, v),
                ..p.combat.vitals
            },
            ..p.combat
        },
        ..p
    }
}

/// `p` with its currency rewritten.
pub open spec fn with_money(p: PlayerEntity, vals: u64) -> PlayerEntity {
    PlayerEntity { money: Money { vals }, ..p }
}

/// `p1` is `p` with a relogin code registered and the handshake replaced;
/// every other field stands.
pub open spec fn login_updated(
    p: PlayerEntity,
    p1: PlayerEntity,
    code: String,
    handshake: String,
) -> bool {
    &&& p1.relogin_code.code@ == p.relogin_code.code@.push(code)
    &&& p1.login_handshake.handshake == handshake
    &&& p1.movement == p.movement
    &&& p1.combat == p.combat
    &&& p1.money == p.money
    &&& p1.socket == p.socket
    &&& p1.sprite == p.sprite
    &&& p1.general == p.general
    &&& p1.item_timer == p.item_timer
    &&& p1.account == p.account
    &&& p1.user_access == p.user_access
    &&& p1.online_type == p.online_type
    &&& p1.equipment == p.equipment
    &&& p1.inventory == p.inventory
    &&& p1.storage == p.storage
}

/// `p` marked accepted after a reconnect.
pub open spec fn with_online(p: PlayerEntity, online: crate::gametypes::OnlineType) -> PlayerEntity {
    PlayerEntity { online_type: online, ..p }
}

/// `p` standing at a new position.
pub open spec fn with_pos(p: PlayerEntity, pos: Position) -> PlayerEntity {
    PlayerEntity { movement: crate::world::Movement { pos, ..p.movement }, ..p }
}

/// Currency gain outcome: the new balance and the amount that would not
/// fit, under saturation at the top of the range.
pub open spec fn give_vals_outcome(money: u64, amount: u64) -> (u64, u64) {
    let rem = u64::MAX - money;
    if rem >= amount {
        ((money + amount) as u64, 0u64)
    } else {
        (u64::MAX, (amount - rem) as u64)
    }
}

/// Currency loss outcome: the new balance and the amount actually taken.
pub open spec fn take_vals_outcome(money: u64, amount: u64) -> (u64, u64) {
    if money >= amount {
        ((money - amount) as u64, amount)
    } else {
        (0u64, money)
    }
}

/// True when the world holds a player under `id`.
pub fn is_player_entity(world: &World, id: GlobalKey) -> (r: bool)
    requires
        world.wf(),
    ensures
        r == world.is_player(id),
{
    match world.get_opt_entity(id) {
        Some(e) => match e {
            Entity::Player(_) => true,
            _ => false,
        },
        None => false,
    }
}

/// Queues the current currency of `entity` to its own client.
/// Relied-on collaborator: the packet layer encodes the payload.
pub fn send_money(world: &World, storage: &mut Storage, entity: GlobalKey) -> (r: Result<
    (),
    AscendingError,
>)
    requires
        world.wf(),
    ensures
        world.is_player(entity) ==> {
            &&& r == Ok::<(), AscendingError>(())
            &&& final(storage).outbound@ == old(storage).outbound@.push(
                (OutMessage {
                    socket: world.player_of(entity).socket.id,
                    packet: Packet::Money { entity, vals: world.player_of(entity).money.vals },
                }),
            )
        },
        !world.is_player(entity) ==> r == Err::<(), AscendingError>(AscendingError::MissingEntity)
            && *final(storage) == *old(storage),
        final(storage).maps == old(storage).maps,
        final(storage).map_switch_tasks == old(storage).map_switch_tasks,
        final(storage).player_names == old(storage).player_names,
        final(storage).player_code == old(storage).player_code,
        final(storage).player_timeout == old(storage).player_timeout,
        final(storage).gettick == old(storage).gettick,
        final(storage).data_tasks == old(storage).data_tasks,
{
    match world.get_opt_entity(entity) {
        Some(e) => match e {
            Entity::Player(p) => {
                let socket = p.socket.id;
                let vals = p.money.vals;
                send_direct(storage, socket, Packet::Money { entity, vals });
                Ok(())
            },
            _ => Err(AscendingError::MissingEntity),
        },
        None => Err(AscendingError::MissingEntity),
    }
}

/// Queues a persistence notice that the currency of `entity` changed.
pub fn update_currency(storage: &mut Storage, world: &World, entity: GlobalKey) -> (r: Result<
    (),
    AscendingError,
>)
    requires
        world.wf(),
    ensures
        world.is_player(entity) ==> {
            &&& r == Ok::<(), AscendingError>(())
            &&& final(storage).outbound@ == old(storage).outbound@.push(
                (OutMessage {
                    socket: world.player_of(entity).socket.id,
                    packet: Packet::CurrencyUpdate { entity },
                }),
            )
        },
        !world.is_player(entity) ==> r == Err::<(), AscendingError>(AscendingError::MissingEntity)
            && *final(storage) == *old(storage),
        final(storage).maps == old(storage).maps,
        final(storage).map_switch_tasks == old(storage).map_switch_tasks,
        final(storage).player_names == old(storage).player_names,
        final(storage).player_code == old(storage).player_code,
        final(storage).player_timeout == old(storage).player_timeout,
        final(storage).gettick == old(storage).gettick,
        final(storage).data_tasks == old(storage).data_tasks,
{
    match world.get_opt_entity(entity) {
        Some(e) => match e {
            Entity::Player(p) => {
                let socket = p.socket.id;
                send_direct(storage, socket, Packet::CurrencyUpdate { entity });
                Ok(())
            },
            _ => Err(AscendingError::MissingEntity),
        },
        None => Err(AscendingError::MissingEntity),
    }
}

/// Queues a float-text alert carrying an amount to one socket.
pub fn send_fltalert(storage: &mut Storage, socket_id: Token, amount: u64, kind: FtlType) -> (r:
    Result<(), AscendingError>)
    ensures
        r == Ok::<(), AscendingError>(()),
        final(storage).outbound@ == old(storage).outbound@.push(
            (OutMessage { socket: socket_id, packet: Packet::FloatAlert { amount, kind } }),
        ),
        final(storage).maps == old(storage).maps,
        final(storage).map_switch_tasks == old(storage).map_switch_tasks,
        final(storage).player_names == old(storage).player_names,
        final(storage).player_code == old(storage).player_code,
        final(storage).player_timeout == old(storage).player_timeout,
        final(storage).gettick == old(storage).gettick,
        final(storage).data_tasks == old(storage).data_tasks,
{
    send_direct(storage, socket_id, Packet::FloatAlert { amount, kind });
    Ok(())
}

/// Tells a client which directory index its session was bound to.
pub fn send_myindex(storage: &mut Storage, socket_id: Token, entity: GlobalKey) -> (r: Result<
    (),
    AscendingError,
>)
    ensures
        r == Ok::<(), AscendingError>(()),
        final(storage).outbound@ == old(storage).outbound@.push(
            (OutMessage { socket: socket_id, packet: Packet::MyIndex { entity } }),
        ),
        final(storage).maps == old(storage).maps,
        final(storage).map_switch_tasks == old(storage).map_switch_tasks,
        final(storage).player_names == old(storage).player_names,
        final(storage).player_code == old(storage).player_code,
        final(storage).player_timeout == old(storage).player_timeout,
        final(storage).gettick == old(storage).gettick,
        final(storage).data_tasks == old(storage).data_tasks,
{
    send_direct(storage, socket_id, Packet::MyIndex { entity });
    Ok(())
}

/// Hands a client its one-time relogin code and handshake token.
pub fn send_codes(storage: &mut Storage, code: String, handshake: String, socket_id: Token) -> (r:
    Result<(), AscendingError>)
    ensures
        r == Ok::<(), AscendingError>(()),
        final(storage).outbound@ == old(storage).outbound@.push(
            (OutMessage { socket: socket_id, packet: Packet::Codes { code, handshake } }),
        ),
        final(storage).maps == old(storage).maps,
        final(storage).map_switch_tasks == old(storage).map_switch_tasks,
        final(storage).player_names == old(storage).player_names,
        final(storage).player_code == old(storage).player_code,
        final(storage).player_timeout == old(storage).player_timeout,
        final(storage).gettick == old(storage).gettick,
        final(storage).data_tasks == old(storage).data_tasks,
{
    send_direct(storage, socket_id, Packet::Codes { code, handshake });
    Ok(())
}

/// Hands a client fresh codes over the encrypted channel, addressed through
/// its player entity's own socket.
pub fn send_tls_codes(
    world: &World,
    storage: &mut Storage,
    entity: GlobalKey,
    code: String,
    handshake: String,
) -> (r: Result<(), AscendingError>)
    requires
        world.wf(),
    ensures
        world.is_player(entity) ==> {
            &&& r == Ok::<(), AscendingError>(())
            &&& final(storage).outbound@ == old(storage).outbound@.push(
                (OutMessage {
                    socket: world.player_of(entity).socket.id,
                    packet: Packet::TlsCodes { code, handshake },
                }),
            )
        },
        !world.is_player(entity) ==> r == Err::<(), AscendingError>(AscendingError::MissingEntity)
            && *final(storage) == *old(storage),
        final(storage).maps == old(storage).maps,
        final(storage).map_switch_tasks == old(storage).map_switch_tasks,
        final(storage).player_names == old(storage).player_names,
        final(storage).player_code == old(storage).player_code,
        final(storage).player_timeout == old(storage).player_timeout,
        final(storage).gettick == old(storage).gettick,
        final(storage).data_tasks == old(storage).data_tasks,
{
    match world.get_opt_entity(entity) {
        Some(e) => match e {
            Entity::Player(p) => {
                let socket = p.socket.id;
                send_direct(storage, socket, Packet::TlsCodes { code, handshake });
                Ok(())
            },
            _ => Err(AscendingError::MissingEntity),
        },
        None => Err(AscendingError::MissingEntity),
    }
}

/// The effective maximum of one vital for `entity`; a missing or
/// non-player entity counts one point.
pub fn player_add_up_vital(world: &mut World, entity: GlobalKey, vital: usize) -> (r: Result<
    i32,
    AscendingError,
>)
    requires
        old(world).wf(),
        vital < VITALS_MAX,
    ensures
        *final(world) == *old(world),
        r == Ok::<i32, AscendingError>(
            if old(world).is_player(entity) {
                add_up_vital_spec(old(world).player_of(entity), vital as int)
            } else {
                1i32
            },
        ),
{
    match world.get_opt_entity(entity) {
        Some(e) => match e {
            Entity::Player(p) => {
                let hp = sat_add_i32(
                    p.combat.vitals.vitalmax[vital],
                    p.combat.vitals.vitalbuffs[vital],
                );
                if hp <= 0 {
                    Ok(1)
                } else {
                    Ok(hp)
                }
            },
            _ => Ok(1),
        },
        None => Ok(1),
    }
}

/// Sets one current vital of `entity`, clamped by its base maximum, and
/// queues a vitals broadcast for the entity's region; a missing or
/// non-player entity is a no-op.
pub fn player_set_vital(
    world: &mut World,
    storage: &mut Storage,
    entity: GlobalKey,
    vital: VitalTypes,
    amount: i32,
) -> (r: Result<(), AscendingError>)
    requires
        old(world).wf(),
    ensures
        final(world).wf(),
        r == Ok::<(), AscendingError>(()),
        !old(world).is_player(entity) ==> *final(world) == *old(world) && *final(storage) == *old(
            storage,
        ),
        old(world).is_player(entity) ==> {
            let p = old(world).player_of(entity);
            let idx = vital.spec_index() as int;
            let capped = if amount <= p.combat.vitals.vitalmax[idx] {
                amount
            } else {
                p.combat.vitals.vitalmax[idx]
            };
            let p1 = with_vital(p, idx, capped);
            &&& final(world).entity_map() == old(world).entity_map().insert(
                entity,
                Entity::Player(p1),
            )
            &&& final(storage).data_tasks@ == old(storage).data_tasks@.push(
                (DataTask {
                    token: DataTaskToken::Vitals(p.movement.pos.map),
                    packet: Packet::Vitals {
                        entity,
                        vital: p1.combat.vitals.vital,
                        vitalmax: p1.combat.vitals.vitalmax,
                    },
                }),
            )
            &&& final(storage).maps == old(storage).maps
            &&& final(storage).map_switch_tasks == old(storage).map_switch_tasks
            &&& final(storage).player_names == old(storage).player_names
            &&& final(storage).player_code == old(storage).player_code
            &&& final(storage).player_timeout == old(storage).player_timeout
            &&& final(storage).gettick == old(storage).gettick
            &&& final(storage).outbound == old(storage).outbound
        },
{
    if !is_player_entity(world, entity) {
        return Ok(());
    }
    let idx_opt = world.find_index(entity);
    match idx_opt {
        Some(i) => {
            proof {
                lemma_al_map_index(world.entities@, i as int);
            }
            let (k, ent) = world.entities.remove(i);
            match ent {
                Entity::Player(mut p) => {
                    let slot = vital.index();
                    let maxv = p.combat.vitals.vitalmax[slot];
                    let capped = if amount <= maxv {
                        amount
                    } else {
                        maxv
                    };
                    p.combat.vitals.vital[slot] = capped;
                    DataTaskToken::Vitals(p.movement.pos.map).add_task(
                        storage,
                        Packet::Vitals {
                            entity,
                            vital: p.combat.vitals.vital,
                            vitalmax: p.combat.vitals.vitalmax,
                        },
                    );
                    proof {
                        lemma_al_map_reinsert(
                            old(world).entities@,
                            i as int,
                            Entity::Player(p),
                        );
                    }
                    world.entities.push((k, Entity::Player(p)));
                    Ok(())
                },
                other => {
                    world.entities.push((k, other));
                    Ok(())
                },
            }
        },
        None => Ok(()),
    }
}

/// Grants currency to `entity` up to the top of the range; queues the new
/// balance, a persistence notice and an alert for the amount granted, and
/// returns what did not fit. A missing or non-player entity — or an
/// already-full purse — changes nothing and returns the full amount.
pub fn player_give_vals(
    world: &mut World,
    storage: &mut Storage,
    entity: GlobalKey,
    amount: u64,
) -> (r: Result<u64, AscendingError>)
    requires
        old(world).wf(),
    ensures
        final(world).wf(),
        (!old(world).is_player(entity) || old(world).player_of(entity).money.vals == u64::MAX)
            ==> *final(world) == *old(world) && *final(storage) == *old(storage) && r == Ok::<
            u64,
            AscendingError,
        >(amount),
        (old(world).is_player(entity) && old(world).player_of(entity).money.vals != u64::MAX) ==> {
            let p = old(world).player_of(entity);
            let newm = give_vals_outcome(p.money.vals, amount).0;
            let left = give_vals_outcome(p.money.vals, amount).1;
            let p1 = with_money(p, newm);
            &&& r == Ok::<u64, AscendingError>(left)
            &&& final(world).entity_map() == old(world).entity_map().insert(
                entity,
                Entity::Player(p1),
            )
            &&& final(storage).outbound@ == old(storage).outbound@ + seq![
                (OutMessage {
                    socket: p.socket.id,
                    packet: Packet::Money { entity, vals: newm },
                }),
                (OutMessage { socket: p.socket.id, packet: Packet::CurrencyUpdate { entity } }),
                (OutMessage {
                    socket: p.socket.id,
                    packet: Packet::FloatAlert {
                        amount: (amount - left) as u64,
                        kind: FtlType::Money,
                    },
                }),
            ]
            &&& final(storage).maps == old(storage).maps
            &&& final(storage).map_switch_tasks == old(storage).map_switch_tasks
            &&& final(storage).player_names == old(storage).player_names
            &&& final(storage).player_code == old(storage).player_code
            &&& final(storage).player_timeout == old(storage).player_timeout
            &&& final(storage).gettick == old(storage).gettick
            &&& final(storage).data_tasks == old(storage).data_tasks
        },
{
    let (money, socket_id) = match world.get_opt_entity(entity) {
        Some(e) => match e {
            Entity::Player(p) => (p.money.vals, p.socket.id),
            _ => {
                return Ok(amount);
            },
        },
        None => {
            return Ok(amount);
        },
    };
    let rem = u64::MAX - money;
    if rem == 0 {
        return Ok(amount);
    }
    let cur: u64;
    let newm: u64;
    if rem >= amount {
        newm = money + amount;
        cur = 0;
    } else {
        newm = u64::MAX;
        cur = amount - rem;
    }
    let idx_opt = world.find_index(entity);
    match idx_opt {
        Some(i) => {
            proof {
                lemma_al_map_index(world.entities@, i as int);
            }
            let (k, ent) = world.entities.remove(i);
            match ent {
                Entity::Player(mut p) => {
                    p.money.vals = newm;
                    proof {
                        lemma_al_map_reinsert(
                            old(world).entities@,
                            i as int,
                            Entity::Player(p),
                        );
                    }
                    world.entities.push((k, Entity::Player(p)));
                },
                other => {
                    world.entities.push((k, other));
                },
            }
        },
        None => {},
    }
    match send_money(world, storage, entity) {
        Ok(()) => {},
        Err(e) => {
            return Err(e);
        },
    }
    match update_currency(storage, world, entity) {
        Ok(()) => {},
        Err(e) => {
            return Err(e);
        },
    }
    match send_fltalert(storage, socket_id, amount - cur, FtlType::Money) {
        Ok(()) => {},
        Err(e) => {
            return Err(e);
        },
    }
    Ok(cur)
}

/// Takes up to `amount` of currency from `entity`, flooring at zero;
/// queues the new balance, a persistence notice and an alert for the
/// amount lost. A missing or non-player entity is a no-op.
pub fn player_take_vals(
    world: &mut World,
    storage: &mut Storage,
    entity: GlobalKey,
    amount: u64,
) -> (r: Result<(), AscendingError>)
    requires
        old(world).wf(),
    ensures
        final(world).wf(),
        r == Ok::<(), AscendingError>(()),
        !old(world).is_player(entity) ==> *final(world) == *old(world) && *final(storage) == *old(
            storage,
        ),
        old(world).is_player(entity) ==> {
            let p = old(world).player_of(entity);
            let newm = take_vals_outcome(p.money.vals, amount).0;
            let cur = take_vals_outcome(p.money.vals, amount).1;
            let p1 = with_money(p, newm);
            &&& final(world).entity_map() == old(world).entity_map().insert(
                entity,
                Entity::Player(p1),
            )
            &&& final(storage).outbound@ == old(storage).outbound@ + seq![
                (OutMessage {
                    socket: p.socket.id,
                    packet: Packet::Money { entity, vals: newm },
                }),
                (OutMessage { socket: p.socket.id, packet: Packet::CurrencyUpdate { entity } }),
                (OutMessage {
                    socket: p.socket.id,
                    packet: Packet::FloatAlert { amount: cur, kind: FtlType::Money },
                }),
            ]
            &&& final(storage).maps == old(storage).maps
            &&& final(storage).map_switch_tasks == old(storage).map_switch_tasks
            &&& final(storage).player_names == old(storage).player_names
            &&& final(storage).player_code == old(storage).player_code
            &&& final(storage).player_timeout == old(storage).player_timeout
            &&& final(storage).gettick == old(storage).gettick
            &&& final(storage).data_tasks == old(storage).data_tasks
        },
{
    let (money, socket_id) = match world.get_opt_entity(entity) {
        Some(e) => match e {
            Entity::Player(p) => (p.money.vals, p.socket.id),
            _ => {
                return Ok(());
            },
        },
        None => {
            return Ok(());
        },
    };
    let cur: u64;
    let newm: u64;
    if money >= amount {
        newm = money - amount;
        cur = amount;
    } else {
        cur = money;
        newm = 0;
    }
    let idx_opt = world.find_index(entity);
    match idx_opt {
        Some(i) => {
            proof {
                lemma_al_map_index(world.entities@, i as int);
            }
            let (k, ent) = world.entities.remove(i);
            match ent {
                Entity::Player(mut p) => {
                    p.money.vals = newm;
                    proof {
                        lemma_al_map_reinsert(
                            old(world).entities@,
                            i as int,
                            Entity::Player(p),
                        );
                    }
                    world.entities.push((k, Entity::Player(p)));
                },
                other => {
                    world.entities.push((k, other));
                },
            }
        },
        None => {},
    }
    match send_money(world, storage, entity) {
        Ok(()) => {},
        Err(e) => {
            return Err(e);
        },
    }
    match update_currency(storage, world, entity) {
        Ok(()) => {},
        Err(e) => {
            return Err(e);
        },
    }
    match send_fltalert(storage, socket_id, cur, FtlType::Money) {
        Ok(()) => {},
        Err(e) => {
            return Err(e);
        },
    }
    Ok(())
}

} // verus!

verus! {

/// `id` is registered and grid-indexed exactly on the region of `pos`, at
/// the tile of `pos` — the position invariant of a resident player.
pub open spec fn player_located(s: Storage, id: GlobalKey, pos: Position) -> bool {
    forall|mp: crate::gametypes::MapPosition|
        s.maps_map().dom().contains(mp) ==> {
            &&& ((#[trigger] s.maps_map()[mp]).has_player(id) <==> mp == pos.map)
            &&& (s.maps_map()[mp].grid_has(id) <==> mp == pos.map)
            &&& (mp == pos.map ==> s.maps_map()[mp].grid_has_at(id, pos.x, pos.y))
        }
}

/// A player id never sits in any region's NPC or item set.
pub open spec fn player_id_clean(s: Storage, id: GlobalKey) -> bool {
    forall|mp: crate::gametypes::MapPosition|
        s.maps_map().dom().contains(mp) ==> !(#[trigger] s.maps_map()[mp]).has_npc(id)
            && !s.maps_map()[mp].has_item(id)
}

/// The region registry of `b` differs from `a` at most in where `id`
/// stands: same regions, and every other id keeps its memberships and its
/// grid slot in every region.
pub open spec fn maps_frame_except(a: Storage, b: Storage, id: GlobalKey) -> bool {
    &&& b.maps_map().dom() == a.maps_map().dom()
    &&& forall|mp: crate::gametypes::MapPosition, x: GlobalKey|
        a.maps_map().dom().contains(mp) && x != id ==> ((#[trigger] b.maps_map()[mp].has_player(x))
            <==> a.maps_map()[mp].has_player(x))
    &&& forall|mp: crate::gametypes::MapPosition|
        a.maps_map().dom().contains(mp) ==> (#[trigger] b.maps_map()[mp]).npcs
            == a.maps_map()[mp].npcs && b.maps_map()[mp].itemids == a.maps_map()[mp].itemids
    &&& forall|mp: crate::gametypes::MapPosition, e: crate::maps::GridEntry|
        a.maps_map().dom().contains(mp) && e.id != id ==> ((#[trigger] b.maps_map()[mp].grid@.contains(
            e,
        )) <==> a.maps_map()[mp].grid@.contains(e))
}

/// Map-switch atomicity, read off the position invariant: a located player
/// is never grid-indexed on two regions, and is indexed on its own region
/// exactly when that region is registered.
pub proof fn lemma_map_switch_atomicity(s: Storage, id: GlobalKey, pos: Position)
    requires
        player_located(s, id, pos),
    ensures
        forall|mp1: crate::gametypes::MapPosition, mp2: crate::gametypes::MapPosition|
            s.maps_map().dom().contains(mp1) && s.maps_map().dom().contains(mp2) && mp1 != mp2
                ==> !((#[trigger] s.maps_map()[mp1].grid_has(id)) && (#[trigger] s.maps_map()[mp2].grid_has(
                id,
            ))),
        s.maps_map().dom().contains(pos.map) ==> s.maps_map()[pos.map].grid_has_at(
            id,
            pos.x,
            pos.y,
        ),
        forall|mp: crate::gametypes::MapPosition|
            s.maps_map().dom().contains(mp) && mp != pos.map ==> !(#[trigger] s.maps_map()[mp].grid_has(
                id,
            )),
{
}

/// `b` is `a` with `id` dropped from the player set and unindexed from the
/// grid, everything else standing.
pub open spec fn removed_from_map(a: GameMap, b: GameMap, id: GlobalKey) -> bool {
    &&& forall|x: GlobalKey| #[trigger] b.has_player(x) <==> (a.has_player(x) && x != id)
    &&& b.npcs == a.npcs
    &&& b.itemids == a.itemids
    &&& forall|e: crate::maps::GridEntry| #[trigger]
        b.grid@.contains(e) <==> (a.grid@.contains(e) && e.id != id)
    &&& forall|x: GlobalKey| #[trigger] b.grid_has(x) <==> (a.grid_has(x) && x != id)
}

/// `b` is `a` with `id` registered as a player and indexed at the tile of
/// `pos` (displacing any earlier slot of `id`), everything else standing.
pub open spec fn added_to_map(a: GameMap, b: GameMap, id: GlobalKey, pos: Position) -> bool {
    &&& forall|x: GlobalKey| #[trigger] b.has_player(x) <==> (a.has_player(x) || x == id)
    &&& b.npcs == a.npcs
    &&& b.itemids == a.itemids
    &&& forall|e: crate::maps::GridEntry| #[trigger]
        b.grid@.contains(e) <==> ((a.grid@.contains(e) && e.id != id) || e
            == (crate::maps::GridEntry { id, x: pos.x, y: pos.y }))
    &&& forall|x: GlobalKey| #[trigger] b.grid_has(x) <==> (a.grid_has(x) || x == id)
    &&& b.grid_has_at(id, pos.x, pos.y)
}

/// After a within-region move — the region of `opos` is the region of
/// `new_pos` — every switch postcondition holds of the updated registry.
proof fn lemma_switch_post_same(
    s_old: Storage,
    s_new: Storage,
    entity: GlobalKey,
    opos: Position,
    new_pos: Position,
    mold1: GameMap,
    m1v: GameMap,
)
    requires
        opos.map == new_pos.map,
        s_old.maps_wf(),
        s_old.maps_consistent(),
        player_located(s_old, entity, opos),
        player_id_clean(s_old, entity),
        s_old.maps_map().dom().contains(opos.map),
        mold1 == s_old.maps_map()[opos.map],
        m1v.wf(),
        added_to_map(mold1, m1v, entity, new_pos),
        s_new.maps_map() == s_old.maps_map().insert(opos.map, m1v),
    ensures
        s_new.maps_wf(),
        s_new.maps_consistent(),
        player_located(s_new, entity, new_pos),
        player_id_clean(s_new, entity),
        maps_frame_except(s_old, s_new, entity),
{
    assert(s_new.maps_map().dom() =~= s_old.maps_map().dom());
    assert forall|mp: crate::gametypes::MapPosition|
        s_new.maps_map().dom().contains(mp) implies (#[trigger] s_new.maps_map()[mp]).wf() by {
        if mp != opos.map {
            assert(s_new.maps_map()[mp] == s_old.maps_map()[mp]);
        }
    }
    assert forall|mp: crate::gametypes::MapPosition|
        s_new.maps_map().dom().contains(mp) implies (#[trigger] s_new.maps_map()[mp]).consistent()
        by {
        if mp == opos.map {
            assert(mold1.consistent());
            assert forall|x: GlobalKey| #[trigger] m1v.in_sets(x) implies m1v.grid_has(x) by {
                if x != entity {
                    assert(mold1.in_sets(x) <==> mold1.grid_has(x));
                }
            }
            assert forall|x: GlobalKey| #[trigger] m1v.grid_has(x) implies m1v.in_sets(x) by {
                if x != entity {
                    assert(mold1.in_sets(x) <==> mold1.grid_has(x));
                }
            }
            assert(m1v.consistent());
        } else {
            assert(s_new.maps_map()[mp] == s_old.maps_map()[mp]);
        }
    }
    assert forall|mp: crate::gametypes::MapPosition| s_new.maps_map().dom().contains(mp) implies {
        &&& ((#[trigger] s_new.maps_map()[mp]).has_player(entity) <==> mp == new_pos.map)
        &&& (s_new.maps_map()[mp].grid_has(entity) <==> mp == new_pos.map)
        &&& (mp == new_pos.map ==> s_new.maps_map()[mp].grid_has_at(entity, new_pos.x, new_pos.y))
    } by {
        if mp != opos.map {
            assert(s_new.maps_map()[mp] == s_old.maps_map()[mp]);
            assert(s_old.maps_map()[mp].has_player(entity) <==> mp == opos.map);
        }
    }
    assert forall|mp: crate::gametypes::MapPosition|
        s_new.maps_map().dom().contains(mp) implies !(#[trigger] s_new.maps_map()[mp]).has_npc(
        entity,
    ) && !s_new.maps_map()[mp].has_item(entity) by {
        if mp == opos.map {
            assert(!mold1.has_npc(entity) && !mold1.has_item(entity));
        } else {
            assert(s_new.maps_map()[mp] == s_old.maps_map()[mp]);
        }
    }
    assert forall|mp: crate::gametypes::MapPosition, x: GlobalKey|
        s_old.maps_map().dom().contains(mp) && x != entity implies ((#[trigger] s_new.maps_map()[mp].has_player(
        x,
    )) <==> s_old.maps_map()[mp].has_player(x)) by {
        if mp != opos.map {
            assert(s_new.maps_map()[mp] == s_old.maps_map()[mp]);
        }
    }
    assert forall|mp: crate::gametypes::MapPosition|
        s_old.maps_map().dom().contains(mp) implies (#[trigger] s_new.maps_map()[mp]).npcs
        == s_old.maps_map()[mp].npcs && s_new.maps_map()[mp].itemids
        == s_old.maps_map()[mp].itemids by {
        if mp != opos.map {
            assert(s_new.maps_map()[mp] == s_old.maps_map()[mp]);
        }
    }
    assert forall|mp: crate::gametypes::MapPosition, e: crate::maps::GridEntry|
        s_old.maps_map().dom().contains(mp) && e.id != entity implies ((#[trigger] s_new.maps_map()[mp].grid@.contains(
        e,
    )) <==> s_old.maps_map()[mp].grid@.contains(e)) by {
        if mp != opos.map {
            assert(s_new.maps_map()[mp] == s_old.maps_map()[mp]);
        }
    }
}

/// After a cross-region move the same postconditions hold: `id` left the
/// region of `opos` and entered the region of `new_pos`.
proof fn lemma_switch_post_diff(
    s_old: Storage,
    s_new: Storage,
    entity: GlobalKey,
    opos: Position,
    new_pos: Position,
    mold1: GameMap,
    m1v: GameMap,
    mold2: GameMap,
    m2v: GameMap,
)
    requires
        opos.map != new_pos.map,
        s_old.maps_wf(),
        s_old.maps_consistent(),
        player_located(s_old, entity, opos),
        player_id_clean(s_old, entity),
        s_old.maps_map().dom().contains(opos.map),
        s_old.maps_map().dom().contains(new_pos.map),
        mold1 == s_old.maps_map()[opos.map],
        mold2 == s_old.maps_map()[new_pos.map],
        m1v.wf(),
        m2v.wf(),
        removed_from_map(mold1, m1v, entity),
        added_to_map(mold2, m2v, entity, new_pos),
        s_new.maps_map() == s_old.maps_map().insert(opos.map, m1v).insert(new_pos.map, m2v),
    ensures
        s_new.maps_wf(),
        s_new.maps_consistent(),
        player_located(s_new, entity, new_pos),
        player_id_clean(s_new, entity),
        maps_frame_except(s_old, s_new, entity),
{
    assert(s_new.maps_map().dom() =~= s_old.maps_map().dom());
    assert forall|mp: crate::gametypes::MapPosition|
        s_new.maps_map().dom().contains(mp) implies (#[trigger] s_new.maps_map()[mp]).wf() by {
        if mp != opos.map && mp != new_pos.map {
            assert(s_new.maps_map()[mp] == s_old.maps_map()[mp]);
        }
    }
    assert forall|mp: crate::gametypes::MapPosition|
        s_new.maps_map().dom().contains(mp) implies (#[trigger] s_new.maps_map()[mp]).consistent()
        by {
        if mp == new_pos.map {
            assert(mold2.consistent());
            assert forall|x: GlobalKey| #[trigger] m2v.in_sets(x) implies m2v.grid_has(x) by {
                if x != entity {
                    assert(mold2.in_sets(x) <==> mold2.grid_has(x));
                }
            }
            assert forall|x: GlobalKey| #[trigger] m2v.grid_has(x) implies m2v.in_sets(x) by {
                if x != entity {
                    assert(mold2.in_sets(x) <==> mold2.grid_has(x));
                }
            }
            assert(m2v.consistent());
        } else if mp == opos.map {
            assert(mold1.consistent());
            assert(!mold1.has_npc(entity) && !mold1.has_item(entity));
            assert forall|x: GlobalKey| #[trigger] m1v.in_sets(x) implies m1v.grid_has(x) by {
                if x != entity {
                    assert(mold1.in_sets(x) <==> mold1.grid_has(x));
                }
            }
            assert forall|x: GlobalKey| #[trigger] m1v.grid_has(x) implies m1v.in_sets(x) by {
                if x != entity {
                    assert(mold1.in_sets(x) <==> mold1.grid_has(x));
                }
            }
            assert(m1v.consistent());
        } else {
            assert(s_new.maps_map()[mp] == s_old.maps_map()[mp]);
        }
    }
    assert forall|mp: crate::gametypes::MapPosition| s_new.maps_map().dom().contains(mp) implies {
        &&& ((#[trigger] s_new.maps_map()[mp]).has_player(entity) <==> mp == new_pos.map)
        &&& (s_new.maps_map()[mp].grid_has(entity) <==> mp == new_pos.map)
        &&& (mp == new_pos.map ==> s_new.maps_map()[mp].grid_has_at(entity, new_pos.x, new_pos.y))
    } by {
        if mp != opos.map && mp != new_pos.map {
            assert(s_new.maps_map()[mp] == s_old.maps_map()[mp]);
            assert(s_old.maps_map()[mp].has_player(entity) <==> mp == opos.map);
        }
    }
    assert forall|mp: crate::gametypes::MapPosition|
        s_new.maps_map().dom().contains(mp) implies !(#[trigger] s_new.maps_map()[mp]).has_npc(
        entity,
    ) && !s_new.maps_map()[mp].has_item(entity) by {
        if mp == opos.map {
            assert(!mold1.has_npc(entity) && !mold1.has_item(entity));
        } else if mp == new_pos.map {
            assert(!mold2.has_npc(entity) && !mold2.has_item(entity));
        } else {
            assert(s_new.maps_map()[mp] == s_old.maps_map()[mp]);
        }
    }
    assert forall|mp: crate::gametypes::MapPosition, x: GlobalKey|
        s_old.maps_map().dom().contains(mp) && x != entity implies ((#[trigger] s_new.maps_map()[mp].has_player(
        x,
    )) <==> s_old.maps_map()[mp].has_player(x)) by {
        if mp != opos.map && mp != new_pos.map {
            assert(s_new.maps_map()[mp] == s_old.maps_map()[mp]);
        }
    }
    assert forall|mp: crate::gametypes::MapPosition|
        s_old.maps_map().dom().contains(mp) implies (#[trigger] s_new.maps_map()[mp]).npcs
        == s_old.maps_map()[mp].npcs && s_new.maps_map()[mp].itemids
        == s_old.maps_map()[mp].itemids by {
        if mp != opos.map && mp != new_pos.map {
            assert(s_new.maps_map()[mp] == s_old.maps_map()[mp]);
        }
    }
    assert forall|mp: crate::gametypes::MapPosition, e: crate::maps::GridEntry|
        s_old.maps_map().dom().contains(mp) && e.id != entity implies ((#[trigger] s_new.maps_map()[mp].grid@.contains(
        e,
    )) <==> s_old.maps_map()[mp].grid@.contains(e)) by {
        if mp != opos.map && mp != new_pos.map {
            assert(s_new.maps_map()[mp] == s_old.maps_map()[mp]);
        }
    }
}

/// Moves a player to a tile of a registered destination region, removing
/// it from its source region and committing the new position, all in one
/// exclusive step. If the source or the destination region is not
/// registered the world is left exactly as it was and the original
/// position comes back with a `false` flag; a missing or non-player id is
/// the one error.
pub fn player_switch_maps(
    world: &mut World,
    storage: &mut Storage,
    entity: GlobalKey,
    new_pos: Position,
) -> (r: Result<(Position, bool), AscendingError>)
    requires
        old(world).wf(),
        old(storage).wf(),
        old(storage).maps_wf(),
        old(storage).maps_consistent(),
        old(world).is_player(entity) ==> player_located(
            *old(storage),
            entity,
            old(world).player_of(entity).movement.pos,
        ),
        old(world).is_player(entity) ==> player_id_clean(*old(storage), entity),
    ensures
        final(world).wf(),
        final(storage).wf(),
        final(storage).maps_wf(),
        final(storage).maps_consistent(),
        final(storage).map_switch_tasks == old(storage).map_switch_tasks,
        final(storage).player_names == old(storage).player_names,
        final(storage).player_code == old(storage).player_code,
        final(storage).player_timeout == old(storage).player_timeout,
        final(storage).gettick == old(storage).gettick,
        final(storage).data_tasks == old(storage).data_tasks,
        final(storage).outbound == old(storage).outbound,
        !old(world).is_player(entity) ==> r == Err::<(Position, bool), AscendingError>(
            AscendingError::MissingEntity,
        ) && *final(world) == *old(world) && *final(storage) == *old(storage),
        old(world).is_player(entity) ==> {
            let opos = old(world).player_of(entity).movement.pos;
            if !old(storage).maps_map().dom().contains(opos.map) || !old(
                storage,
            ).maps_map().dom().contains(new_pos.map) {
                r == Ok::<(Position, bool), AscendingError>((opos, false)) && *final(world)
                    == *old(world) && *final(storage) == *old(storage)
            } else {
                &&& r == Ok::<(Position, bool), AscendingError>((new_pos, true))
                &&& final(world).entity_map() == old(world).entity_map().insert(
                    entity,
                    Entity::Player(with_pos(old(world).player_of(entity), new_pos)),
                )
                &&& maps_frame_except(*old(storage), *final(storage), entity)
                &&& player_located(*final(storage), entity, new_pos)
                &&& player_id_clean(*final(storage), entity)
            }
        },
{
    let opos = match world.get_opt_entity(entity) {
        Some(e) => match e {
            Entity::Player(p) => p.movement.pos,
            _ => {
                return Err(AscendingError::missing_entity());
            },
        },
        None => {
            return Err(AscendingError::missing_entity());
        },
    };
    let i_old = match storage.find_map_index(opos.map) {
        Some(i) => i,
        None => {
            return Ok((opos, false));
        },
    };
    match storage.find_map_index(new_pos.map) {
        Some(j) => {
            proof {
                crate::assoc::lemma_al_map_dom(storage.maps@, new_pos.map);
                assert(storage.maps@[j as int].0 == new_pos.map);
            }
        },
        None => {
            return Ok((opos, false));
        },
    }
    proof {
        lemma_al_map_index(storage.maps@, i_old as int);
        assert(storage.maps_map().dom().contains(opos.map));
        assert(storage.maps_map()[opos.map].wf());
    }
    let (k1, mut m1) = storage.maps.remove(i_old);
    let ghost mold1 = m1;
    m1.remove_player(entity);
    let ghost g1 = m1;
    m1.remove_entity_from_grid(entity);
    let ghost g2 = m1;
    if k1 == new_pos.map {
        m1.add_player(entity);
        let ghost g3 = m1;
        m1.add_entity_to_grid(entity, new_pos);
        let ghost m1v = m1;
        proof {
            lemma_al_map_reinsert(old(storage).maps@, i_old as int, m1);
        }
        storage.maps.push((k1, m1));
        proof {
            assert forall|x: GlobalKey| #[trigger]
                m1v.has_player(x) <==> (mold1.has_player(x) || x == entity) by {
                assert(m1v.players == g3.players);
                assert(g3.has_player(x) <==> (g2.has_player(x) || x == entity));
                assert(g2.players == g1.players);
                assert(g2.has_player(x) == g1.has_player(x));
                assert(g1.has_player(x) <==> (mold1.has_player(x) && x != entity));
            }
            assert forall|e: crate::maps::GridEntry| #[trigger]
                m1v.grid@.contains(e) <==> ((mold1.grid@.contains(e) && e.id != entity) || e
                    == (crate::maps::GridEntry { id: entity, x: new_pos.x, y: new_pos.y })) by {
                assert(m1v.grid@.contains(e) <==> ((g3.grid@.contains(e) && e.id != entity) || e
                    == (crate::maps::GridEntry { id: entity, x: new_pos.x, y: new_pos.y })));
                assert(g3.grid == g2.grid);
                assert(g3.grid@.contains(e) == g2.grid@.contains(e));
                assert(g2.grid@.contains(e) <==> (g1.grid@.contains(e) && e.id != entity));
                assert(g1.grid == mold1.grid);
                assert(g1.grid@.contains(e) == mold1.grid@.contains(e));
            }
            assert forall|x: GlobalKey| #[trigger]
                m1v.grid_has(x) <==> (mold1.grid_has(x) || x == entity) by {
                assert(m1v.grid_has(x) <==> (g3.grid_has(x) || x == entity));
                assert(g3.grid == g2.grid);
                assert(g3.grid_has(x) == g2.grid_has(x));
                assert(g2.grid_has(x) <==> (g1.grid_has(x) && x != entity));
                assert(g1.grid == mold1.grid);
                assert(g1.grid_has(x) == mold1.grid_has(x));
            }
            assert(m1v.npcs == mold1.npcs && m1v.itemids == mold1.itemids);
            assert(added_to_map(mold1, m1v, entity, new_pos));
            lemma_switch_post_same(
                *old(storage),
                *storage,
                entity,
                opos,
                new_pos,
                mold1,
                m1v,
            );
        }
    } else {
        let ghost m1v = m1;
        proof {
            lemma_al_map_reinsert(old(storage).maps@, i_old as int, m1);
        }
        storage.maps.push((k1, m1));
        let ghost s1 = storage.maps@;
        proof {
            assert(storage.maps_map().dom() =~= old(storage).maps_map().dom());
        }
        let i_new = match storage.find_map_index(new_pos.map) {
            Some(i) => i,
            None => {
                proof {
                    assert(false);
                }
                return Ok((opos, false));
            },
        };
        proof {
            lemma_al_map_index(storage.maps@, i_new as int);
            assert(storage.maps_map().dom().contains(new_pos.map));
            assert(storage.maps_map()[new_pos.map] == old(storage).maps_map()[new_pos.map]);
            assert(old(storage).maps_map()[new_pos.map].wf());
        }
        let (k2, mut m2) = storage.maps.remove(i_new);
        let ghost mold2 = m2;
        m2.add_player(entity);
        let ghost h1 = m2;
        m2.add_entity_to_grid(entity, new_pos);
        let ghost m2v = m2;
        proof {
            lemma_al_map_reinsert(s1, i_new as int, m2);
        }
        storage.maps.push((k2, m2));
        proof {
            assert(mold2 == old(storage).maps_map()[new_pos.map]);
            assert forall|x: GlobalKey| #[trigger]
                m1v.has_player(x) <==> (mold1.has_player(x) && x != entity) by {
                assert(m1v.players == g1.players);
                assert(m1v.has_player(x) == g1.has_player(x));
                assert(g1.has_player(x) <==> (mold1.has_player(x) && x != entity));
            }
            assert forall|e: crate::maps::GridEntry| #[trigger]
                m1v.grid@.contains(e) <==> (mold1.grid@.contains(e) && e.id != entity) by {
                assert(m1v.grid@.contains(e) <==> (g1.grid@.contains(e) && e.id != entity));
                assert(g1.grid == mold1.grid);
                assert(g1.grid@.contains(e) == mold1.grid@.contains(e));
            }
            assert forall|x: GlobalKey| #[trigger]
                m1v.grid_has(x) <==> (mold1.grid_has(x) && x != entity) by {
                assert(m1v.grid_has(x) <==> (g1.grid_has(x) && x != entity));
                assert(g1.grid == mold1.grid);
                assert(g1.grid_has(x) == mold1.grid_has(x));
            }
            assert(m1v.npcs == mold1.npcs && m1v.itemids == mold1.itemids);
            assert(removed_from_map(mold1, m1v, entity));
            assert forall|x: GlobalKey| #[trigger]
                m2v.has_player(x) <==> (mold2.has_player(x) || x == entity) by {
                assert(m2v.players == h1.players);
                assert(m2v.has_player(x) == h1.has_player(x));
                assert(h1.has_player(x) <==> (mold2.has_player(x) || x == entity));
            }
            assert forall|e: crate::maps::GridEntry| #[trigger]
                m2v.grid@.contains(e) <==> ((mold2.grid@.contains(e) && e.id != entity) || e
                    == (crate::maps::GridEntry { id: entity, x: new_pos.x, y: new_pos.y })) by {
                assert(m2v.grid@.contains(e) <==> ((h1.grid@.contains(e) && e.id != entity) || e
                    == (crate::maps::GridEntry { id: entity, x: new_pos.x, y: new_pos.y })));
                assert(h1.grid == mold2.grid);
                assert(h1.grid@.contains(e) == mold2.grid@.contains(e));
            }
            assert forall|x: GlobalKey| #[trigger]
                m2v.grid_has(x) <==> (mold2.grid_has(x) || x == entity) by {
                assert(m2v.grid_has(x) <==> (h1.grid_has(x) || x == entity));
                assert(h1.grid == mold2.grid);
                assert(h1.grid_has(x) == mold2.grid_has(x));
            }
            assert(m2v.npcs == mold2.npcs && m2v.itemids == mold2.itemids);
            assert(added_to_map(mold2, m2v, entity, new_pos));
            lemma_switch_post_diff(
                *old(storage),
                *storage,
                entity,
                opos,
                new_pos,
                mold1,
                m1v,
                mold2,
                m2v,
            );
        }
    }
    let iw = match world.find_index(entity) {
        Some(i) => i,
        None => {
            proof {
                assert(false);
            }
            return Err(AscendingError::missing_entity());
        },
    };
    proof {
        lemma_al_map_index(world.entities@, iw as int);
    }
    let (kw, ent) = world.entities.remove(iw);
    match ent {
        Entity::Player(mut p) => {
            p.movement.pos = new_pos;
            proof {
                lemma_al_map_reinsert(old(world).entities@, iw as int, Entity::Player(p));
            }
            world.entities.push((kw, Entity::Player(p)));
        },
        other => {
            world.entities.push((kw, other));
            proof {
                assert(false);
            }
            return Err(AscendingError::missing_entity());
        },
    }
    Ok((new_pos, true))
}

} // verus!

verus! {

/// Moves a player to another tile of its own region, removing it from its
/// old coordinates and indexing it at the new ones before the position
/// commits. A missing or non-player id reports the default position; a
/// position equal to the current one is a no-op; if the region is not
/// registered only the stored position moves and the old position comes
/// back.
pub fn player_swap_pos(
    world: &mut World,
    storage: &mut Storage,
    entity: GlobalKey,
    pos: Position,
) -> (r: Result<Position, AscendingError>)
    requires
        old(world).wf(),
        old(storage).wf(),
        old(storage).maps_wf(),
        old(storage).maps_consistent(),
        old(world).is_player(entity) ==> pos.map == old(world).player_of(
            entity,
        ).movement.pos.map,
        old(world).is_player(entity) ==> player_located(
            *old(storage),
            entity,
            old(world).player_of(entity).movement.pos,
        ),
        old(world).is_player(entity) ==> player_id_clean(*old(storage), entity),
    ensures
        final(world).wf(),
        final(storage).wf(),
        final(storage).maps_wf(),
        final(storage).maps_consistent(),
        final(storage).map_switch_tasks == old(storage).map_switch_tasks,
        final(storage).player_names == old(storage).player_names,
        final(storage).player_code == old(storage).player_code,
        final(storage).player_timeout == old(storage).player_timeout,
        final(storage).gettick == old(storage).gettick,
        final(storage).data_tasks == old(storage).data_tasks,
        final(storage).outbound == old(storage).outbound,
        !old(world).is_player(entity) ==> r == Ok::<Position, AscendingError>(
            Position::spec_default(),
        ) && *final(world) == *old(world) && *final(storage) == *old(storage),
        old(world).is_player(entity) ==> {
            let opos = old(world).player_of(entity).movement.pos;
            if pos == opos {
                r == Ok::<Position, AscendingError>(opos) && *final(world) == *old(world)
                    && *final(storage) == *old(storage)
            } else if !old(storage).maps_map().dom().contains(opos.map) {
                &&& r == Ok::<Position, AscendingError>(opos)
                &&& final(world).entity_map() == old(world).entity_map().insert(
                    entity,
                    Entity::Player(with_pos(old(world).player_of(entity), pos)),
                )
                &&& *final(storage) == *old(storage)
            } else {
                &&& r == Ok::<Position, AscendingError>(pos)
                &&& final(world).entity_map() == old(world).entity_map().insert(
                    entity,
                    Entity::Player(with_pos(old(world).player_of(entity), pos)),
                )
                &&& maps_frame_except(*old(storage), *final(storage), entity)
                &&& player_located(*final(storage), entity, pos)
                &&& player_id_clean(*final(storage), entity)
            }
        },
{
    let opos = match world.get_opt_entity(entity) {
        Some(e) => match e {
            Entity::Player(p) => p.movement.pos,
            _ => {
                return Ok(Position::default_value());
            },
        },
        None => {
            return Ok(Position::default_value());
        },
    };
    if pos == opos {
        return Ok(opos);
    }
    let map_idx = storage.find_map_index(opos.map);
    match map_idx {
        Some(i) => {
            proof {
                lemma_al_map_index(storage.maps@, i as int);
                assert(storage.maps_map().dom().contains(opos.map));
                assert(storage.maps_map()[opos.map].wf());
            }
            let (k1, mut m) = storage.maps.remove(i);
            let ghost mold = m;
            m.remove_entity_from_grid(entity);
            let ghost g1 = m;
            m.add_entity_to_grid(entity, pos);
            let ghost mv = m;
            proof {
                lemma_al_map_reinsert(old(storage).maps@, i as int, m);
            }
            storage.maps.push((k1, m));
            proof {
                assert forall|x: GlobalKey| #[trigger]
                    mv.has_player(x) <==> (mold.has_player(x) || x == entity) by {
                    assert(mv.players == mold.players);
                    assert(mv.has_player(x) == mold.has_player(x));
                    if x == entity {
                        assert(old(storage).maps_map()[opos.map].has_player(entity));
                    }
                }
                assert forall|e: crate::maps::GridEntry| #[trigger]
                    mv.grid@.contains(e) <==> ((mold.grid@.contains(e) && e.id != entity) || e
                        == (crate::maps::GridEntry { id: entity, x: pos.x, y: pos.y })) by {
                    assert(mv.grid@.contains(e) <==> ((g1.grid@.contains(e) && e.id != entity)
                        || e == (crate::maps::GridEntry { id: entity, x: pos.x, y: pos.y })));
                    assert(g1.grid@.contains(e) <==> (mold.grid@.contains(e) && e.id != entity));
                }
                assert forall|x: GlobalKey| #[trigger]
                    mv.grid_has(x) <==> (mold.grid_has(x) || x == entity) by {
                    assert(mv.grid_has(x) <==> (g1.grid_has(x) || x == entity));
                    assert(g1.grid_has(x) <==> (mold.grid_has(x) && x != entity));
                }
                assert(mv.npcs == mold.npcs && mv.itemids == mold.itemids);
                assert(added_to_map(mold, mv, entity, pos));
                lemma_switch_post_same(*old(storage), *storage, entity, opos, pos, mold, mv);
            }
        },
        None => {},
    }
    let iw = match world.find_index(entity) {
        Some(i) => i,
        None => {
            proof {
                assert(false);
            }
            return Ok(Position::default_value());
        },
    };
    proof {
        lemma_al_map_index(world.entities@, iw as int);
    }
    let (kw, ent) = world.entities.remove(iw);
    match ent {
        Entity::Player(mut p) => {
            p.movement.pos = pos;
            proof {
                lemma_al_map_reinsert(old(world).entities@, iw as int, Entity::Player(p));
            }
            world.entities.push((kw, Entity::Player(p)));
        },
        other => {
            world.entities.push((kw, other));
            proof {
                assert(false);
            }
            return Ok(Position::default_value());
        },
    }
    match map_idx {
        Some(_) => Ok(pos),
        None => Ok(opos),
    }
}

} // verus!

verus! {

/// Registers a relogin code and handshake on the player record, enters the
/// username and code into the process-wide lookups, and notifies the
/// client of its index and codes. The lookups and the notifications happen
/// whether or not the entity resolves to a player.
pub fn send_login_info(
    world: &mut World,
    storage: &mut Storage,
    entity: GlobalKey,
    code: String,
    handshake: String,
    socket_id: Token,
    username: String,
) -> (r: Result<(), AscendingError>)
    requires
        old(world).wf(),
    ensures
        final(world).wf(),
        r == Ok::<(), AscendingError>(()),
        final(storage).player_names@ == old(storage).player_names@.push((username, entity)),
        final(storage).player_code@ == old(storage).player_code@.push((code, entity)),
        final(storage).outbound@ == old(storage).outbound@ + seq![
            (OutMessage { socket: socket_id, packet: Packet::MyIndex { entity } }),
            (OutMessage { socket: socket_id, packet: Packet::Codes { code, handshake } }),
        ],
        final(storage).maps == old(storage).maps,
        final(storage).map_switch_tasks == old(storage).map_switch_tasks,
        final(storage).player_timeout == old(storage).player_timeout,
        final(storage).gettick == old(storage).gettick,
        final(storage).data_tasks == old(storage).data_tasks,
        old(world).is_player(entity) ==> {
            &&& final(world).is_player(entity)
            &&& login_updated(
                old(world).player_of(entity),
                final(world).player_of(entity),
                code,
                handshake,
            )
            &&& final(world).entity_map() == old(world).entity_map().insert(
                entity,
                Entity::Player(final(world).player_of(entity)),
            )
        },
        !old(world).is_player(entity) ==> *final(world) == *old(world),
{
    if is_player_entity(world, entity) {
        let iw = match world.find_index(entity) {
            Some(i) => i,
            None => {
                proof {
                    assert(false);
                }
                return Ok(());
            },
        };
        proof {
            lemma_al_map_index(world.entities@, iw as int);
        }
        let (kw, ent) = world.entities.remove(iw);
        match ent {
            Entity::Player(mut p) => {
                p.relogin_code.code.push(code.clone());
                p.login_handshake.handshake = handshake.clone();
                proof {
                    lemma_al_map_reinsert(old(world).entities@, iw as int, Entity::Player(p));
                }
                world.entities.push((kw, Entity::Player(p)));
            },
            other => {
                world.entities.push((kw, other));
                proof {
                    assert(false);
                }
                return Ok(());
            },
        }
    }
    storage.player_names.push((username, entity));
    storage.player_code.push((code.clone(), entity));
    match send_myindex(storage, socket_id, entity) {
        Ok(()) => {},
        Err(e) => {
            return Err(e);
        },
    }
    send_codes(storage, code, handshake, socket_id)
}

/// Registers fresh codes for a reconnecting player and notifies the
/// client; same observable effect as a login notification.
pub fn send_reconnect_info(
    world: &mut World,
    storage: &mut Storage,
    entity: GlobalKey,
    code: String,
    handshake: String,
    socket_id: Token,
    username: String,
) -> (r: Result<(), AscendingError>)
    requires
        old(world).wf(),
    ensures
        final(world).wf(),
        r == Ok::<(), AscendingError>(()),
        final(storage).player_names@ == old(storage).player_names@.push((username, entity)),
        final(storage).player_code@ == old(storage).player_code@.push((code, entity)),
        final(storage).outbound@ == old(storage).outbound@ + seq![
            (OutMessage { socket: socket_id, packet: Packet::MyIndex { entity } }),
            (OutMessage { socket: socket_id, packet: Packet::Codes { code, handshake } }),
        ],
        final(storage).maps == old(storage).maps,
        final(storage).map_switch_tasks == old(storage).map_switch_tasks,
        final(storage).player_timeout == old(storage).player_timeout,
        final(storage).gettick == old(storage).gettick,
        final(storage).data_tasks == old(storage).data_tasks,
        old(world).is_player(entity) ==> {
            &&& final(world).is_player(entity)
            &&& login_updated(
                old(world).player_of(entity),
                final(world).player_of(entity),
                code,
                handshake,
            )
            &&& final(world).entity_map() == old(world).entity_map().insert(
                entity,
                Entity::Player(final(world).player_of(entity)),
            )
        },
        !old(world).is_player(entity) ==> *final(world) == *old(world),
{
    if is_player_entity(world, entity) {
        let iw = match world.find_index(entity) {
            Some(i) => i,
            None => {
                proof {
                    assert(false);
                }
                return Ok(());
            },
        };
        proof {
            lemma_al_map_index(world.entities@, iw as int);
        }
        let (kw, ent) = world.entities.remove(iw);
        match ent {
            Entity::Player(mut p) => {
                p.relogin_code.code.push(code.clone());
                p.login_handshake.handshake = handshake.clone();
                proof {
                    lemma_al_map_reinsert(old(world).entities@, iw as int, Entity::Player(p));
                }
                world.entities.push((kw, Entity::Player(p)));
            },
            other => {
                world.entities.push((kw, other));
                proof {
                    assert(false);
                }
                return Ok(());
            },
        }
    }
    storage.player_names.push((username, entity));
    storage.player_code.push((code.clone(), entity));
    match send_myindex(storage, socket_id, entity) {
        Ok(()) => {},
        Err(e) => {
            return Err(e);
        },
    }
    send_codes(storage, code, handshake, socket_id)
}

/// Registers fresh codes for a reconnect over the encrypted channel and
/// notifies the client through its player entity's socket; only the
/// by-code lookup is touched, and a missing player is the one error.
pub fn send_tls_reconnect(
    world: &mut World,
    storage: &mut Storage,
    entity: GlobalKey,
    code: String,
    handshake: String,
) -> (r: Result<(), AscendingError>)
    requires
        old(world).wf(),
    ensures
        final(world).wf(),
        final(storage).player_code@ == old(storage).player_code@.push((code, entity)),
        final(storage).player_names == old(storage).player_names,
        final(storage).maps == old(storage).maps,
        final(storage).map_switch_tasks == old(storage).map_switch_tasks,
        final(storage).player_timeout == old(storage).player_timeout,
        final(storage).gettick == old(storage).gettick,
        final(storage).data_tasks == old(storage).data_tasks,
        old(world).is_player(entity) ==> {
            &&& r == Ok::<(), AscendingError>(())
            &&& final(world).is_player(entity)
            &&& login_updated(
                old(world).player_of(entity),
                final(world).player_of(entity),
                code,
                handshake,
            )
            &&& final(world).entity_map() == old(world).entity_map().insert(
                entity,
                Entity::Player(final(world).player_of(entity)),
            )
            &&& final(storage).outbound@ == old(storage).outbound@.push(
                (OutMessage {
                    socket: old(world).player_of(entity).socket.id,
                    packet: Packet::TlsCodes { code, handshake },
                }),
            )
        },
        !old(world).is_player(entity) ==> {
            &&& r == Err::<(), AscendingError>(AscendingError::MissingEntity)
            &&& *final(world) == *old(world)
            &&& final(storage).outbound == old(storage).outbound
        },
{
    if is_player_entity(world, entity) {
        let iw = match world.find_index(entity) {
            Some(i) => i,
            None => {
                proof {
                    assert(false);
                }
                return Err(AscendingError::missing_entity());
            },
        };
        proof {
            lemma_al_map_index(world.entities@, iw as int);
        }
        let (kw, ent) = world.entities.remove(iw);
        match ent {
            Entity::Player(mut p) => {
                p.relogin_code.code.push(code.clone());
                p.login_handshake.handshake = handshake.clone();
                proof {
                    lemma_al_map_reinsert(old(world).entities@, iw as int, Entity::Player(p));
                }
                world.entities.push((kw, Entity::Player(p)));
            },
            other => {
                world.entities.push((kw, other));
                proof {
                    assert(false);
                }
                return Err(AscendingError::missing_entity());
            },
        }
    }
    storage.player_code.push((code.clone(), entity));
    send_tls_codes(world, storage, entity, code, handshake)
}

} // verus!

verus! {

/// Rebinds a resident, disconnected player to a freshly accepted socket:
/// links the live session to the entity, marks the player accepted,
/// restarts the reconnect grace timer from the shared tick, and unindexes
/// the player from its region's grid — it becomes visible again only once
/// gameplay re-adds it. A missing or non-player id is a no-op.
pub fn reconnect_player(
    world: &mut World,
    storage: &mut Storage,
    server: &mut Server,
    old_entity: GlobalKey,
    new_socket: Token,
) -> (r: Result<(), AscendingError>)
    requires
        old(world).wf(),
        old(storage).wf(),
        old(storage).maps_wf(),
        old(server).wf(),
    ensures
        final(world).wf(),
        final(storage).wf(),
        final(storage).maps_wf(),
        final(server).wf(),
        r == Ok::<(), AscendingError>(()),
        !old(world).is_player(old_entity) ==> *final(world) == *old(world) && *final(storage)
            == *old(storage) && *final(server) == *old(server),
        old(world).is_player(old_entity) ==> {
            let p = old(world).player_of(old_entity);
            let pos = p.movement.pos;
            &&& (old(server).clients_map().dom().contains(new_socket) ==> final(server).clients_map()
                == old(server).clients_map().insert(
                new_socket,
                (crate::server::ClientInfo {
                    entity: Some(old_entity),
                    ..old(server).clients_map()[new_socket]
                }),
            ))
            &&& (!old(server).clients_map().dom().contains(new_socket) ==> *final(server) == *old(
                server,
            ))
            &&& final(world).entity_map() == old(world).entity_map().insert(
                old_entity,
                Entity::Player(with_online(p, crate::gametypes::OnlineType::Accepted)),
            )
            &&& final(storage).player_timeout@ == old(storage).player_timeout@.push(
                (
                    old_entity,
                    PlayerConnectionTimer(
                        MyInstant(sat_add_i64_spec(old(storage).gettick.0, RECONNECT_GRACE_MS)),
                    ),
                ),
            )
            &&& final(storage).maps_map().dom() == old(storage).maps_map().dom()
            &&& (old(storage).maps_map().dom().contains(pos.map) ==> {
                &&& final(storage).maps_map()[pos.map].players == old(
                    storage,
                ).maps_map()[pos.map].players
                &&& final(storage).maps_map()[pos.map].npcs == old(
                    storage,
                ).maps_map()[pos.map].npcs
                &&& final(storage).maps_map()[pos.map].itemids == old(
                    storage,
                ).maps_map()[pos.map].itemids
                &&& forall|e: crate::maps::GridEntry| #[trigger]
                    final(storage).maps_map()[pos.map].grid@.contains(e) <==> (old(
                        storage,
                    ).maps_map()[pos.map].grid@.contains(e) && e.id != old_entity)
                &&& forall|mp: crate::gametypes::MapPosition|
                    old(storage).maps_map().dom().contains(mp) && mp != pos.map ==> (
                    #[trigger] final(storage).maps_map()[mp]) == old(storage).maps_map()[mp]
            })
            &&& (!old(storage).maps_map().dom().contains(pos.map) ==> final(storage).maps == old(
                storage,
            ).maps)
            &&& final(storage).player_names == old(storage).player_names
            &&& final(storage).player_code == old(storage).player_code
            &&& final(storage).map_switch_tasks == old(storage).map_switch_tasks
            &&& final(storage).gettick == old(storage).gettick
            &&& final(storage).data_tasks == old(storage).data_tasks
            &&& final(storage).outbound == old(storage).outbound
        },
{
    if !is_player_entity(world, old_entity) {
        return Ok(());
    }
    let tick = storage.gettick;
    server.link_client_entity(new_socket, old_entity);
    let iw = match world.find_index(old_entity) {
        Some(i) => i,
        None => {
            proof {
                assert(false);
            }
            return Ok(());
        },
    };
    proof {
        lemma_al_map_index(world.entities@, iw as int);
    }
    let (kw, ent) = world.entities.remove(iw);
    let ghost pos = old(world).player_of(old_entity).movement.pos;
    let position: Position;
    match ent {
        Entity::Player(mut p) => {
            p.online_type = crate::gametypes::OnlineType::Accepted;
            position = p.movement.pos;
            proof {
                lemma_al_map_reinsert(old(world).entities@, iw as int, Entity::Player(p));
            }
            world.entities.push((kw, Entity::Player(p)));
        },
        other => {
            world.entities.push((kw, other));
            proof {
                assert(false);
            }
            return Ok(());
        },
    }
    let deadline = tick.checked_add(MyDuration::milliseconds(RECONNECT_GRACE_MS));
    storage.player_timeout.push((old_entity, PlayerConnectionTimer(deadline)));
    match storage.find_map_index(position.map) {
        Some(i) => {
            proof {
                lemma_al_map_index(storage.maps@, i as int);
                assert(storage.maps@ == old(storage).maps@);
                assert(storage.maps_map() == old(storage).maps_map());
                assert(storage.maps_map().dom().contains(position.map));
                assert(old(storage).maps_map()[position.map].wf());
            }
            let (k1, mut m) = storage.maps.remove(i);
            let ghost mold = m;
            m.remove_entity_from_grid(old_entity);
            let ghost mv = m;
            proof {
                lemma_al_map_reinsert(old(storage).maps@, i as int, m);
            }
            storage.maps.push((k1, m));
            proof {
                assert(storage.maps_map().dom() =~= old(storage).maps_map().dom());
                assert forall|mp: crate::gametypes::MapPosition|
                    storage.maps_map().dom().contains(mp) implies (
                #[trigger] storage.maps_map()[mp]).wf() by {
                    if mp != position.map {
                        assert(storage.maps_map()[mp] == old(storage).maps_map()[mp]);
                        assert(old(storage).maps_map()[mp].wf());
                    }
                }
            }
        },
        None => {
            proof {
                assert(storage.maps@ == old(storage).maps@);
                assert forall|mp: crate::gametypes::MapPosition|
                    storage.maps_map().dom().contains(mp) implies (
                #[trigger] storage.maps_map()[mp]).wf() by {
                    assert(storage.maps_map() == old(storage).maps_map());
                    assert(old(storage).maps_map()[mp].wf());
                }
            }
        },
    }
    Ok(())
}

} // verus!

verus! {

/// Grid/id-set consistency survives a paired add: registering an id in a
/// region's player set while indexing it on the grid keeps the set/grid
/// reading of the region in step for every id.
pub proof fn lemma_consistency_after_add(a: GameMap, b: GameMap, id: GlobalKey, pos: Position)
    requires
        a.consistent(),
        added_to_map(a, b, id, pos),
    ensures
        b.consistent(),
{
    assert forall|x: GlobalKey| #[trigger] b.in_sets(x) implies b.grid_has(x) by {
        if x != id {
            assert(a.in_sets(x) <==> a.grid_has(x));
        }
    }
    assert forall|x: GlobalKey| #[trigger] b.grid_has(x) implies b.in_sets(x) by {
        if x != id {
            assert(a.in_sets(x) <==> a.grid_has(x));
        }
    }
}

/// Grid/id-set consistency survives a paired remove: dropping a player id
/// from a region's set while unindexing it from the grid keeps the
/// set/grid reading in step, provided the id sat in no other category.
pub proof fn lemma_consistency_after_remove(a: GameMap, b: GameMap, id: GlobalKey)
    requires
        a.consistent(),
        !a.has_npc(id),
        !a.has_item(id),
        removed_from_map(a, b, id),
    ensures
        b.consistent(),
{
    assert forall|x: GlobalKey| #[trigger] b.in_sets(x) implies b.grid_has(x) by {
        if x != id {
            assert(a.in_sets(x) <==> a.grid_has(x));
        }
    }
    assert forall|x: GlobalKey| #[trigger] b.grid_has(x) implies b.in_sets(x) by {
        if x != id {
            assert(a.in_sets(x) <==> a.grid_has(x));
        }
    }
}

} // verus!
