//! The compute half of the persistence boundary: evaluating what the
//! account store answered, applying loaded rows to a player record, and
//! building the rows to save. The store itself — SQL, password hashing —
//! is an external collaborator; everything here works on plain values it
//! exchanges.

use vstd::prelude::*;

use crate::duration::{get_time_left, sat_add_i64_spec, MyDuration, MyInstant};
use crate::gametypes::{AscendingError, Position, VITALS_MAX};
use crate::world::{Item, PlayerEntity, UserAccess};

verus! {

/// An account row as the store returns it for a login check.
#[derive(Clone, Debug, PartialEq, Eq)]
pub struct PlayerWithPassword {
    pub uid: u128,
    pub password: String,
}

/// A boolean answer row from the store.
#[derive(Clone, Copy, Debug, PartialEq, Eq, Structural)]
pub struct Check {
    pub check: bool,
}

/// Values loaded from or saved to the account's general row.
#[derive(Clone, Copy, Debug, PartialEq, Eq, Structural)]
pub struct PGGeneral {
    pub sprite: i16,
    pub money: i64,
    pub resetcount: i16,
    pub itemtimer: i64,
    pub deathtimer: i64,
}

/// Values loaded from or saved to the account's combat row.
#[derive(Clone, Copy, Debug)]
pub struct PGCombat {
    pub indeath: bool,
    pub level: i32,
    pub levelexp: i64,
    pub pk: bool,
    pub vital: [i32; VITALS_MAX],
    pub vital_max: [i32; VITALS_MAX],
}

/// Values loaded from or saved to the account's location row.
#[derive(Clone, Copy, Debug, PartialEq, Eq, Structural)]
pub struct PGLocation {
    pub spawn: Position,
    pub pos: Position,
    pub dir: i16,
}

/// Identity fields loaded from the account row.
#[derive(Clone, Debug)]
pub struct PGAccount {
    pub username: String,
    pub passresetcode: Option<String>,
    pub useraccess: UserAccess,
}

/// One equipment, inventory or bank slot row.
#[derive(Clone, Copy, Debug)]
pub struct SlotRow {
    pub id: i16,
    pub num: i32,
    pub val: i16,
    pub level: i16,
    pub data: [i16; 5],
}

/// The rows a save writes back, handed whole to the store.
#[derive(Clone, Debug)]
pub struct PlayerSaveRows {
    pub account_id: u128,
    pub user_access: UserAccess,
    pub general: PGGeneral,
    pub combat: PGCombat,
    pub location: PGLocation,
}

/// The signed form an unsigned value takes in a store column: shifted down
/// by half the range, preserving order.
pub open spec fn unshift_u16_spec(v: u16) -> i16 {
    (v - 0x8000) as i16
}

pub open spec fn shift_i16_spec(v: i16) -> u16 {
    (v + 0x8000) as u16
}

pub open spec fn unshift_u32_spec(v: u32) -> i32 {
    (v - 0x8000_0000) as i32
}

pub open spec fn shift_i32_spec(v: i32) -> u32 {
    (v + 0x8000_0000) as u32
}

pub open spec fn unshift_u64_spec(v: u64) -> i64 {
    (v - 0x8000_0000_0000_0000) as i64
}

pub open spec fn shift_i64_spec(v: i64) -> u64 {
    (v + 0x8000_0000_0000_0000) as u64
}

/// Maps a signed store column into the unsigned range, order preserved.
pub fn shift_i16(v: i16) -> (r: u16)
    ensures
        r == shift_i16_spec(v),
{
    (v as i32 + 0x8000) as u16
}

/// Maps an unsigned value into the signed store column, order preserved.
pub fn unshift_u16(v: u16) -> (r: i16)
    ensures
        r == unshift_u16_spec(v),
{
    (v as i32 - 0x8000) as i16
}

pub fn shift_i32(v: i32) -> (r: u32)
    ensures
        r == shift_i32_spec(v),
{
    (v as i64 + 0x8000_0000) as u32
}

pub fn unshift_u32(v: u32) -> (r: i32)
    ensures
        r == unshift_u32_spec(v),
{
    (v as i64 - 0x8000_0000) as i32
}

pub fn shift_i64(v: i64) -> (r: u64)
    ensures
        r == shift_i64_spec(v),
{
    (v as i128 + 0x8000_0000_0000_0000) as u64
}

pub fn unshift_u64(v: u64) -> (r: i64)
    ensures
        r == unshift_u64_spec(v),
{
    (v as i128 - 0x8000_0000_0000_0000) as i64
}

/// Decides a login from what the store and the password check answered:
/// an unknown email is no account; an unreadable stored hash or a failed
/// verification is an incorrect password; otherwise the account id.
pub fn find_player(
    found: Option<PlayerWithPassword>,
    hash_ok: bool,
    verify_ok: bool,
) -> (r: Result<Option<u128>, AscendingError>)
    ensures
        found is None ==> r == Ok::<Option<u128>, AscendingError>(None),
        found is Some && !hash_ok ==> r == Err::<Option<u128>, AscendingError>(
            AscendingError::IncorrectPassword,
        ),
        found is Some && hash_ok && verify_ok ==> r == Ok::<Option<u128>, AscendingError>(
            Some(found->0.uid),
        ),
        found is Some && hash_ok && !verify_ok ==> r == Err::<Option<u128>, AscendingError>(
            AscendingError::IncorrectPassword,
        ),
{
    match found {
        Some(userdata) => {
            if !hash_ok {
                Err(AscendingError::IncorrectPassword)
            } else if verify_ok {
                Ok(Some(userdata.uid))
            } else {
                Err(AscendingError::IncorrectPassword)
            }
        },
        None => Ok(None),
    }
}

/// Folds the store's two existence answers into one code: one for a taken
/// username, two for a taken email, zero for neither.
pub fn check_existance(username_taken: bool, email_taken: bool) -> (r: Result<
    i64,
    AscendingError,
>)
    ensures
        username_taken ==> r == Ok::<i64, AscendingError>(1),
        !username_taken && email_taken ==> r == Ok::<i64, AscendingError>(2),
        !username_taken && !email_taken ==> r == Ok::<i64, AscendingError>(0),
{
    if username_taken {
        return Ok(1);
    }
    if email_taken {
        return Ok(2);
    }
    Ok(0)
}

/// The item a slot row loads into a bank.
pub open spec fn item_of_row(row: SlotRow) -> Item {
    Item {
        num: shift_i32_spec(row.num),
        val: shift_i16_spec(row.val),
        level: row.level as u8,
        data: row.data,
    }
}

/// Slot rows applied in order: each row with a valid slot id overwrites
/// that slot, any other row is ignored.
pub open spec fn apply_slots_spec(items: Seq<Item>, rows: Seq<SlotRow>) -> Seq<Item>
    decreases rows.len(),
{
    if rows.len() == 0 {
        items
    } else {
        let prev = apply_slots_spec(items, rows.drop_last());
        let row = rows.last();
        if 0 <= row.id < prev.len() {
            prev.update(row.id as int, item_of_row(row))
        } else {
            prev
        }
    }
}

/// Writes a batch of loaded slot rows into a bank of item slots.
pub fn apply_slot_rows(items: &mut Vec<Item>, rows: &Vec<SlotRow>)
    ensures
        final(items)@ == apply_slots_spec(old(items)@, rows@),
{
    let mut t: usize = 0;
    while t < rows.len()
        invariant
            t <= rows@.len(),
            items@ == apply_slots_spec(old(items)@, rows@.take(t as int)),
        decreases rows@.len() - t,
    {
        let row = rows[t];
        if row.id >= 0 && (row.id as usize) < items.len() {
            let idx = row.id as usize;
            let item = Item {
                num: shift_i32(row.num),
                val: shift_i16(row.val),
                level: row.level as u8,
                data: row.data,
            };
            let ghost before = items@;
            items.remove(idx);
            items.insert(idx, item);
            proof {
                assert(items@ =~= before.update(idx as int, item_of_row(row)));
            }
        }
        proof {
            assert(rows@.take(t as int + 1).drop_last() =~= rows@.take(t as int));
            assert(rows@.take(t as int + 1).last() == rows@[t as int]);
        }
        t += 1;
    }
    proof {
        assert(rows@.take(rows@.len() as int) =~= rows@);
    }
}

/// Applies every loaded row to a resident player record: identity, sprite
/// and money through the store's signed shift, timers re-anchored to the
/// shared tick, the three slot banks overwritten row by row, and combat
/// and location taken as stored.
pub fn load_player(
    entity: &mut PlayerEntity,
    tick: MyInstant,
    account_id: u128,
    account: &PGAccount,
    general: &PGGeneral,
    equipment_rows: &Vec<SlotRow>,
    inventory_rows: &Vec<SlotRow>,
    storage_rows: &Vec<SlotRow>,
    combat: &PGCombat,
    location: &PGLocation,
) -> (r: Result<(), AscendingError>)
    ensures
        r == Ok::<(), AscendingError>(()),
        final(entity).user_access == account.useraccess,
        final(entity).account.id == account_id,
        final(entity).account.username == account.username,
        final(entity).account.passresetcode == account.passresetcode,
        final(entity).sprite.id == shift_i16_spec(general.sprite),
        final(entity).money.vals == shift_i64_spec(general.money),
        final(entity).general.resetcount == general.resetcount,
        final(entity).item_timer.itemtimer.0 == sat_add_i64_spec(tick.0, general.itemtimer),
        final(entity).combat.death_timer.0 == sat_add_i64_spec(tick.0, general.deathtimer),
        final(entity).equipment.items@ == apply_slots_spec(
            old(entity).equipment.items@,
            equipment_rows@,
        ),
        final(entity).inventory.items@ == apply_slots_spec(
            old(entity).inventory.items@,
            inventory_rows@,
        ),
        final(entity).storage.items@ == apply_slots_spec(
            old(entity).storage.items@,
            storage_rows@,
        ),
        final(entity).general.pk == combat.pk,
        final(entity).general.levelexp == shift_i64_spec(combat.levelexp),
        final(entity).combat.level == combat.level,
        final(entity).combat.vitals.vital == combat.vital,
        final(entity).combat.vitals.vitalmax == combat.vital_max,
        final(entity).movement.pos == location.pos,
        final(entity).movement.spawn == location.spawn,
        final(entity).movement.dir == location.dir as u8,
        final(entity).combat.vitals.vitalbuffs == old(entity).combat.vitals.vitalbuffs,
        final(entity).socket == old(entity).socket,
        final(entity).online_type == old(entity).online_type,
        final(entity).relogin_code == old(entity).relogin_code,
        final(entity).login_handshake == old(entity).login_handshake,
{
    entity.user_access = account.useraccess;
    entity.account.id = account_id;
    entity.account.username = account.username.clone();
    entity.account.passresetcode = match &account.passresetcode {
        Some(c) => Some(c.clone()),
        None => None,
    };
    entity.sprite.id = shift_i16(general.sprite);
    entity.money.vals = shift_i64(general.money);
    entity.general.resetcount = general.resetcount;
    entity.item_timer.itemtimer = tick.checked_add(MyDuration::milliseconds(general.itemtimer));
    entity.combat.death_timer = tick.checked_add(MyDuration::milliseconds(general.deathtimer));
    apply_slot_rows(&mut entity.equipment.items, equipment_rows);
    apply_slot_rows(&mut entity.inventory.items, inventory_rows);
    apply_slot_rows(&mut entity.storage.items, storage_rows);
    entity.general.pk = combat.pk;
    entity.general.levelexp = shift_i64(combat.levelexp);
    entity.combat.level = combat.level;
    entity.combat.vitals.vital = combat.vital;
    entity.combat.vitals.vitalmax = combat.vital_max;
    entity.movement.pos = location.pos;
    entity.movement.spawn = location.spawn;
    entity.movement.dir = location.dir as u8;
    Ok(())
}

/// Builds the rows a save writes back: sprite, money and experience
/// through the store's signed shift, timers as time still to run from the
/// shared tick, combat and location as they stand.
pub fn save_player(storage: &crate::storage::Storage, player: &PlayerEntity) -> (r: PlayerSaveRows)
    ensures
        r.account_id == player.account.id,
        r.user_access == player.user_access,
        r.general.sprite == unshift_u16_spec(player.sprite.id),
        r.general.money == unshift_u64_spec(player.money.vals),
        r.general.resetcount == player.general.resetcount,
        storage.gettick.0 >= player.item_timer.itemtimer.0 ==> r.general.itemtimer == 0,
        storage.gettick.0 < player.item_timer.itemtimer.0 ==> r.general.itemtimer
            == player.item_timer.itemtimer.0 - storage.gettick.0 || (player.item_timer.itemtimer.0
            - storage.gettick.0 > i64::MAX && r.general.itemtimer == i64::MAX),
        storage.gettick.0 >= player.combat.death_timer.0 ==> r.general.deathtimer == 0,
        storage.gettick.0 < player.combat.death_timer.0 ==> r.general.deathtimer
            == player.combat.death_timer.0 - storage.gettick.0 || (player.combat.death_timer.0
            - storage.gettick.0 > i64::MAX && r.general.deathtimer == i64::MAX),
        r.combat.indeath == player.combat.death_type.spec_is_dead(),
        r.combat.level == player.combat.level,
        r.combat.levelexp == unshift_u64_spec(player.general.levelexp),
        r.combat.pk == player.general.pk,
        r.combat.vital == player.combat.vitals.vital,
        r.combat.vital_max == player.combat.vitals.vitalmax,
        r.location.spawn == player.movement.spawn,
        r.location.pos == player.movement.pos,
        r.location.dir == player.movement.dir as i16,
{
    let tick = storage.gettick;
    PlayerSaveRows {
        account_id: player.account.id,
        user_access: player.user_access,
        general: PGGeneral {
            sprite: unshift_u16(player.sprite.id),
            money: unshift_u64(player.money.vals),
            resetcount: player.general.resetcount,
            itemtimer: get_time_left(player.item_timer.itemtimer, tick),
            deathtimer: get_time_left(player.combat.death_timer, tick),
        },
        combat: PGCombat {
            indeath: player.combat.death_type.is_dead(),
            level: player.combat.level,
            levelexp: unshift_u64(player.general.levelexp),
            pk: player.general.pk,
            vital: player.combat.vitals.vital,
            vital_max: player.combat.vitals.vitalmax,
        },
        location: PGLocation {
            spawn: player.movement.spawn,
            pos: player.movement.pos,
            dir: player.movement.dir as i16,
        },
    }
}

} // verus!
