//! The visibility task queue: per-player batches of entity ids still to be
//! announced after a map switch, drained a bounded number per tick.

use vstd::prelude::*;

use crate::gametypes::GlobalKey;

verus! {

/// One pending announce batch for a player, per entity category.
#[derive(Clone, Debug, PartialEq, Eq)]
pub enum MapSwitchTasks {
    Npc(Vec<GlobalKey>),
    Player(Vec<GlobalKey>),
    Items(Vec<GlobalKey>),
}

} // verus!

verus! {

broadcast use vstd::seq_lib::group_seq_properties;

/// Entity categories a visibility batch distinguishes.
pub const CAT_PLAYER: u8 = 0;

pub const CAT_NPC: u8 = 1;

pub const CAT_ITEM: u8 = 2;

/// Whether `id` is registered in the `cat` id-set of region `m`.
pub open spec fn cat_has(m: crate::maps::GameMap, cat: u8, id: GlobalKey) -> bool {
    if cat == CAT_PLAYER {
        m.has_player(id)
    } else if cat == CAT_NPC {
        m.has_npc(id)
    } else {
        m.has_item(id)
    }
}

/// Whether `id` of category `cat` is visible from any registered region of
/// `mlist`.
pub open spec fn visible_in(
    s: crate::storage::Storage,
    mlist: Seq<crate::gametypes::MapPosition>,
    cat: u8,
    id: GlobalKey,
) -> bool {
    exists|k: int|
        0 <= k < mlist.len() && s.maps_map().dom().contains(mlist[k]) && #[trigger] cat_has(
            s.maps_map()[mlist[k]],
            cat,
            id,
        )
}

/// Visibility over one more region decomposes into the earlier regions
/// plus the new one.
proof fn lemma_visible_take_step(
    s: crate::storage::Storage,
    mlist: Seq<crate::gametypes::MapPosition>,
    cat: u8,
    k: int,
)
    requires
        0 <= k < mlist.len(),
    ensures
        forall|id: GlobalKey|
            visible_in(s, mlist.take(k + 1), cat, id) <==> (visible_in(s, mlist.take(k), cat, id)
                || (s.maps_map().dom().contains(mlist[k]) && cat_has(
                s.maps_map()[mlist[k]],
                cat,
                id,
            ))),
{
    assert forall|id: GlobalKey|
        visible_in(s, mlist.take(k + 1), cat, id) implies (visible_in(s, mlist.take(k), cat, id)
        || (s.maps_map().dom().contains(mlist[k]) && cat_has(s.maps_map()[mlist[k]], cat, id))) by {
        let t = choose|t: int|
            0 <= t < mlist.take(k + 1).len() && s.maps_map().dom().contains(mlist.take(k + 1)[t])
                && #[trigger] cat_has(s.maps_map()[mlist.take(k + 1)[t]], cat, id);
        if t < k {
            assert(mlist.take(k)[t] == mlist.take(k + 1)[t]);
        } else {
            assert(mlist.take(k + 1)[t] == mlist[k]);
        }
    }
    assert forall|id: GlobalKey|
        (visible_in(s, mlist.take(k), cat, id) || (s.maps_map().dom().contains(mlist[k])
            && cat_has(s.maps_map()[mlist[k]], cat, id))) implies visible_in(
        s,
        mlist.take(k + 1),
        cat,
        id,
    ) by {
        if visible_in(s, mlist.take(k), cat, id) {
            let t = choose|t: int|
                0 <= t < mlist.take(k).len() && s.maps_map().dom().contains(mlist.take(k)[t])
                    && #[trigger] cat_has(s.maps_map()[mlist.take(k)[t]], cat, id);
            assert(mlist.take(k + 1)[t] == mlist.take(k)[t]);
        } else {
            assert(mlist.take(k + 1)[k] == mlist[k]);
        }
    }
}

/// Collects into one duplicate-free list every id of category `cat`
/// registered on any listed region.
fn collect_visible(
    storage: &crate::storage::Storage,
    mlist: &Vec<crate::gametypes::MapPosition>,
    cat: u8,
) -> (r: Vec<GlobalKey>)
    requires
        storage.wf(),
    ensures
        crate::maps::ids_unique(r@),
        forall|id: GlobalKey| r@.contains(id) <==> visible_in(*storage, mlist@, cat, id),
{
    let mut r: Vec<GlobalKey> = Vec::new();
    let mut k: usize = 0;
    while k < mlist.len()
        invariant
            storage.wf(),
            k <= mlist@.len(),
            crate::maps::ids_unique(r@),
            forall|id: GlobalKey|
                #[trigger] r@.contains(id) <==> visible_in(*storage, mlist@.take(k as int), cat, id),
        decreases mlist@.len() - k,
    {
        let mp = mlist[k];
        match storage.find_map_index(mp) {
            Some(j) => {
                proof {
                    crate::assoc::lemma_al_map_index(storage.maps@, j as int);
                }
                let ghost r_before = r@;
                let m = &storage.maps[j].1;
                let list = if cat == CAT_PLAYER {
                    &m.players
                } else if cat == CAT_NPC {
                    &m.npcs
                } else {
                    &m.itemids
                };
                let mut t: usize = 0;
                while t < list.len()
                    invariant
                        t <= list@.len(),
                        crate::maps::ids_unique(r@),
                        forall|id: GlobalKey|
                            #[trigger] r@.contains(id) <==> (r_before.contains(id) || list@.take(
                                t as int,
                            ).contains(id)),
                    decreases list@.len() - t,
                {
                    let id = list[t];
                    let ghost r_prev = r@;
                    crate::maps::ids_insert(&mut r, id);
                    proof {
                        assert(list@.take(t as int + 1) =~= list@.take(t as int).push(
                            list@[t as int],
                        ));
                        assert forall|x: GlobalKey|
                            r@.contains(x) <==> (r_before.contains(x) || list@.take(
                                t as int + 1,
                            ).contains(x)) by {
                            assert(r_prev.contains(x) <==> (r_before.contains(x) || list@.take(
                                t as int,
                            ).contains(x)));
                            assert(r@.contains(x) <==> (r_prev.contains(x) || x == id));
                            assert(id == list@[t as int]);
                            assert(list@.take(t as int).push(list@[t as int]).contains(x) <==> (
                            list@.take(t as int).contains(x) || x == list@[t as int]));
                            assert(list@.take(t as int + 1).contains(x) == list@.take(
                                t as int,
                            ).push(list@[t as int]).contains(x));
                        }
                    }
                    t += 1;
                }
                proof {
                    assert(list@.take(list@.len() as int) =~= list@);
                    lemma_visible_take_step(*storage, mlist@, cat, k as int);
                    assert forall|id: GlobalKey|
                        r@.contains(id) <==> visible_in(
                            *storage,
                            mlist@.take(k as int + 1),
                            cat,
                            id,
                        ) by {
                        assert(storage.maps_map()[mp] == storage.maps@[j as int].1);
                        assert(list@.contains(id) == cat_has(storage.maps_map()[mp], cat, id));
                        assert(r_before.contains(id) <==> visible_in(
                            *storage,
                            mlist@.take(k as int),
                            cat,
                            id,
                        ));
                        assert(list@.take(list@.len() as int).contains(id) == list@.contains(id));
                        assert(r@.contains(id) <==> (r_before.contains(id) || list@.take(
                            list@.len() as int,
                        ).contains(id)));
                    }
                }
            },
            None => {
                proof {
                    lemma_visible_take_step(*storage, mlist@, cat, k as int);
                }
            },
        }
        k += 1;
    }
    proof {
        assert(mlist@.take(mlist@.len() as int) =~= mlist@);
    }
    r
}

/// Builds the duplicate-free announce list for one category: the ids
/// visible from the new surrounding set that are new to the client — not
/// previously visible — or still pending from an earlier, undrained
/// computation.
fn build_announce(
    storage: &crate::storage::Storage,
    mlist: &Vec<crate::gametypes::MapPosition>,
    old_vis: &Vec<GlobalKey>,
    pend: &Vec<GlobalKey>,
    cat: u8,
) -> (r: Vec<GlobalKey>)
    requires
        storage.wf(),
    ensures
        crate::maps::ids_unique(r@),
        forall|id: GlobalKey|
            r@.contains(id) <==> (visible_in(*storage, mlist@, cat, id) && (!old_vis@.contains(id)
                || pend@.contains(id))),
{
    let mut r: Vec<GlobalKey> = Vec::new();
    let mut k: usize = 0;
    while k < mlist.len()
        invariant
            storage.wf(),
            k <= mlist@.len(),
            crate::maps::ids_unique(r@),
            forall|id: GlobalKey|
                #[trigger] r@.contains(id) <==> (visible_in(*storage, mlist@.take(k as int), cat, id)
                    && (!old_vis@.contains(id) || pend@.contains(id))),
        decreases mlist@.len() - k,
    {
        let mp = mlist[k];
        match storage.find_map_index(mp) {
            Some(j) => {
                proof {
                    crate::assoc::lemma_al_map_index(storage.maps@, j as int);
                }
                let ghost r_before = r@;
                let m = &storage.maps[j].1;
                let list = if cat == CAT_PLAYER {
                    &m.players
                } else if cat == CAT_NPC {
                    &m.npcs
                } else {
                    &m.itemids
                };
                let mut t: usize = 0;
                while t < list.len()
                    invariant
                        t <= list@.len(),
                        crate::maps::ids_unique(r@),
                        forall|id: GlobalKey|
                            #[trigger] r@.contains(id) <==> (r_before.contains(id) || (list@.take(
                                t as int,
                            ).contains(id) && (!old_vis@.contains(id) || pend@.contains(id)))),
                    decreases list@.len() - t,
                {
                    let id = list[t];
                    let ghost r_prev = r@;
                    let keep = !crate::maps::ids_contain(old_vis, id) || crate::maps::ids_contain(
                        pend,
                        id,
                    );
                    if keep {
                        crate::maps::ids_insert(&mut r, id);
                    }
                    proof {
                        assert(list@.take(t as int + 1) =~= list@.take(t as int).push(
                            list@[t as int],
                        ));
                        assert forall|x: GlobalKey|
                            r@.contains(x) <==> (r_before.contains(x) || (list@.take(
                                t as int + 1,
                            ).contains(x) && (!old_vis@.contains(x) || pend@.contains(x)))) by {
                            if keep {
                                assert(r@.contains(x) <==> (r_prev.contains(x) || x == id));
                            } else {
                                assert(r@ == r_prev);
                            }
                            assert(r_prev.contains(x) <==> (r_before.contains(x) || (list@.take(
                                t as int,
                            ).contains(x) && (!old_vis@.contains(x) || pend@.contains(x)))));
                            assert(id == list@[t as int]);
                            assert(list@.take(t as int).push(list@[t as int]).contains(x) <==> (
                            list@.take(t as int).contains(x) || x == list@[t as int]));
                            assert(list@.take(t as int + 1).contains(x) == list@.take(
                                t as int,
                            ).push(list@[t as int]).contains(x));
                        }
                    }
                    t += 1;
                }
                proof {
                    assert(list@.take(list@.len() as int) =~= list@);
                    lemma_visible_take_step(*storage, mlist@, cat, k as int);
                    assert forall|id: GlobalKey|
                        r@.contains(id) <==> (visible_in(*storage, mlist@.take(k as int + 1), cat, id)
                            && (!old_vis@.contains(id) || pend@.contains(id))) by {
                        assert(storage.maps_map()[mp] == storage.maps@[j as int].1);
                        assert(list@.contains(id) == cat_has(storage.maps_map()[mp], cat, id));
                        assert(r_before.contains(id) <==> (visible_in(
                            *storage,
                            mlist@.take(k as int),
                            cat,
                            id,
                        ) && (!old_vis@.contains(id) || pend@.contains(id))));
                        assert(list@.take(list@.len() as int).contains(id) == list@.contains(id));
                        assert(r@.contains(id) <==> (r_before.contains(id) || (list@.take(
                            list@.len() as int,
                        ).contains(id) && (!old_vis@.contains(id) || pend@.contains(id)))));
                    }
                }
            },
            None => {
                proof {
                    lemma_visible_take_step(*storage, mlist@, cat, k as int);
                }
            },
        }
        k += 1;
    }
    proof {
        assert(mlist@.take(mlist@.len() as int) =~= mlist@);
    }
    r
}

} // verus!

verus! {

/// Visibility only reads the region registry: storages with equal
/// registries see the same ids.
proof fn lemma_visible_same_maps(
    a: crate::storage::Storage,
    b: crate::storage::Storage,
    mlist: Seq<crate::gametypes::MapPosition>,
    cat: u8,
)
    requires
        a.maps == b.maps,
    ensures
        forall|id: GlobalKey| visible_in(a, mlist, cat, id) == visible_in(b, mlist, cat, id),
{
    assert(a.maps_map() == b.maps_map());
    assert forall|id: GlobalKey|
        visible_in(a, mlist, cat, id) == visible_in(b, mlist, cat, id) by {
        if visible_in(a, mlist, cat, id) {
            let k = choose|k: int|
                0 <= k < mlist.len() && a.maps_map().dom().contains(mlist[k])
                    && #[trigger] cat_has(a.maps_map()[mlist[k]], cat, id);
            assert(cat_has(b.maps_map()[mlist[k]], cat, id));
        }
        if visible_in(b, mlist, cat, id) {
            let k = choose|k: int|
                0 <= k < mlist.len() && b.maps_map().dom().contains(mlist[k])
                    && #[trigger] cat_has(b.maps_map()[mlist[k]], cat, id);
            assert(cat_has(a.maps_map()[mlist[k]], cat, id));
        }
    }
}

/// The batch lists a pending entry must carry: player, NPC and item lists,
/// in that order.
pub open spec fn entry_shape(ts: Seq<MapSwitchTasks>) -> bool {
    &&& ts.len() == 3
    &&& ts[0] is Player
    &&& ts[1] is Npc
    &&& ts[2] is Items
}

/// Every pending entry carries the three category lists.
pub open spec fn tasks_wf(s: crate::storage::Storage) -> bool {
    forall|i: int|
        0 <= i < s.map_switch_tasks@.len() ==> entry_shape(
            (#[trigger] s.map_switch_tasks@[i]).1@,
        )
}

/// The ids a batch of any category carries.
pub open spec fn task_ids(t: MapSwitchTasks) -> Seq<GlobalKey> {
    match t {
        MapSwitchTasks::Npc(v) => v@,
        MapSwitchTasks::Player(v) => v@,
        MapSwitchTasks::Items(v) => v@,
    }
}

/// The pending list of one category slot for `user`, empty when no entry
/// is pending.
pub open spec fn pending_of(s: crate::storage::Storage, user: GlobalKey, idx: int) -> Seq<
    GlobalKey,
> {
    if s.tasks_map().dom().contains(user) {
        task_ids(s.tasks_map()[user][idx])
    } else {
        Seq::empty()
    }
}

/// No pending id that is still visible is lost by a recomputation: it
/// reappears in the freshly computed announce list.
pub proof fn lemma_no_pending_loss(
    s: crate::storage::Storage,
    mlist: Seq<crate::gametypes::MapPosition>,
    old_vis: Seq<GlobalKey>,
    pend: Seq<GlobalKey>,
    cat: u8,
    announced: Seq<GlobalKey>,
    id: GlobalKey,
)
    requires
        forall|x: GlobalKey|
            announced.contains(x) <==> (visible_in(s, mlist, cat, x) && (!old_vis.contains(x)
                || pend.contains(x))),
        pend.contains(id),
        visible_in(s, mlist, cat, id),
    ensures
        announced.contains(id),
{
}

/// Computes the three announce batches for `user` after its visible-map
/// set changed: everything visible from the new surrounding set that the
/// client does not already know — plus anything still pending from an
/// earlier undrained computation — replaces the user's pending entry.
pub fn init_data_lists(
    world: &mut crate::world::World,
    storage: &mut crate::storage::Storage,
    user: GlobalKey,
    oldmap: Option<crate::gametypes::MapPosition>,
) -> (r: Result<(), crate::gametypes::AscendingError>)
    requires
        old(world).wf(),
        old(storage).wf(),
        tasks_wf(*old(storage)),
        old(world).is_player(user) ==> {
            let mp = old(world).player_of(user).movement.pos.map;
            i32::MIN < mp.x < i32::MAX && i32::MIN < mp.y < i32::MAX
        },
        oldmap is Some ==> {
            let mp = oldmap->0;
            i32::MIN < mp.x < i32::MAX && i32::MIN < mp.y < i32::MAX
        },
    ensures
        *final(world) == *old(world),
        final(storage).wf(),
        tasks_wf(*final(storage)),
        r == Ok::<(), crate::gametypes::AscendingError>(()),
        final(storage).maps == old(storage).maps,
        final(storage).player_names == old(storage).player_names,
        final(storage).player_code == old(storage).player_code,
        final(storage).player_timeout == old(storage).player_timeout,
        final(storage).gettick == old(storage).gettick,
        final(storage).data_tasks == old(storage).data_tasks,
        final(storage).outbound == old(storage).outbound,
        !old(world).is_player(user) ==> *final(storage) == *old(storage),
        old(world).is_player(user) ==> {
            let s0 = *old(storage);
            let new_list = crate::maps::surrounding_spec(
                old(world).player_of(user).movement.pos.map,
                true,
            );
            let old_list = if oldmap is Some {
                crate::maps::surrounding_spec(oldmap->0, true)
            } else {
                Seq::<crate::gametypes::MapPosition>::empty()
            };
            &&& final(storage).tasks_map().dom() =~= s0.tasks_map().dom().insert(user)
            &&& forall|k: GlobalKey|
                s0.tasks_map().dom().contains(k) && k != user
                    ==> (#[trigger] final(storage).tasks_map()[k]) == s0.tasks_map()[k]
            &&& entry_shape(final(storage).tasks_map()[user])
            &&& crate::maps::ids_unique(task_ids(final(storage).tasks_map()[user][0]))
            &&& crate::maps::ids_unique(task_ids(final(storage).tasks_map()[user][1]))
            &&& crate::maps::ids_unique(task_ids(final(storage).tasks_map()[user][2]))
            &&& forall|id: GlobalKey|
                #[trigger] task_ids(final(storage).tasks_map()[user][0]).contains(id) <==> (
                visible_in(s0, new_list, CAT_PLAYER, id) && (!visible_in(
                    s0,
                    old_list,
                    CAT_PLAYER,
                    id,
                ) || pending_of(s0, user, 0).contains(id)))
            &&& forall|id: GlobalKey|
                #[trigger] task_ids(final(storage).tasks_map()[user][1]).contains(id) <==> (
                visible_in(s0, new_list, CAT_NPC, id) && (!visible_in(s0, old_list, CAT_NPC, id)
                    || pending_of(s0, user, 1).contains(id)))
            &&& forall|id: GlobalKey|
                #[trigger] task_ids(final(storage).tasks_map()[user][2]).contains(id) <==> (
                visible_in(s0, new_list, CAT_ITEM, id) && (!visible_in(s0, old_list, CAT_ITEM, id)
                    || pending_of(s0, user, 2).contains(id)))
        },
{
    let upos = match world.get_opt_entity(user) {
        Some(e) => match e {
            crate::world::Entity::Player(p) => p.movement.pos,
            _ => {
                return Ok(());
            },
        },
        None => {
            return Ok(());
        },
    };
    let tidx = storage.find_task_index(user);
    let mut pend_p: Vec<GlobalKey> = Vec::new();
    let mut pend_n: Vec<GlobalKey> = Vec::new();
    let mut pend_i: Vec<GlobalKey> = Vec::new();
    let ghost entries0 = storage.map_switch_tasks@;
    match tidx {
        Some(i) => {
            proof {
                crate::assoc::lemma_al_map_index(storage.map_switch_tasks@, i as int);
                assert(entry_shape(entries0[i as int].1@));
            }
            let (_, mut ts) = storage.map_switch_tasks.remove(i);
            let t2 = match ts.pop() {
                Some(t) => t,
                None => {
                    proof {
                        assert(false);
                    }
                    return Ok(());
                },
            };
            let t1 = match ts.pop() {
                Some(t) => t,
                None => {
                    proof {
                        assert(false);
                    }
                    return Ok(());
                },
            };
            let t0 = match ts.pop() {
                Some(t) => t,
                None => {
                    proof {
                        assert(false);
                    }
                    return Ok(());
                },
            };
            match t0 {
                MapSwitchTasks::Player(v) => {
                    pend_p = v;
                },
                _ => {
                    proof {
                        assert(false);
                    }
                    return Ok(());
                },
            }
            match t1 {
                MapSwitchTasks::Npc(v) => {
                    pend_n = v;
                },
                _ => {
                    proof {
                        assert(false);
                    }
                    return Ok(());
                },
            }
            match t2 {
                MapSwitchTasks::Items(v) => {
                    pend_i = v;
                },
                _ => {
                    proof {
                        assert(false);
                    }
                    return Ok(());
                },
            }
            proof {
                assert(pend_p@ == pending_of(*old(storage), user, 0));
                assert(pend_n@ == pending_of(*old(storage), user, 1));
                assert(pend_i@ == pending_of(*old(storage), user, 2));
            }
        },
        None => {
            proof {
                assert(pend_p@ == pending_of(*old(storage), user, 0));
                assert(pend_n@ == pending_of(*old(storage), user, 1));
                assert(pend_i@ == pending_of(*old(storage), user, 2));
            }
        },
    }
    let new_surround = crate::maps::get_surrounding(upos.map, true);
    let old_surround = match oldmap {
        Some(m) => crate::maps::get_surrounding(m, true),
        None => Vec::new(),
    };
    let ghost s_mid = *storage;
    let old_p = collect_visible(storage, &old_surround, CAT_PLAYER);
    let old_n = collect_visible(storage, &old_surround, CAT_NPC);
    let old_i = collect_visible(storage, &old_surround, CAT_ITEM);
    let task_player = build_announce(storage, &new_surround, &old_p, &pend_p, CAT_PLAYER);
    let task_npc = build_announce(storage, &new_surround, &old_n, &pend_n, CAT_NPC);
    let task_item = build_announce(storage, &new_surround, &old_i, &pend_i, CAT_ITEM);
    let ghost tpv = task_player@;
    let ghost tnv = task_npc@;
    let ghost tiv = task_item@;
    let mut new_entry: Vec<MapSwitchTasks> = Vec::new();
    new_entry.push(MapSwitchTasks::Player(task_player));
    new_entry.push(MapSwitchTasks::Npc(task_npc));
    new_entry.push(MapSwitchTasks::Items(task_item));
    proof {
        assert(task_ids(new_entry@[0]) == tpv);
        assert(task_ids(new_entry@[1]) == tnv);
        assert(task_ids(new_entry@[2]) == tiv);
    }
    match tidx {
        Some(i) => {
            proof {
                crate::assoc::lemma_al_map_reinsert(entries0, i as int, new_entry);
                entries0.remove_ensures(i as int);
            }
            storage.map_switch_tasks.push((user, new_entry));
            proof {
                let t = storage.map_switch_tasks@;
                assert forall|s: int| 0 <= s < t.len() implies entry_shape(
                    (#[trigger] t[s]).1@,
                ) by {
                    if s < t.len() - 1 {
                        if s < i {
                            assert(t[s] == entries0[s]);
                        } else {
                            assert(t[s] == entries0[s + 1]);
                        }
                    }
                }
            }
        },
        None => {
            proof {
                crate::assoc::lemma_al_map_dom(storage.map_switch_tasks@, user);
                crate::assoc::lemma_al_map_push(storage.map_switch_tasks@, user, new_entry);
            }
            storage.map_switch_tasks.push((user, new_entry));
            proof {
                let t = storage.map_switch_tasks@;
                assert forall|p: int, q: int| 0 <= p < q < t.len() implies t[p].0 != t[q].0 by {
                    if q == t.len() - 1 {
                        assert(t[p] == entries0[p]);
                    }
                }
                assert forall|s: int| 0 <= s < t.len() implies entry_shape(
                    (#[trigger] t[s]).1@,
                ) by {
                    if s < t.len() - 1 {
                        assert(t[s] == entries0[s]);
                    }
                }
            }
        },
    }
    proof {
        assert(storage.tasks_map().dom() =~= old(storage).tasks_map().dom().insert(user));
        assert forall|k: GlobalKey|
            old(storage).tasks_map().dom().contains(k) && k != user implies (
        #[trigger] storage.tasks_map()[k]) == old(storage).tasks_map()[k] by {
            assert(crate::assoc::al_map(storage.map_switch_tasks@)[k] == crate::assoc::al_map(
                entries0,
            )[k]);
        }
        assert(storage.tasks_map()[user] == new_entry@);
        let s0 = *old(storage);
        let new_list = crate::maps::surrounding_spec(
            old(world).player_of(user).movement.pos.map,
            true,
        );
        let old_list = if oldmap is Some {
            crate::maps::surrounding_spec(oldmap->0, true)
        } else {
            Seq::<crate::gametypes::MapPosition>::empty()
        };
        assert(new_surround@ == new_list);
        assert(old_surround@ =~= old_list);
        lemma_visible_same_maps(s_mid, s0, new_list, CAT_PLAYER);
        lemma_visible_same_maps(s_mid, s0, new_list, CAT_NPC);
        lemma_visible_same_maps(s_mid, s0, new_list, CAT_ITEM);
        lemma_visible_same_maps(s_mid, s0, old_list, CAT_PLAYER);
        lemma_visible_same_maps(s_mid, s0, old_list, CAT_NPC);
        lemma_visible_same_maps(s_mid, s0, old_list, CAT_ITEM);
        assert forall|id: GlobalKey|
            #[trigger] task_ids(storage.tasks_map()[user][0]).contains(id) <==> (visible_in(
                s0,
                new_list,
                CAT_PLAYER,
                id,
            ) && (!visible_in(s0, old_list, CAT_PLAYER, id) || pending_of(s0, user, 0).contains(
                id,
            ))) by {
            assert(task_ids(storage.tasks_map()[user][0]) == tpv);
            assert(tpv.contains(id) <==> (visible_in(s_mid, new_surround@, CAT_PLAYER, id) && (
            !old_p@.contains(id) || pend_p@.contains(id))));
            assert(old_p@.contains(id) <==> visible_in(s_mid, old_surround@, CAT_PLAYER, id));
            assert(visible_in(s_mid, new_list, CAT_PLAYER, id) == visible_in(
                s0,
                new_list,
                CAT_PLAYER,
                id,
            ));
            assert(visible_in(s_mid, old_list, CAT_PLAYER, id) == visible_in(
                s0,
                old_list,
                CAT_PLAYER,
                id,
            ));
        }
        assert forall|id: GlobalKey|
            #[trigger] task_ids(storage.tasks_map()[user][1]).contains(id) <==> (visible_in(
                s0,
                new_list,
                CAT_NPC,
                id,
            ) && (!visible_in(s0, old_list, CAT_NPC, id) || pending_of(s0, user, 1).contains(
                id,
            ))) by {
            assert(task_ids(storage.tasks_map()[user][1]) == tnv);
            assert(tnv.contains(id) <==> (visible_in(s_mid, new_surround@, CAT_NPC, id) && (
            !old_n@.contains(id) || pend_n@.contains(id))));
            assert(old_n@.contains(id) <==> visible_in(s_mid, old_surround@, CAT_NPC, id));
            assert(visible_in(s_mid, new_list, CAT_NPC, id) == visible_in(
                s0,
                new_list,
                CAT_NPC,
                id,
            ));
            assert(visible_in(s_mid, old_list, CAT_NPC, id) == visible_in(
                s0,
                old_list,
                CAT_NPC,
                id,
            ));
        }
        assert forall|id: GlobalKey|
            #[trigger] task_ids(storage.tasks_map()[user][2]).contains(id) <==> (visible_in(
                s0,
                new_list,
                CAT_ITEM,
                id,
            ) && (!visible_in(s0, old_list, CAT_ITEM, id) || pending_of(s0, user, 2).contains(
                id,
            ))) by {
            assert(task_ids(storage.tasks_map()[user][2]) == tiv);
            assert(tiv.contains(id) <==> (visible_in(s_mid, new_surround@, CAT_ITEM, id) && (
            !old_i@.contains(id) || pend_i@.contains(id))));
            assert(old_i@.contains(id) <==> visible_in(s_mid, old_surround@, CAT_ITEM, id));
            assert(visible_in(s_mid, new_list, CAT_ITEM, id) == visible_in(
                s0,
                new_list,
                CAT_ITEM,
                id,
            ));
            assert(visible_in(s_mid, old_list, CAT_ITEM, id) == visible_in(
                s0,
                old_list,
                CAT_ITEM,
                id,
            ));
        }
    }
    Ok(())
}

} // verus!

verus! {

/// Budget shared by one drain pass.
pub const PROCESS_LIMIT: usize = 1000;

/// The per-list drain quota for one pass: the shared budget split over the
/// active pending players (three lists each), floored at ten.
pub open spec fn drain_quota(active: nat) -> nat {
    let q = (PROCESS_LIMIT as nat) / (1 + 3 * active);
    if q > 10 {
        q
    } else {
        10
    }
}

/// How many ids of a list of length `len` survive a drain under `quota`:
/// the back `quota` go out, the front stay.
pub open spec fn kept_cut(len: nat, quota: nat) -> nat {
    if len > quota {
        (len - quota) as nat
    } else {
        0
    }
}

/// Any single list loses at most the quota in one pass.
pub proof fn lemma_drain_quota_bound(len: nat, quota: nat)
    ensures
        len - kept_cut(len, quota) <= quota,
{
}

/// The spawn announcement for one id, NPC or player flavoured.
pub open spec fn spawn_task(
    socket: crate::gametypes::Token,
    id: GlobalKey,
    npc: bool,
) -> crate::storage::DataTask {
    if npc {
        crate::storage::DataTask {
            token: crate::storage::DataTaskToken::NpcSpawnToEntity(socket),
            packet: crate::storage::Packet::NpcSpawn { entity: id, did_spawn: false },
        }
    } else {
        crate::storage::DataTask {
            token: crate::storage::DataTaskToken::PlayerSpawnToEntity(socket),
            packet: crate::storage::Packet::PlayerSpawn { entity: id, did_spawn: false },
        }
    }
}

/// The batched announcements a drained spawn slice produces, in order; an
/// id no longer in the world is skipped silently.
pub open spec fn emitted_spawn(
    w: crate::world::World,
    socket: crate::gametypes::Token,
    ids: Seq<GlobalKey>,
    npc: bool,
) -> Seq<crate::storage::DataTask>
    decreases ids.len(),
{
    if ids.len() == 0 {
        Seq::empty()
    } else {
        emitted_spawn(w, socket, ids.drop_last(), npc) + (if w.has_entity(ids.last()) {
            seq![spawn_task(socket, ids.last(), npc)]
        } else {
            Seq::empty()
        })
    }
}

/// The item-load announcement for one ground item.
pub open spec fn item_task(
    socket: crate::gametypes::Token,
    id: GlobalKey,
    g: crate::world::MapItemGeneral,
) -> crate::storage::DataTask {
    crate::storage::DataTask {
        token: crate::storage::DataTaskToken::ItemLoadToEntity(socket),
        packet: crate::storage::Packet::MapItem {
            entity: id,
            pos: g.pos,
            item: g.item,
            ownerid: g.ownerid,
            did_spawn: false,
        },
    }
}

/// The batched announcements a drained item slice produces, in order; an
/// id that is not a live ground item is skipped silently.
pub open spec fn emitted_items(
    w: crate::world::World,
    socket: crate::gametypes::Token,
    ids: Seq<GlobalKey>,
) -> Seq<crate::storage::DataTask>
    decreases ids.len(),
{
    if ids.len() == 0 {
        Seq::empty()
    } else {
        emitted_items(w, socket, ids.drop_last()) + (if w.has_entity(ids.last())
            && w.entity_map()[ids.last()] is MapItem {
            seq![
                item_task(socket, ids.last(), w.entity_map()[ids.last()]->MapItem_0.general),
            ]
        } else {
            Seq::empty()
        })
    }
}

/// Drains the back of one spawn list up to `limit`, queueing a spawn
/// announcement for every id still in the world, oldest drained first.
fn drain_spawn_list(
    world: &crate::world::World,
    storage: &mut crate::storage::Storage,
    socket: crate::gametypes::Token,
    ids: &mut Vec<GlobalKey>,
    limit: usize,
    npc: bool,
)
    requires
        world.wf(),
    ensures
        final(ids)@ == old(ids)@.take(kept_cut(old(ids)@.len(), limit as nat) as int),
        final(storage).data_tasks@ == old(storage).data_tasks@ + emitted_spawn(
            *world,
            socket,
            old(ids)@.skip(kept_cut(old(ids)@.len(), limit as nat) as int),
            npc,
        ),
        final(storage).maps == old(storage).maps,
        final(storage).map_switch_tasks == old(storage).map_switch_tasks,
        final(storage).player_names == old(storage).player_names,
        final(storage).player_code == old(storage).player_code,
        final(storage).player_timeout == old(storage).player_timeout,
        final(storage).gettick == old(storage).gettick,
        final(storage).outbound == old(storage).outbound,
{
    let cut: usize = if ids.len() > limit {
        ids.len() - limit
    } else {
        0
    };
    let ghost data0 = storage.data_tasks@;
    let mut i: usize = cut;
    while i < ids.len()
        invariant
            world.wf(),
            cut <= i <= ids@.len(),
            storage.data_tasks@ == data0 + emitted_spawn(
                *world,
                socket,
                ids@.subrange(cut as int, i as int),
                npc,
            ),
            storage.maps == old(storage).maps,
            storage.map_switch_tasks == old(storage).map_switch_tasks,
            storage.player_names == old(storage).player_names,
            storage.player_code == old(storage).player_code,
            storage.player_timeout == old(storage).player_timeout,
            storage.gettick == old(storage).gettick,
            storage.outbound == old(storage).outbound,
            ids@ == old(ids)@,
            data0 == old(storage).data_tasks@,
        decreases ids@.len() - i,
    {
        let id = ids[i];
        if world.contains_entity(id) {
            let token = if npc {
                crate::storage::DataTaskToken::NpcSpawnToEntity(socket)
            } else {
                crate::storage::DataTaskToken::PlayerSpawnToEntity(socket)
            };
            let packet = if npc {
                crate::storage::Packet::NpcSpawn { entity: id, did_spawn: false }
            } else {
                crate::storage::Packet::PlayerSpawn { entity: id, did_spawn: false }
            };
            token.add_task(storage, packet);
        }
        proof {
            let sub1 = ids@.subrange(cut as int, i as int + 1);
            assert(sub1.drop_last() =~= ids@.subrange(cut as int, i as int));
            assert(sub1.last() == ids@[i as int]);
        }
        i += 1;
    }
    proof {
        assert(ids@.subrange(cut as int, ids@.len() as int) =~= ids@.skip(cut as int));
    }
    ids.truncate(cut);
}

/// Drains the back of one item list up to `limit`, queueing a load
/// announcement for every id still resident as a ground item.
fn drain_item_list(
    world: &crate::world::World,
    storage: &mut crate::storage::Storage,
    socket: crate::gametypes::Token,
    ids: &mut Vec<GlobalKey>,
    limit: usize,
)
    requires
        world.wf(),
    ensures
        final(ids)@ == old(ids)@.take(kept_cut(old(ids)@.len(), limit as nat) as int),
        final(storage).data_tasks@ == old(storage).data_tasks@ + emitted_items(
            *world,
            socket,
            old(ids)@.skip(kept_cut(old(ids)@.len(), limit as nat) as int),
        ),
        final(storage).maps == old(storage).maps,
        final(storage).map_switch_tasks == old(storage).map_switch_tasks,
        final(storage).player_names == old(storage).player_names,
        final(storage).player_code == old(storage).player_code,
        final(storage).player_timeout == old(storage).player_timeout,
        final(storage).gettick == old(storage).gettick,
        final(storage).outbound == old(storage).outbound,
{
    let cut: usize = if ids.len() > limit {
        ids.len() - limit
    } else {
        0
    };
    let ghost data0 = storage.data_tasks@;
    let mut i: usize = cut;
    while i < ids.len()
        invariant
            world.wf(),
            cut <= i <= ids@.len(),
            storage.data_tasks@ == data0 + emitted_items(
                *world,
                socket,
                ids@.subrange(cut as int, i as int),
            ),
            storage.maps == old(storage).maps,
            storage.map_switch_tasks == old(storage).map_switch_tasks,
            storage.player_names == old(storage).player_names,
            storage.player_code == old(storage).player_code,
            storage.player_timeout == old(storage).player_timeout,
            storage.gettick == old(storage).gettick,
            storage.outbound == old(storage).outbound,
            ids@ == old(ids)@,
            data0 == old(storage).data_tasks@,
        decreases ids@.len() - i,
    {
        let id = ids[i];
        match world.get_opt_entity(id) {
            Some(e) => match e {
                crate::world::Entity::MapItem(mi) => {
                    crate::storage::DataTaskToken::ItemLoadToEntity(socket).add_task(
                        storage,
                        crate::storage::Packet::MapItem {
                            entity: id,
                            pos: mi.general.pos,
                            item: mi.general.item,
                            ownerid: mi.general.ownerid,
                            did_spawn: false,
                        },
                    );
                },
                _ => {},
            },
            None => {},
        }
        proof {
            let sub1 = ids@.subrange(cut as int, i as int + 1);
            assert(sub1.drop_last() =~= ids@.subrange(cut as int, i as int));
            assert(sub1.last() == ids@[i as int]);
        }
        i += 1;
    }
    proof {
        assert(ids@.subrange(cut as int, ids@.len() as int) =~= ids@.skip(cut as int));
    }
    ids.truncate(cut);
}

} // verus!

verus! {

/// An entry survives a pass when its player is live and some list still
/// holds more than the quota.
pub open spec fn keep_cond(
    w: crate::world::World,
    k: GlobalKey,
    ts: Seq<MapSwitchTasks>,
    quota: nat,
) -> bool {
    w.is_player(k) && (kept_cut(task_ids(ts[0]).len(), quota) > 0 || kept_cut(
        task_ids(ts[1]).len(),
        quota,
    ) > 0 || kept_cut(task_ids(ts[2]).len(), quota) > 0)
}

/// Everything one entry sends during a pass: its three drained slices in
/// list order, nothing when its player is gone.
pub open spec fn entry_emitted(
    w: crate::world::World,
    e: (GlobalKey, Vec<MapSwitchTasks>),
    quota: nat,
) -> Seq<crate::storage::DataTask> {
    if w.is_player(e.0) {
        let socket = w.player_of(e.0).socket.id;
        let l0 = task_ids(e.1@[0]);
        let l1 = task_ids(e.1@[1]);
        let l2 = task_ids(e.1@[2]);
        emitted_spawn(w, socket, l0.skip(kept_cut(l0.len(), quota) as int), false) + emitted_spawn(
            w,
            socket,
            l1.skip(kept_cut(l1.len(), quota) as int),
            true,
        ) + emitted_items(w, socket, l2.skip(kept_cut(l2.len(), quota) as int))
    } else {
        Seq::empty()
    }
}

/// Everything a pass sends, entry by entry in registry order.
pub open spec fn emitted_all(
    w: crate::world::World,
    entries: Seq<(GlobalKey, Vec<MapSwitchTasks>)>,
    quota: nat,
) -> Seq<crate::storage::DataTask>
    decreases entries.len(),
{
    if entries.len() == 0 {
        Seq::empty()
    } else {
        emitted_all(w, entries.drop_last(), quota) + entry_emitted(w, entries.last(), quota)
    }
}

/// What one processed entry must look like in the registry after a pass.
pub open spec fn processed_outcome(
    w: crate::world::World,
    quota: nat,
    e: (GlobalKey, Vec<MapSwitchTasks>),
    m: Map<GlobalKey, Vec<MapSwitchTasks>>,
) -> bool {
    if keep_cond(w, e.0, e.1@, quota) {
        &&& m.dom().contains(e.0)
        &&& entry_shape(m[e.0]@)
        &&& task_ids(m[e.0]@[0]) == task_ids(e.1@[0]).take(
            kept_cut(task_ids(e.1@[0]).len(), quota) as int,
        )
        &&& task_ids(m[e.0]@[1]) == task_ids(e.1@[1]).take(
            kept_cut(task_ids(e.1@[1]).len(), quota) as int,
        )
        &&& task_ids(m[e.0]@[2]) == task_ids(e.1@[2]).take(
            kept_cut(task_ids(e.1@[2]).len(), quota) as int,
        )
    } else {
        !m.dom().contains(e.0)
    }
}

/// Whether the pending entry of `k` survives a pass, read off the old
/// registry.
pub open spec fn keep_key(
    s0: crate::storage::Storage,
    w: crate::world::World,
    k: GlobalKey,
    quota: nat,
) -> bool {
    keep_cond(w, k, s0.tasks_map()[k], quota)
}

/// Drains every player's pending lists from the back under the shared
/// per-pass quota, queueing spawn and item-load announcements for the ids
/// still present; ids despawned since enqueueing are skipped silently.
/// Players whose lists are exhausted — or whose entity is gone — leave the
/// pending registry, so an already-empty entry is dropped without effect.
pub fn process_data_lists(
    world: &mut crate::world::World,
    storage: &mut crate::storage::Storage,
) -> (r: Result<(), crate::gametypes::AscendingError>)
    requires
        old(world).wf(),
        old(storage).wf(),
        tasks_wf(*old(storage)),
        old(storage).map_switch_tasks@.len() * 3 + 1 <= usize::MAX,
    ensures
        *final(world) == *old(world),
        final(storage).wf(),
        tasks_wf(*final(storage)),
        r == Ok::<(), crate::gametypes::AscendingError>(()),
        final(storage).maps == old(storage).maps,
        final(storage).player_names == old(storage).player_names,
        final(storage).player_code == old(storage).player_code,
        final(storage).player_timeout == old(storage).player_timeout,
        final(storage).gettick == old(storage).gettick,
        final(storage).outbound == old(storage).outbound,
        final(storage).data_tasks@ == old(storage).data_tasks@ + emitted_all(
            *old(world),
            old(storage).map_switch_tasks@,
            drain_quota(old(storage).map_switch_tasks@.len() as nat),
        ),
        forall|k: GlobalKey|
            #[trigger] final(storage).tasks_map().dom().contains(k) <==> (old(
                storage,
            ).tasks_map().dom().contains(k) && keep_key(
                *old(storage),
                *old(world),
                k,
                drain_quota(old(storage).map_switch_tasks@.len() as nat),
            )),
        forall|k: GlobalKey|
            #[trigger] final(storage).tasks_map().dom().contains(k) ==> {
                let quota = drain_quota(old(storage).map_switch_tasks@.len() as nat);
                let ts0 = old(storage).tasks_map()[k];
                let ts1 = final(storage).tasks_map()[k];
                &&& entry_shape(ts1)
                &&& task_ids(ts1[0]) == task_ids(ts0[0]).take(
                    kept_cut(task_ids(ts0[0]).len(), quota) as int,
                )
                &&& task_ids(ts1[1]) == task_ids(ts0[1]).take(
                    kept_cut(task_ids(ts0[1]).len(), quota) as int,
                )
                &&& task_ids(ts1[2]) == task_ids(ts0[2]).take(
                    kept_cut(task_ids(ts0[2]).len(), quota) as int,
                )
            },
{
    let ghost entries0 = storage.map_switch_tasks@;
    let ghost data0 = storage.data_tasks@;
    let ghost w0 = *old(world);
    let total = storage.map_switch_tasks.len();
    let process_limit: usize = {
        let q = PROCESS_LIMIT / (1 + total * 3);
        if q > 10 {
            q
        } else {
            10
        }
    };
    let ghost quota = drain_quota(entries0.len() as nat);
    proof {
        assert(process_limit as nat == quota);
    }
    let mut kept: Vec<(GlobalKey, Vec<MapSwitchTasks>)> = Vec::new();
    let mut j: usize = 0;
    while j < total
        invariant
            world.wf(),
            *world == w0,
            w0 == *old(world),
            total == entries0.len(),
            j <= total,
            quota == drain_quota(entries0.len() as nat),
            process_limit as nat == quota,
            crate::assoc::al_unique(entries0),
            forall|i: int|
                0 <= i < entries0.len() ==> entry_shape((#[trigger] entries0[i]).1@),
            storage.map_switch_tasks@ == entries0.skip(j as int),
            storage.data_tasks@ == data0 + emitted_all(w0, entries0.take(j as int), quota),
            data0 == old(storage).data_tasks@,
            entries0 == old(storage).map_switch_tasks@,
            storage.maps == old(storage).maps,
            storage.player_names == old(storage).player_names,
            storage.player_code == old(storage).player_code,
            storage.player_timeout == old(storage).player_timeout,
            storage.gettick == old(storage).gettick,
            storage.outbound == old(storage).outbound,
            crate::assoc::al_unique(kept@),
            forall|t: int|
                0 <= t < kept@.len() ==> entry_shape((#[trigger] kept@[t]).1@),
            forall|t: int|
                0 <= t < kept@.len() ==> exists|s: int|
                    0 <= s < j && entries0[s].0 == (#[trigger] kept@[t]).0,
            forall|s: int|
                0 <= s < j ==> processed_outcome(
                    w0,
                    quota,
                    #[trigger] entries0[s],
                    crate::assoc::al_map(kept@),
                ),
        decreases total - j,
    {
        proof {
            assert(entries0.skip(j as int)[0] == entries0[j as int]);
        }
        let (k, mut ts) = storage.map_switch_tasks.remove(0);
        proof {
            assert(entries0.skip(j as int).remove(0) =~= entries0.skip(j as int + 1));
            assert((k, ts) == entries0[j as int]);
            assert(entry_shape(ts@));
            assert(entries0.take(j as int + 1).drop_last() =~= entries0.take(j as int));
            assert(entries0.take(j as int + 1).last() == entries0[j as int]);
        }
        let ghost kept_before = kept@;
        if crate::players::is_player_entity(world, k) {
            let socket = match world.get_opt_entity(k) {
                Some(e) => match e {
                    crate::world::Entity::Player(p) => p.socket.id,
                    _ => {
                        proof {
                            assert(false);
                        }
                        return Ok(());
                    },
                },
                None => {
                    proof {
                        assert(false);
                    }
                    return Ok(());
                },
            };
            let t2 = match ts.pop() {
                Some(t) => t,
                None => {
                    proof {
                        assert(false);
                    }
                    return Ok(());
                },
            };
            let t1 = match ts.pop() {
                Some(t) => t,
                None => {
                    proof {
                        assert(false);
                    }
                    return Ok(());
                },
            };
            let t0 = match ts.pop() {
                Some(t) => t,
                None => {
                    proof {
                        assert(false);
                    }
                    return Ok(());
                },
            };
            let mut pv = match t0 {
                MapSwitchTasks::Player(v) => v,
                _ => {
                    proof {
                        assert(false);
                    }
                    return Ok(());
                },
            };
            let mut nv = match t1 {
                MapSwitchTasks::Npc(v) => v,
                _ => {
                    proof {
                        assert(false);
                    }
                    return Ok(());
                },
            };
            let mut iv = match t2 {
                MapSwitchTasks::Items(v) => v,
                _ => {
                    proof {
                        assert(false);
                    }
                    return Ok(());
                },
            };
            let ghost l0 = pv@;
            let ghost l1 = nv@;
            let ghost l2 = iv@;
            proof {
                assert(l0 == task_ids(entries0[j as int].1@[0]));
                assert(l1 == task_ids(entries0[j as int].1@[1]));
                assert(l2 == task_ids(entries0[j as int].1@[2]));
            }
            let ghost data_in = storage.data_tasks@;
            drain_spawn_list(world, storage, socket, &mut pv, process_limit, false);
            drain_spawn_list(world, storage, socket, &mut nv, process_limit, true);
            drain_item_list(world, storage, socket, &mut iv, process_limit);
            proof {
                let em0 = emitted_spawn(w0, socket, l0.skip(kept_cut(l0.len(), quota) as int), false);
                let em1 = emitted_spawn(w0, socket, l1.skip(kept_cut(l1.len(), quota) as int), true);
                let em2 = emitted_items(w0, socket, l2.skip(kept_cut(l2.len(), quota) as int));
                assert(storage.data_tasks@ =~= data_in + (em0 + em1 + em2));
                assert(entry_emitted(w0, entries0[j as int], quota) == em0 + em1 + em2);
                assert(storage.data_tasks@ =~= data0 + emitted_all(
                    w0,
                    entries0.take(j as int + 1),
                    quota,
                ));
            }
            let keep = pv.len() > 0 || nv.len() > 0 || iv.len() > 0;
            let mut new_ts: Vec<MapSwitchTasks> = Vec::new();
            new_ts.push(MapSwitchTasks::Player(pv));
            new_ts.push(MapSwitchTasks::Npc(nv));
            new_ts.push(MapSwitchTasks::Items(iv));
            if keep {
                proof {
                    assert(keep_cond(w0, k, entries0[j as int].1@, quota));
                    crate::assoc::lemma_al_map_dom(kept_before, k);
                    assert forall|t: int| 0 <= t < kept_before.len() implies kept_before[t].0
                        != k by {
                        let s = choose|s: int|
                            0 <= s < j && entries0[s].0 == kept_before[t].0;
                        assert(entries0[s].0 != entries0[j as int].0);
                    }
                    crate::assoc::lemma_al_map_push(kept_before, k, new_ts);
                }
                kept.push((k, new_ts));
                proof {
                    let t = kept@;
                    assert forall|p: int, q: int| 0 <= p < q < t.len() implies t[p].0
                        != t[q].0 by {
                        if q == t.len() - 1 {
                            assert(t[p] == kept_before[p]);
                        }
                    }
                    assert forall|s: int| 0 <= s < j + 1 implies processed_outcome(
                        w0,
                        quota,
                        #[trigger] entries0[s],
                        crate::assoc::al_map(kept@),
                    ) by {
                        if s < j {
                            assert(entries0[s].0 != k);
                            assert(processed_outcome(
                                w0,
                                quota,
                                entries0[s],
                                crate::assoc::al_map(kept_before),
                            ));
                        } else {
                            assert(crate::assoc::al_map(kept@)[k] == new_ts);
                        }
                    }
                }
            } else {
                proof {
                    assert(!keep_cond(w0, k, entries0[j as int].1@, quota));
                    crate::assoc::lemma_al_map_dom(kept@, k);
                    assert forall|t: int| 0 <= t < kept@.len() implies kept@[t].0 != k by {
                        let s = choose|s: int| 0 <= s < j && entries0[s].0 == kept@[t].0;
                        assert(entries0[s].0 != entries0[j as int].0);
                    }
                    assert forall|s: int| 0 <= s < j + 1 implies processed_outcome(
                        w0,
                        quota,
                        #[trigger] entries0[s],
                        crate::assoc::al_map(kept@),
                    ) by {
                        if s < j {
                            assert(processed_outcome(
                                w0,
                                quota,
                                entries0[s],
                                crate::assoc::al_map(kept_before),
                            ));
                        }
                    }
                }
            }
        } else {
            proof {
                assert(!keep_cond(w0, k, entries0[j as int].1@, quota));
                assert(entry_emitted(w0, entries0[j as int], quota) == Seq::<
                    crate::storage::DataTask,
                >::empty());
                assert(storage.data_tasks@ =~= data0 + emitted_all(
                    w0,
                    entries0.take(j as int + 1),
                    quota,
                ));
                crate::assoc::lemma_al_map_dom(kept@, k);
                assert forall|t: int| 0 <= t < kept@.len() implies kept@[t].0 != k by {
                    let s = choose|s: int| 0 <= s < j && entries0[s].0 == kept@[t].0;
                    assert(entries0[s].0 != entries0[j as int].0);
                }
                assert forall|s: int| 0 <= s < j + 1 implies processed_outcome(
                    w0,
                    quota,
                    #[trigger] entries0[s],
                    crate::assoc::al_map(kept@),
                ) by {
                    if s < j {
                        assert(processed_outcome(
                            w0,
                            quota,
                            entries0[s],
                            crate::assoc::al_map(kept_before),
                        ));
                    }
                }
            }
        }
        j += 1;
    }
    proof {
        assert(entries0.take(total as int) =~= entries0);
    }
    storage.map_switch_tasks = kept;
    proof {
        let mk = crate::assoc::al_map(storage.map_switch_tasks@);
        assert forall|k: GlobalKey|
            #[trigger] storage.tasks_map().dom().contains(k) implies (old(
            storage,
        ).tasks_map().dom().contains(k) && keep_key(*old(storage), w0, k, quota)) by {
            crate::assoc::lemma_al_map_dom(storage.map_switch_tasks@, k);
            let t = choose|t: int|
                0 <= t < storage.map_switch_tasks@.len() && storage.map_switch_tasks@[t].0 == k;
            let s = choose|s: int|
                0 <= s < entries0.len() && entries0[s].0 == (storage.map_switch_tasks@[t]).0;
            assert(processed_outcome(w0, quota, entries0[s], mk));
            crate::assoc::lemma_al_map_index(entries0, s);
            crate::assoc::lemma_al_map_dom(entries0, k);
            assert(old(storage).tasks_map()[k] == entries0[s].1@);
            assert(keep_cond(w0, k, entries0[s].1@, quota));
        }
        assert forall|k: GlobalKey|
            (old(storage).tasks_map().dom().contains(k) && keep_key(
                *old(storage),
                w0,
                k,
                quota,
            )) implies #[trigger] storage.tasks_map().dom().contains(k) by {
            crate::assoc::lemma_al_map_dom(entries0, k);
            let s = choose|s: int| 0 <= s < entries0.len() && entries0[s].0 == k;
            crate::assoc::lemma_al_map_index(entries0, s);
            assert(old(storage).tasks_map()[k] == entries0[s].1@);
            assert(processed_outcome(w0, quota, entries0[s], mk));
        }
        assert forall|k: GlobalKey| #[trigger] storage.tasks_map().dom().contains(k) implies {
            let ts0 = old(storage).tasks_map()[k];
            let ts1 = storage.tasks_map()[k];
            &&& entry_shape(ts1)
            &&& task_ids(ts1[0]) == task_ids(ts0[0]).take(
                kept_cut(task_ids(ts0[0]).len(), quota) as int,
            )
            &&& task_ids(ts1[1]) == task_ids(ts0[1]).take(
                kept_cut(task_ids(ts0[1]).len(), quota) as int,
            )
            &&& task_ids(ts1[2]) == task_ids(ts0[2]).take(
                kept_cut(task_ids(ts0[2]).len(), quota) as int,
            )
        } by {
            crate::assoc::lemma_al_map_dom(entries0, k);
            let s = choose|s: int| 0 <= s < entries0.len() && entries0[s].0 == k;
            crate::assoc::lemma_al_map_index(entries0, s);
            assert(old(storage).tasks_map()[k] == entries0[s].1@);
            assert(processed_outcome(w0, quota, entries0[s], mk));
        }
        assert forall|i: int|
            0 <= i < storage.map_switch_tasks@.len() implies entry_shape(
            (#[trigger] storage.map_switch_tasks@[i]).1@) by {}
    }
    Ok(())
}

} // verus!
