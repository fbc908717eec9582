//! Applying queued damage to health, and sweeping the dead from the world.

use vstd::prelude::*;

use crate::arith::{clamp_i32, int_sum, lemma_sat_sum_exact, sat_sub_i32, sat_sum, sat_add_i32};
use crate::components::{queued_damage, CombatStats, SufferDamage};
use crate::entity::Entity;
use crate::gamelog::GameLog;
use crate::melee::melee_damage_to_upto;
use crate::text::join3;
use crate::world::World;

verus! {

/// Per-key agreement of two attribute maps.
pub open spec fn key_eq<V>(m1: Map<int, V>, m2: Map<int, V>, i: int) -> bool {
    &&& m1.contains_key(i) == m2.contains_key(i)
    &&& m1.contains_key(i) ==> m1[i] == m2[i]
}

/// Every attribute of index `i` reads the same in both worlds.
pub open spec fn attrs_unchanged_at(a: World, b: World, i: int) -> bool {
    &&& key_eq(a.positions@, b.positions@, i)
    &&& key_eq(a.renderables@, b.renderables@, i)
    &&& key_eq(a.players@, b.players@, i)
    &&& key_eq(a.monsters@, b.monsters@, i)
    &&& key_eq(a.items@, b.items@, i)
    &&& key_eq(a.consumables@, b.consumables@, i)
    &&& key_eq(a.healers@, b.healers@, i)
    &&& key_eq(a.ranged_items@, b.ranged_items@, i)
    &&& key_eq(a.damagers@, b.damagers@, i)
    &&& key_eq(a.aoes@, b.aoes@, i)
    &&& key_eq(a.confusions@, b.confusions@, i)
    &&& key_eq(a.backpacks@, b.backpacks@, i)
    &&& key_eq(a.pickup_intents@, b.pickup_intents@, i)
    &&& key_eq(a.drop_intents@, b.drop_intents@, i)
    &&& key_eq(a.use_intents@, b.use_intents@, i)
    &&& key_eq(a.names@, b.names@, i)
    &&& key_eq(a.viewsheds@, b.viewsheds@, i)
    &&& key_eq(a.blockers@, b.blockers@, i)
    &&& key_eq(a.combat_stats@, b.combat_stats@, i)
    &&& key_eq(a.melee_intents@, b.melee_intents@, i)
    &&& key_eq(a.damage_queue@, b.damage_queue@, i)
}

/// Index `i` carries no attribute at all.
pub open spec fn attrs_none_at(w: World, i: int) -> bool {
    &&& !w.positions@.contains_key(i)
    &&& !w.renderables@.contains_key(i)
    &&& !w.players@.contains_key(i)
    &&& !w.monsters@.contains_key(i)
    &&& !w.items@.contains_key(i)
    &&& !w.consumables@.contains_key(i)
    &&& !w.healers@.contains_key(i)
    &&& !w.ranged_items@.contains_key(i)
    &&& !w.damagers@.contains_key(i)
    &&& !w.aoes@.contains_key(i)
    &&& !w.confusions@.contains_key(i)
    &&& !w.backpacks@.contains_key(i)
    &&& !w.pickup_intents@.contains_key(i)
    &&& !w.drop_intents@.contains_key(i)
    &&& !w.use_intents@.contains_key(i)
    &&& !w.names@.contains_key(i)
    &&& !w.viewsheds@.contains_key(i)
    &&& !w.blockers@.contains_key(i)
    &&& !w.combat_stats@.contains_key(i)
    &&& !w.melee_intents@.contains_key(i)
    &&& !w.damage_queue@.contains_key(i)
}

/// Subtracts each entity's accumulated damage from its hit points, then
/// clears every accumulator.
pub struct DamageSystem;

impl DamageSystem {
    /// For every entity with both combat statistics and a damage
    /// accumulator, subtract the accumulated sum from its hit points
    /// (saturating at the `i32` bounds); afterwards no accumulator remains,
    /// whether or not any damage was recorded.
    pub fn run(world: &mut World)
        requires
            old(world).wf(),
        ensures
            final(world).wf(),
            *final(world) == (World {
                combat_stats: final(world).combat_stats,
                damage_queue: final(world).damage_queue,
                ..*old(world)
            }),
            final(world).damage_queue@ == Map::<int, SufferDamage>::empty(),
            final(world).combat_stats@.dom() == old(world).combat_stats@.dom(),
            forall|i: int|
                0 <= i < old(world).entities.spec_capacity() && old(
                    world,
                ).combat_stats@.contains_key(i) && old(world).damage_queue@.contains_key(i)
                    ==> final(world).combat_stats@[i] == (CombatStats {
                    hp: clamp_i32(
                        old(world).combat_stats@[i].hp - sat_sum(old(world).damage_queue@[i].amount@),
                    ) as i32,
                    ..old(world).combat_stats@[i]
                }),
            forall|i: int|
                old(world).combat_stats@.contains_key(i) && (!old(
                    world,
                ).damage_queue@.contains_key(i) || i >= old(world).entities.spec_capacity())
                    ==> final(world).combat_stats@[i] == old(world).combat_stats@[i],
    {
        let cap = world.entities.capacity();
        let mut i: usize = 0;
        while i < cap
            invariant
                world.wf(),
                cap == world.entities.spec_capacity(),
                i <= cap,
                *world == (World { combat_stats: world.combat_stats, ..*old(world) }),
                world.combat_stats@.dom() == old(world).combat_stats@.dom(),
                forall|k: int|
                    (old(world).combat_stats@.contains_key(k) && old(
                        world,
                    ).damage_queue@.contains_key(k) && 0 <= k < i as int) ==> world.combat_stats@[k]
                        == (CombatStats {
                        hp: clamp_i32(
                            old(world).combat_stats@[k].hp - sat_sum(
                                old(world).damage_queue@[k].amount@,
                            ),
                        ) as i32,
                        ..old(world).combat_stats@[k]
                    }),
                forall|k: int|
                    old(world).combat_stats@.contains_key(k) && (!old(
                        world,
                    ).damage_queue@.contains_key(k) || k >= i) ==> world.combat_stats@[k] == old(
                        world,
                    ).combat_stats@[k],
            decreases cap - i,
        {
            if world.combat_stats.contains(i) && world.damage_queue.contains(i) {
                let total = match world.damage_queue.get(i) {
                    Some(d) => Self::saturating_total(&d.amount),
                    None => 0,
                };
                match world.combat_stats.take(i) {
                    Some(stats) => {
                        let new_hp = sat_sub_i32(stats.hp, total);
                        world.combat_stats.insert(i, CombatStats { hp: new_hp, ..stats });
                        proof {
                            assert(world.combat_stats@.dom() =~= old(world).combat_stats@.dom());
                        }
                    },
                    None => {},
                }
            }
            i = i + 1;
        }
        // Accumulators beyond the allocator's capacity belong to no entity;
        // they are discarded without touching any statistics.
        world.damage_queue.clear();
    }

    /// The saturating sum of a damage list.
    fn saturating_total(amounts: &Vec<i32>) -> (r: i32)
        ensures
            r as int == sat_sum(amounts@),
    {
        let mut total: i32 = 0;
        let mut k: usize = 0;
        while k < amounts.len()
            invariant
                k <= amounts@.len(),
                total as int == sat_sum(amounts@.subrange(0, k as int)),
            decreases amounts@.len() - k,
        {
            let ghost pre = amounts@.subrange(0, k as int);
            total = sat_add_i32(total, amounts[k]);
            proof {
                let cur = amounts@.subrange(0, k + 1);
                assert(cur.drop_last() =~= pre);
            }
            k = k + 1;
        }
        proof {
            assert(amounts@.subrange(0, amounts@.len() as int) =~= amounts@);
        }
        total
    }
}

/// Index `i` holds a live entity that dies this sweep: its hit points are
/// gone and it is not the player.
pub open spec fn spec_doomed(w: World, i: int) -> bool {
    &&& w.entities.spec_entity_at(i) is Some
    &&& w.combat_stats@.contains_key(i)
    &&& w.combat_stats@[i].hp < 1
    &&& !w.players@.contains_key(i)
}

/// The log line a named casualty produces.
pub open spec fn death_msg(w: World, i: int) -> Seq<char> {
    w.names@[i].name@ + (" is dead")@
}

/// The log lines of the named casualties with index below `n`, in order.
pub open spec fn death_msgs_upto(w: World, n: int) -> Seq<Seq<char>>
    decreases n,
{
    if n <= 0 {
        Seq::empty()
    } else {
        let rest = death_msgs_upto(w, n - 1);
        if spec_doomed(w, n - 1) && w.names@.contains_key(n - 1) {
            rest.push(death_msg(w, n - 1))
        } else {
            rest
        }
    }
}

/// A live player's hit points are gone: the game is over, but the player
/// entity stays in the world.
pub open spec fn spec_game_over(w: World) -> bool {
    exists|i: int|
        0 <= i < w.entities.spec_capacity() && w.entities.spec_entity_at(i) is Some
            && w.combat_stats@.contains_key(i) && w.combat_stats@[i].hp < 1 && #[trigger] w.players@.contains_key(
            i,
        )
}

/// Delete every entity whose hit points reached zero, except the player:
/// a dead player instead raises the game-over condition. Named victims are
/// logged. Returns whether the game is over.
pub fn delete_the_dead(world: &mut World, log: &mut GameLog) -> (game_over: bool)
    requires
        old(world).wf(),
    ensures
        final(world).wf(),
        final(world).entities.spec_capacity() == old(world).entities.spec_capacity(),
        game_over == spec_game_over(*old(world)),
        forall|e: Entity|
            final(world).entities.spec_is_live(e) <==> (old(world).entities.spec_is_live(e)
                && !spec_doomed(*old(world), e.index as int)),
        forall|i: int|
            !spec_doomed(*old(world), i) ==> #[trigger] attrs_unchanged_at(
                *old(world),
                *final(world),
                i,
            ),
        forall|i: int| spec_doomed(*old(world), i) ==> #[trigger] attrs_none_at(*final(world), i),
        final(log).entries@.len() == old(log).entries@.len() + death_msgs_upto(
            *old(world),
            old(world).entities.spec_capacity() as int,
        ).len(),
        forall|k: int|
            0 <= k < old(log).entries@.len() ==> final(log).entries@[k] == old(log).entries@[k],
        forall|k: int|
            0 <= k < death_msgs_upto(
                *old(world),
                old(world).entities.spec_capacity() as int,
            ).len() ==> final(log).entries@[old(log).entries@.len() + k]@ == death_msgs_upto(
                *old(world),
                old(world).entities.spec_capacity() as int,
            )[k],
{
    let cap = world.entities.capacity();
    let mut dead: Vec<Entity> = Vec::new();
    let mut game_over = false;
    let mut i: usize = 0;
    while i < cap
        invariant
            world.wf(),
            cap == world.entities.spec_capacity(),
            i <= cap,
            game_over == exists|k: int|
                0 <= k < i && world.entities.spec_entity_at(k) is Some
                    && world.combat_stats@.contains_key(k) && world.combat_stats@[k].hp < 1
                    && #[trigger] world.players@.contains_key(k),
            forall|k: int|
                0 <= k < dead@.len() ==> {
                    &&& world.entities.spec_is_live(#[trigger] dead@[k])
                    &&& spec_doomed(*world, dead@[k].index as int)
                    &&& dead@[k].index < i
                },
            *world == *old(world),
            forall|k1: int, k2: int|
                0 <= k1 < k2 < dead@.len() ==> (#[trigger] dead@[k1]).index != (
                #[trigger] dead@[k2]).index,
            forall|k: int|
                0 <= k < i && spec_doomed(*world, k) ==> exists|j: int|
                    0 <= j < dead@.len() && (#[trigger] dead@[j]).index == k,
            log.entries@.len() == old(log).entries@.len() + death_msgs_upto(
                *old(world),
                i as int,
            ).len(),
            forall|k: int|
                0 <= k < old(log).entries@.len() ==> log.entries@[k] == old(log).entries@[k],
            forall|k: int|
                0 <= k < death_msgs_upto(*old(world), i as int).len() ==> log.entries@[old(
                    log,
                ).entries@.len() + k]@ == death_msgs_upto(*old(world), i as int)[k],
        decreases cap - i,
    {
        let ghost msgs_before = death_msgs_upto(*old(world), i as int);
        if let Some(e) = world.entities.live_at(i) {
            if let Some(stats) = world.combat_stats.get(i) {
                if stats.hp < 1 {
                    if world.players.contains(i) {
                        game_over = true;
                    } else {
                        if let Some(victim_name) = world.names.get(i) {
                            let mut msg = crate::text::join3(victim_name.name.as_str(), " is dead", "");
                            log.log(msg);
                            proof {
                                reveal_strlit("");
                                assert(log.entries@.last()@ =~= death_msg(*old(world), i as int));
                            }
                        }
                        let ghost dead_pre = dead@;
                        dead.push(e);
                        proof {
                            assert forall|k: int|
                                0 <= k < i + 1 && spec_doomed(*world, k) implies exists|j: int|
                                0 <= j < dead@.len() && (#[trigger] dead@[j]).index == k by {
                                if k < i {
                                    let j = choose|j: int|
                                        0 <= j < dead_pre.len() && (#[trigger] dead_pre[j]).index
                                            == k;
                                    assert(dead@[j].index == k);
                                } else {
                                    assert(dead@[dead@.len() - 1].index == k);
                                }
                            }
                        }
                    }
                }
            }
        }
        proof {
            assert forall|k: int|
                0 <= k < i + 1 && spec_doomed(*world, k) implies exists|j: int|
                0 <= j < dead@.len() && (#[trigger] dead@[j]).index == k by {
                if k < i {
                    let j = choose|j: int| 0 <= j < dead@.len() && (#[trigger] dead@[j]).index == k;
                    assert(dead@[j].index == k);
                }
            }
            assert(death_msgs_upto(*old(world), i + 1) == if spec_doomed(*old(world), i as int)
                && old(world).names@.contains_key(i as int) {
                msgs_before.push(death_msg(*old(world), i as int))
            } else {
                msgs_before
            });
        }
        i = i + 1;
    }

    let ghost w_mid = *world;
    let mut d: usize = 0;
    while d < dead.len()
        invariant
            world.wf(),
            world.entities.spec_capacity() == w_mid.entities.spec_capacity(),
            d <= dead@.len(),
            forall|k: int|
                0 <= k < dead@.len() ==> {
                    &&& w_mid.entities.spec_is_live(#[trigger] dead@[k])
                    &&& spec_doomed(w_mid, dead@[k].index as int)
                },
            w_mid == *old(world),
            forall|k1: int, k2: int|
                0 <= k1 < k2 < dead@.len() ==> (#[trigger] dead@[k1]).index != (
                #[trigger] dead@[k2]).index,
            forall|k: int|
                0 <= k < w_mid.entities.spec_capacity() && spec_doomed(w_mid, k) ==> exists|j: int|
                    0 <= j < dead@.len() && (#[trigger] dead@[j]).index == k,
            forall|e: Entity|
                world.entities.spec_is_live(e) <==> (w_mid.entities.spec_is_live(e) && !exists|
                    j: int,
                |
                    0 <= j < d && dead@[j] == e),
            forall|i2: int|
                !(exists|j: int| 0 <= j < d && (#[trigger] dead@[j]).index == i2)
                    ==> attrs_unchanged_at(w_mid, *world, i2),
            forall|j: int|
                0 <= j < d ==> attrs_none_at(*world, (#[trigger] dead@[j]).index as int),
        decreases dead@.len() - d,
    {
        let victim = dead[d];
        let ghost w_pre = *world;
        proof {
            assert(w_mid.entities.spec_is_live(victim));
            assert forall|j: int| 0 <= j < d implies (#[trigger] dead@[j]).index
                != victim.index by {}
            assert(attrs_unchanged_at(w_mid, *world, victim.index as int));
            assert(world.entities.spec_is_live(victim));
        }
        world.delete_entity(victim);
        proof {
            assert forall|i2: int|
                !(exists|j: int| 0 <= j < d + 1 && (#[trigger] dead@[j]).index
                    == i2) implies attrs_unchanged_at(w_mid, *world, i2) by {
                assert(attrs_unchanged_at(w_mid, w_pre, i2));
            }
            assert forall|j: int| 0 <= j < d + 1 implies attrs_none_at(
                *world,
                (#[trigger] dead@[j]).index as int,
            ) by {
                if j < d {
                    assert(attrs_none_at(w_pre, dead@[j].index as int));
                }
            }
        }
        d = d + 1;
    }
    proof {
        assert forall|e: Entity|
            final(world).entities.spec_is_live(e) <==> (old(world).entities.spec_is_live(e)
                && !spec_doomed(*old(world), e.index as int)) by {
            if w_mid.entities.spec_is_live(e) && spec_doomed(w_mid, e.index as int) {
                w_mid.entities.lemma_live_index(e);
                let j = choose|j: int|
                    0 <= j < dead@.len() && (#[trigger] dead@[j]).index == e.index as int;
                w_mid.entities.lemma_live_unique(dead@[j], e);
                assert(dead@[j] == e);
            }
            if exists|j: int| 0 <= j < dead@.len() && dead@[j] == e {
                let j = choose|j: int| 0 <= j < dead@.len() && dead@[j] == e;
                assert(spec_doomed(w_mid, e.index as int));
            }
        }
        assert forall|i2: int| spec_doomed(*old(world), i2) implies #[trigger] attrs_none_at(
            *final(world),
            i2,
        ) by {
            if 0 <= i2 < w_mid.entities.spec_capacity() {
                let j = choose|j: int|
                    0 <= j < dead@.len() && (#[trigger] dead@[j]).index == i2;
                assert(attrs_none_at(*final(world), dead@[j].index as int));
            } else {
                w_mid.entities.lemma_entity_at_range(i2);
                assert(false);
            }
        }
    }
    game_over
}

/// Damage accumulation: when `n` attackers melee one victim in a tick, the
/// victim's hit points afterwards have dropped by exactly the sum of the
/// computed damages, and the accumulator is empty, whether or not any
/// damage was recorded.
///
/// `wa` is the world as the tick's melee resolution found it (with an empty
/// accumulator on the victim), `wb` the world after melee resolution, and
/// `wc` the world after damage application; the premises are exactly what
/// those two stages ensure.
pub proof fn lemma_damage_accumulation(wa: World, wb: World, wc: World, v: int)
    requires
        queued_damage(wa.damage_queue@, v) == Seq::<i32>::empty(),
        queued_damage(wb.damage_queue@, v) == queued_damage(wa.damage_queue@, v)
            + melee_damage_to_upto(wa, v, wa.entities.spec_capacity() as int),
        wb.combat_stats@.contains_key(v),
        wc.combat_stats@.contains_key(v),
        wc.combat_stats@[v] == (CombatStats {
            hp: clamp_i32(
                wb.combat_stats@[v].hp - sat_sum(
                    if wb.damage_queue@.contains_key(v) {
                        wb.damage_queue@[v].amount@
                    } else {
                        Seq::<i32>::empty()
                    },
                ),
            ) as i32,
            ..wb.combat_stats@[v]
        }),
        wc.damage_queue@ == Map::<int, SufferDamage>::empty(),
        int_sum(melee_damage_to_upto(wa, v, wa.entities.spec_capacity() as int)) <= i32::MAX as int,
        wb.combat_stats@[v].hp - int_sum(
            melee_damage_to_upto(wa, v, wa.entities.spec_capacity() as int),
        ) >= i32::MIN as int,
    ensures
        wc.combat_stats@[v].hp == wb.combat_stats@[v].hp - int_sum(
            melee_damage_to_upto(wa, v, wa.entities.spec_capacity() as int),
        ),
        queued_damage(wc.damage_queue@, v) == Seq::<i32>::empty(),
{
    let dmgs = melee_damage_to_upto(wa, v, wa.entities.spec_capacity() as int);
    assert(queued_damage(wb.damage_queue@, v) =~= dmgs);
    lemma_melee_damages_positive(wa, v, wa.entities.spec_capacity() as int);
    lemma_sat_sum_exact(dmgs);
    crate::arith::lemma_int_sum_nonneg(dmgs);
    if dmgs.len() == 0 {
        assert(queued_damage(wb.damage_queue@, v) == dmgs);
        if wb.damage_queue@.contains_key(v) {
            assert(wb.damage_queue@[v].amount@ == dmgs);
        }
    } else {
        assert(wb.damage_queue@.contains_key(v));
        assert(wb.damage_queue@[v].amount@ == dmgs);
    }
}

/// Every amount a tick's melee resolution appends is positive.
pub proof fn lemma_melee_damages_positive(w: World, v: int, n: int)
    ensures
        forall|i: int|
            0 <= i < melee_damage_to_upto(w, v, n).len() ==> #[trigger] melee_damage_to_upto(
                w,
                v,
                n,
            )[i] > 0,
    decreases n,
{
    if n > 0 {
        lemma_melee_damages_positive(w, v, n - 1);
        let prev = melee_damage_to_upto(w, v, n - 1);
        let cur = melee_damage_to_upto(w, v, n);
        assert forall|i: int| 0 <= i < cur.len() implies #[trigger] cur[i] > 0 by {
            if i < prev.len() {
                assert(cur[i] == prev[i]);
            }
        }
    }
}

} // verus!
