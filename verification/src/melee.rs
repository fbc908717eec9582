//! Melee resolution: turns attack intents into queued damage and log lines.

use vstd::prelude::*;

use crate::components::{queued_damage, SufferDamage, WantsToMelee};
use crate::gamelog::GameLog;
use crate::text::{dec_str, join3, u32_to_string};
use crate::world::World;

verus! {

/// The damage a blow deals: attack power minus target defense, never below
/// zero, clamped into `i32`.
pub open spec fn melee_damage(power: int, defense: int) -> int {
    let raw = power - defense;
    if raw <= 0 {
        0
    } else if raw > i32::MAX as int {
        i32::MAX as int
    } else {
        raw
    }
}

/// Attacker `i` holds a melee intent that gets processed this tick: the
/// attacker is live and fighting fit, and so is its target. Names play no
/// part: a nameless combatant hits like any other.
pub open spec fn melee_processed(w: World, i: int) -> bool {
    &&& w.entities.spec_entity_at(i) is Some
    &&& w.melee_intents@.contains_key(i)
    &&& w.combat_stats@.contains_key(i)
    &&& w.combat_stats@[i].hp > 0
    &&& w.entities.spec_is_live(w.melee_intents@[i].target)
    &&& w.combat_stats@.contains_key(w.melee_intents@[i].target.index as int)
    &&& w.combat_stats@[w.melee_intents@[i].target.index as int].hp > 0
}

/// Attacker `i`'s processed blow also produces a log line: both sides are
/// named. The names gate only the message, never the damage.
pub open spec fn melee_logged(w: World, i: int) -> bool {
    &&& melee_processed(w, i)
    &&& w.names@.contains_key(i)
    &&& w.names@.contains_key(w.melee_intents@[i].target.index as int)
}

/// The damage attacker `i`'s processed blow deals.
pub open spec fn attack_damage(w: World, i: int) -> int {
    melee_damage(
        w.combat_stats@[i].power as int,
        w.combat_stats@[w.melee_intents@[i].target.index as int].defense as int,
    )
}

/// The damage amounts appended to `victim`'s accumulator by the attackers
/// with index below `n`, in index order.
pub open spec fn melee_damage_to_upto(w: World, victim: int, n: int) -> Seq<i32>
    decreases n,
{
    if n <= 0 {
        Seq::empty()
    } else {
        let rest = melee_damage_to_upto(w, victim, n - 1);
        if melee_processed(w, n - 1) && w.melee_intents@[n - 1].target.index as int == victim
            && attack_damage(w, n - 1) > 0 {
            rest.push(attack_damage(w, n - 1) as i32)
        } else {
            rest
        }
    }
}

/// The log line a processed attack produces: a miss note for zero damage,
/// a hit note with the amount otherwise.
pub open spec fn melee_msg(w: World, i: int) -> Seq<char> {
    let name = w.names@[i].name@;
    let tname = w.names@[w.melee_intents@[i].target.index as int].name@;
    if attack_damage(w, i) == 0 {
        name + (" is unable to hurt ")@ + tname
    } else {
        name + (" hits ")@ + tname + (", for ")@ + dec_str(attack_damage(w, i)) + (" hp.")@
    }
}

/// The log lines produced by the attackers with index below `n`, in order:
/// one per processed attack whose both sides are named.
pub open spec fn melee_msgs_upto(w: World, n: int) -> Seq<Seq<char>>
    decreases n,
{
    if n <= 0 {
        Seq::empty()
    } else {
        let rest = melee_msgs_upto(w, n - 1);
        if melee_logged(w, n - 1) {
            rest.push(melee_msg(w, n - 1))
        } else {
            rest
        }
    }
}

/// Resolves melee intents into queued damage, once per tick.
pub struct MeleeCombatSystem;

impl MeleeCombatSystem {
    /// For every living attacker with a melee intent against a living
    /// target, compute `max(0, power - defense)`: positive damage joins the
    /// target's accumulator whether or not either side is named. When both
    /// are named, zero damage logs a miss and positive damage logs a hit
    /// with the amount. All melee intents are consumed.
    pub fn run(world: &mut World, log: &mut GameLog)
        requires
            old(world).wf(),
        ensures
            final(world).wf(),
            *final(world) == (World {
                melee_intents: final(world).melee_intents,
                damage_queue: final(world).damage_queue,
                ..*old(world)
            }),
            final(world).melee_intents@ == Map::<int, WantsToMelee>::empty(),
            forall|v: int|
                queued_damage(final(world).damage_queue@, v) == queued_damage(
                    old(world).damage_queue@,
                    v,
                ) + melee_damage_to_upto(
                    *old(world),
                    v,
                    old(world).entities.spec_capacity() as int,
                ),
            final(log).entries@.len() == old(log).entries@.len() + melee_msgs_upto(
                *old(world),
                old(world).entities.spec_capacity() as int,
            ).len(),
            forall|k: int|
                0 <= k < old(log).entries@.len() ==> final(log).entries@[k] == old(
                    log,
                ).entries@[k],
            forall|k: int|
                0 <= k < melee_msgs_upto(
                    *old(world),
                    old(world).entities.spec_capacity() as int,
                ).len() ==> final(log).entries@[old(log).entries@.len() + k]@ == melee_msgs_upto(
                    *old(world),
                    old(world).entities.spec_capacity() as int,
                )[k],
    {
        let cap = world.entities.capacity();
        let mut i: usize = 0;
        while i < cap
            invariant
                world.wf(),
                cap == world.entities.spec_capacity(),
                i <= cap,
                *world == (World { damage_queue: world.damage_queue, ..*old(world) }),
                forall|v: int|
                    queued_damage(world.damage_queue@, v) == queued_damage(
                        old(world).damage_queue@,
                        v,
                    ) + melee_damage_to_upto(*old(world), v, i as int),
                log.entries@.len() == old(log).entries@.len() + melee_msgs_upto(
                    *old(world),
                    i as int,
                ).len(),
                forall|k: int|
                    0 <= k < old(log).entries@.len() ==> log.entries@[k] == old(log).entries@[k],
                forall|k: int|
                    0 <= k < melee_msgs_upto(*old(world), i as int).len() ==> log.entries@[old(
                        log,
                    ).entries@.len() + k]@ == melee_msgs_upto(*old(world), i as int)[k],
            decreases cap - i,
        {
            let ghost msgs_before = melee_msgs_upto(*old(world), i as int);
            let ghost q_pre = world.damage_queue@;
            let mut processed = false;
            if let Some(_e) = world.entities.live_at(i) {
                if let Some(intent) = world.melee_intents.get(i) {
                    let target = intent.target;
                    if world.combat_stats.contains(i) {
                        let hp_ok = match world.combat_stats.get(i) {
                            Some(s) => s.hp > 0,
                            None => false,
                        };
                        if hp_ok && world.entities.is_live(target) {
                            proof {
                                world.entities.lemma_live_index(target);
                            }
                            let t_idx = target.index as usize;
                            let t_ok = world.combat_stats.contains(t_idx);
                            let t_hp_ok = match world.combat_stats.get(t_idx) {
                                Some(s) => s.hp > 0,
                                None => false,
                            };
                            if t_ok && t_hp_ok {
                                let power = match world.combat_stats.get(i) {
                                    Some(s) => s.power,
                                    None => 0,
                                };
                                let defense = match world.combat_stats.get(t_idx) {
                                    Some(s) => s.defense,
                                    None => 0,
                                };
                                let raw = crate::arith::sat_sub_i32(power, defense);
                                let damage: i32 = if raw < 0 {
                                    0
                                } else {
                                    raw
                                };
                                proof {
                                    assert(damage as int == attack_damage(*old(world), i as int));
                                    assert(melee_processed(*old(world), i as int));
                                }
                                if world.names.contains(i) && world.names.contains(t_idx) {
                                    let name: &str = match world.names.get(i) {
                                        Some(n) => n.name.as_str(),
                                        None => "",
                                    };
                                    let tname: &str = match world.names.get(t_idx) {
                                        Some(n) => n.name.as_str(),
                                        None => "",
                                    };
                                    if damage == 0 {
                                        let msg = join3(name, " is unable to hurt ", tname);
                                        log.log(msg);
                                    } else {
                                        let mut msg = join3(name, " hits ", tname);
                                        msg.append(", for ");
                                        let num = u32_to_string(damage as u32);
                                        msg.append(num.as_str());
                                        msg.append(" hp.");
                                        log.log(msg);
                                    }
                                    proof {
                                        assert(melee_logged(*old(world), i as int));
                                        assert(log.entries@.last()@ == melee_msg(
                                            *old(world),
                                            i as int,
                                        ));
                                    }
                                }
                                if damage > 0 {
                                    SufferDamage::new_damage(
                                        &mut world.damage_queue,
                                        target,
                                        damage,
                                    );
                                }
                                processed = true;
                            }
                        }
                    }
                }
            }
            proof {
                if !processed {
                    assert(!melee_processed(*old(world), i as int));
                }
                assert(melee_msgs_upto(*old(world), i + 1) == if melee_logged(
                    *old(world),
                    i as int,
                ) {
                    msgs_before.push(melee_msg(*old(world), i as int))
                } else {
                    msgs_before
                });
                assert forall|v: int|
                    queued_damage(world.damage_queue@, v) == queued_damage(
                        old(world).damage_queue@,
                        v,
                    ) + melee_damage_to_upto(*old(world), v, i + 1) by {
                    let base = queued_damage(old(world).damage_queue@, v);
                    let up_i = melee_damage_to_upto(*old(world), v, i as int);
                    let hit_here = melee_processed(*old(world), i as int) && old(
                        world,
                    ).melee_intents@[i as int].target.index as int == v && attack_damage(
                        *old(world),
                        i as int,
                    ) > 0;
                    assert(melee_damage_to_upto(*old(world), v, i + 1) == if hit_here {
                        up_i.push(attack_damage(*old(world), i as int) as i32)
                    } else {
                        up_i
                    });
                    if hit_here {
                        let d = attack_damage(*old(world), i as int) as i32;
                        assert(queued_damage(world.damage_queue@, v) == queued_damage(
                            q_pre,
                            v,
                        ).push(d));
                        assert((base + up_i).push(d) =~= base + up_i.push(d));
                    } else {
                        assert(queued_damage(world.damage_queue@, v) == queued_damage(q_pre, v));
                    }
                }
            }
            i = i + 1;
        }
        world.melee_intents.clear();
    }
}

} // verus!
