//! Properties the library keeps across its operations, each proved from the
//! contracts the operations state.
use vstd::prelude::*;

use crate::content::{
    MagicEffect, flame_reagents, flame_variant, formula_is_coherent, healing_reagents, healing_variant,
    is_generated_rules, validation_problems, WorldRules,
};
use crate::client::{trim, trim_end, trim_start};
use crate::protocol::parsed_command;
use crate::text::is_space;
use crate::simulation::{
    after_experience, after_needs, blow_landed, blow_state, continued, held_items, loot_taken, quest_advanced_with, rewarded, damage_notices, damage_amount, health_after, hostile_acted, hostile_trace, hostile_turn,
    hostiles_played, immediate_result, living_hostile, needs_notices, revive_result, stack_share, turn_passed, Outcome,
    SimState,
};
use crate::model::{CombatMethod, CommandOutcome, EntityId, GameCommand, Item, SimulationEvent};

verus! {

/// Every campaign's rules can be played: validation finds no problem in them.
pub proof fn law_generated_rules_are_valid(rules: WorldRules, seed: u64)
    requires
        is_generated_rules(rules, seed),
    ensures
        validation_problems(rules.formulas@, rules.formulas@.len() as int).len() == 0,
{
    let f = rules.formulas@;
    let hv = healing_variant(seed);
    let fv = flame_variant(seed);
    assert(0 <= hv < 3);
    assert(0 <= fv < 3);
    assert(formula_is_coherent(f[0])) by {
        assert(f[0].reagents@ == healing_reagents(hv));
    }
    assert(formula_is_coherent(f[1])) by {
        assert(f[1].reagents@ == flame_reagents(fv));
    }
    assert(validation_problems(f, 0).len() == 0);
    assert(validation_problems(f, 1) =~= validation_problems(f, 0) + Seq::empty());
    assert(!(exists|j: int| 0 <= j < 1 && #[trigger] f[j].id == f[1].id));
    assert(validation_problems(f, 2) =~= validation_problems(f, 1) + Seq::empty());
}

/// Every campaign offers a healing formula first and a kindling formula second.
pub proof fn law_generated_rules_offer_both_effects(rules: WorldRules, seed: u64)
    requires
        is_generated_rules(rules, seed),
    ensures
        rules.formulas@[0].effect == MagicEffect::Heal,
        rules.formulas@[1].effect == MagicEffect::Kindle,
{
}

/// Campaign seeds change which reagents a formula needs, never which effects
/// the world's magic has.
pub proof fn law_effect_vocabulary_is_shared(first: WorldRules, first_seed: u64, second: WorldRules, second_seed: u64)
    requires
        is_generated_rules(first, first_seed),
        is_generated_rules(second, second_seed),
    ensures
        first.formulas@.len() == second.formulas@.len(),
        forall|i: int| 0 <= i < first.formulas@.len() ==> #[trigger] first.formulas@[i].effect == second.formulas@[i].effect,
{
    assert forall|i: int| 0 <= i < first.formulas@.len() implies #[trigger] first.formulas@[i].effect == second.formulas@[i].effect by {
        assert(i == 0 || i == 1);
    }
}

/// A blow always costs at least one point of health and never heals: a
/// living target loses health, and health never falls below zero.
pub proof fn law_blows_always_hurt(raw: i16, armor: i16, health: i16)
    requires
        armor >= 0,
        health >= 0,
    ensures
        damage_amount(raw, armor) >= 1,
        0 <= health_after(health, damage_amount(raw, armor)) <= health,
        health > 0 ==> health_after(health, damage_amount(raw, armor)) < health,
{
}

/// Earning experience never takes experience, levels or attack bonus away.
pub proof fn law_experience_only_grows(s: SimState, amount: u32)
    ensures
        after_experience(s, amount).progression.experience >= s.progression.experience,
        after_experience(s, amount).progression.level >= s.progression.level,
        after_experience(s, amount).progression.attack_bonus >= s.progression.attack_bonus,
{
}

/// The part of a stack split off never weighs more than the whole stack, so
/// the two parts together weigh exactly what the stack weighed.
pub proof fn law_split_weight_is_conserved(item: Item, quantity: u16)
    requires
        0 < quantity,
    ensures
        stack_share(item, quantity) <= item.weight_grams,
        (item.weight_grams - stack_share(item, quantity)) + stack_share(item, quantity) == item.weight_grams,
{
    crate::simulation::lemma_share_fits(item, quantity);
}


proof fn lemma_trim_start_settled(s: Seq<char>)
    ensures
        trim_start(s).len() == 0 || !is_space(trim_start(s)[0]),
        trim_start(trim_start(s)) == trim_start(s),
    decreases s.len(),
{
    if s.len() > 0 && is_space(s[0]) {
        lemma_trim_start_settled(s.drop_first());
    }
}

proof fn lemma_trim_end_prefix(s: Seq<char>)
    ensures
        trim_end(s).len() <= s.len(),
        trim_end(s) == s.take(trim_end(s).len() as int),
        trim_end(s).len() == 0 || !is_space(trim_end(s).last()),
        trim_end(trim_end(s)) == trim_end(s),
    decreases s.len(),
{
    if s.len() > 0 && is_space(s.last()) {
        lemma_trim_end_prefix(s.drop_last());
        assert(s.drop_last().take(trim_end(s).len() as int) =~= s.take(trim_end(s).len() as int));
    } else {
        assert(s.take(s.len() as int) =~= s);
    }
}

/// White space around a protocol line never changes what it asks for: a line
/// reads the same as its trimmed text.
pub proof fn law_surrounding_space_is_ignored(line: Seq<char>)
    ensures
        parsed_command(trim(line)) == parsed_command(line),
{
    let t = trim_start(line);
    lemma_trim_start_settled(line);
    lemma_trim_end_prefix(t);
    let u = trim_end(t);
    if u.len() > 0 {
        assert(u[0] == t[0]);
    }
    assert(trim_start(u) == u);
    assert(trim(u) == u);
}

/// A hostile's part of the world's turn is settled by the world it acts in:
/// two runs from the same world, hostile and earlier blow reach the same
/// world, the same events and the same record of blows.
pub proof fn law_hostile_acts_one_way(
    a: SimState,
    hostile: u64,
    attacked: bool,
    b1: SimState,
    added1: Seq<SimulationEvent>,
    attacked1: bool,
    b2: SimState,
    added2: Seq<SimulationEvent>,
    attacked2: bool,
)
    requires
        hostile_acted(a, hostile, attacked, b1, added1, attacked1),
        hostile_acted(a, hostile, attacked, b2, added2, attacked2),
    ensures
        b1 == b2,
        added1 == added2,
        attacked1 == attacked2,
{
}

/// Two strictly increasing sequences with the same members are equal.
pub proof fn lemma_sorted_same_members(x: Seq<u64>, y: Seq<u64>)
    requires
        forall|i: int, j: int| 0 <= i < j < x.len() ==> x[i] < x[j],
        forall|i: int, j: int| 0 <= i < j < y.len() ==> y[i] < y[j],
        forall|k: u64| x.contains(k) <==> y.contains(k),
    ensures
        x == y,
    decreases x.len(),
{
    if x.len() == 0 {
        if y.len() > 0 {
            assert(y.contains(y[0]));
        }
        assert(x =~= y);
    } else {
        assert(x.contains(x[0]));
        assert(y.len() > 0);
        assert(y.contains(y[0]));
        let i = choose|i: int| 0 <= i < x.len() && x[i] == y[0];
        let j = choose|j: int| 0 <= j < y.len() && y[j] == x[0];
        assert(x[0] <= x[i]);
        assert(y[0] <= y[j]);
        assert(x[0] == y[0]);
        let xs = x.skip(1);
        let ys = y.skip(1);
        assert forall|k: u64| xs.contains(k) <==> ys.contains(k) by {
            if xs.contains(k) {
                let p = choose|p: int| 0 <= p < xs.len() && xs[p] == k;
                assert(x[p + 1] == k);
                assert(x.contains(k));
                assert(k != y[0]);
                let q = choose|q: int| 0 <= q < y.len() && y[q] == k;
                assert(q != 0);
                assert(ys[q - 1] == k);
            }
            if ys.contains(k) {
                let p = choose|p: int| 0 <= p < ys.len() && ys[p] == k;
                assert(y[p + 1] == k);
                assert(y.contains(k));
                assert(k != x[0]);
                let q = choose|q: int| 0 <= q < x.len() && x[q] == k;
                assert(q != 0);
                assert(xs[q - 1] == k);
            }
        }
        lemma_sorted_same_members(xs, ys);
        assert(x =~= seq![x[0]] + xs);
        assert(y =~= seq![y[0]] + ys);
    }
}

/// Two records of the same hostiles acting from the same world agree, step by
/// step, on the world, the record of blows and the events so far.
proof fn lemma_hostile_traces_agree(
    a: SimState,
    ids: Seq<u64>,
    trace1: Seq<SimState>,
    marks1: Seq<int>,
    flags1: Seq<bool>,
    events1: Seq<SimulationEvent>,
    trace2: Seq<SimState>,
    marks2: Seq<int>,
    flags2: Seq<bool>,
    events2: Seq<SimulationEvent>,
    i: int,
)
    requires
        hostile_trace(a, ids, trace1, marks1, flags1, events1),
        hostile_trace(a, ids, trace2, marks2, flags2, events2),
        marks1[0] == marks2[0],
        0 <= i <= ids.len(),
    ensures
        trace1[i] == trace2[i],
        flags1[i] == flags2[i],
        marks1[i] == marks2[i],
        events1.subrange(marks1[0], marks1[i]) == events2.subrange(marks2[0], marks2[i]),
    decreases i,
{
    if i == 0 {
        assert(events1.subrange(marks1[0], marks1[0]) =~= events2.subrange(marks2[0], marks2[0]));
    } else {
        let p = i - 1;
        lemma_hostile_traces_agree(a, ids, trace1, marks1, flags1, events1, trace2, marks2, flags2, events2, p);
        assert(hostile_acted(trace1[p], ids[p], flags1[p], trace1[p + 1], events1.subrange(marks1[p], marks1[p + 1]), flags1[p + 1]));
        assert(hostile_acted(trace2[p], ids[p], flags2[p], trace2[p + 1], events2.subrange(marks2[p], marks2[p + 1]), flags2[p + 1]));
        law_hostile_acts_one_way(
            trace1[p],
            ids[p],
            flags1[p],
            trace1[p + 1],
            events1.subrange(marks1[p], marks1[p + 1]),
            flags1[p + 1],
            trace2[p + 1],
            events2.subrange(marks2[p], marks2[p + 1]),
            flags2[p + 1],
        );
        assert(0 <= marks1[p] <= events1.len());
        assert(0 <= marks1[i] <= events1.len());
        assert(0 <= marks2[p] <= events2.len());
        assert(0 <= marks2[i] <= events2.len());
        assert(marks1[0] <= marks1[p]) by {
            lemma_marks_rise(a, ids, trace1, marks1, flags1, events1, p);
        }
        assert(events1.subrange(marks1[0], marks1[i]) =~= events1.subrange(marks1[0], marks1[p]) + events1.subrange(
            marks1[p],
            marks1[i],
        ));
        assert(events2.subrange(marks2[0], marks2[i]) =~= events2.subrange(marks2[0], marks2[p]) + events2.subrange(
            marks2[p],
            marks2[i],
        ));
    }
}

/// The marks of a record of hostiles acting never fall.
proof fn lemma_marks_rise(
    a: SimState,
    ids: Seq<u64>,
    trace: Seq<SimState>,
    marks: Seq<int>,
    flags: Seq<bool>,
    events: Seq<SimulationEvent>,
    i: int,
)
    requires
        hostile_trace(a, ids, trace, marks, flags, events),
        0 <= i <= ids.len(),
    ensures
        marks[0] <= marks[i],
    decreases i,
{
    if i > 0 {
        lemma_marks_rise(a, ids, trace, marks, flags, events, i - 1);
        let q = i - 1;
        assert(hostile_acted(trace[q], ids[q], flags[q], trace[q + 1], events.subrange(marks[q], marks[q + 1]), flags[q + 1]));
    }
}

/// The hostiles' turn is settled by the world it starts from: two runs reach
/// the same world and add the same events.
pub proof fn law_hostile_turn_is_determined(
    a: SimState,
    before: Seq<SimulationEvent>,
    b1: SimState,
    after1: Seq<SimulationEvent>,
    b2: SimState,
    after2: Seq<SimulationEvent>,
)
    requires
        hostiles_played(a, b1, before, after1),
        hostiles_played(a, b2, before, after2),
    ensures
        b1 == b2,
        after1.len() == after2.len(),
        after1.subrange(before.len() as int, after1.len() as int) == after2.subrange(
            before.len() as int,
            after2.len() as int,
        ),
{
    let (ids1, trace1, marks1, flags1) = choose|ids: Seq<u64>, trace: Seq<SimState>, marks: Seq<int>, flags: Seq<bool>|
        {
            &&& #[trigger] hostile_trace(a, ids, trace, marks, flags, after1)
            &&& forall|i: int, j: int| 0 <= i < j < ids.len() ==> ids[i] < ids[j]
            &&& forall|k: u64| living_hostile(a, k) <==> ids.contains(k)
            &&& marks[0] == before.len()
            &&& marks[ids.len() as int] == after1.len()
            &&& trace[ids.len() as int] == b1
        };
    let (ids2, trace2, marks2, flags2) = choose|ids: Seq<u64>, trace: Seq<SimState>, marks: Seq<int>, flags: Seq<bool>|
        {
            &&& #[trigger] hostile_trace(a, ids, trace, marks, flags, after2)
            &&& forall|i: int, j: int| 0 <= i < j < ids.len() ==> ids[i] < ids[j]
            &&& forall|k: u64| living_hostile(a, k) <==> ids.contains(k)
            &&& marks[0] == before.len()
            &&& marks[ids.len() as int] == after2.len()
            &&& trace[ids.len() as int] == b2
        };
    assert forall|k: u64| ids1.contains(k) <==> ids2.contains(k) by {
        assert(living_hostile(a, k) <==> ids1.contains(k));
        assert(living_hostile(a, k) <==> ids2.contains(k));
    }
    lemma_sorted_same_members(ids1, ids2);
    lemma_hostile_traces_agree(
        a,
        ids1,
        trace1,
        marks1,
        flags1,
        after1,
        trace2,
        marks2,
        flags2,
        after2,
        ids1.len() as int,
    );
}

/// The world's turn after a command is settled by the world the command left
/// and what the command reported: two runs reach the same world with the same
/// outcome.
pub proof fn law_world_turn_is_determined(mid: SimState, done: Outcome, b1: SimState, o1: Outcome, b2: SimState, o2: Outcome)
    requires
        turn_passed(mid, done, b1, o1),
        turn_passed(mid, done, b2, o2),
    ensures
        b1 == b2,
        o1 == o2,
{
    let before = done.events + needs_notices(mid);
    let (acted1, notices1) = choose|acted: SimState, notices: Seq<SimulationEvent>|
        {
            &&& hostile_turn(after_needs(mid), acted, done.events + needs_notices(mid), notices)
            &&& b1 == revive_result(acted).0
            &&& o1.events == notices + revive_result(acted).1
            &&& o1.advanced_time
            &&& o1.changed_world == (done.changed_world || acted != after_needs(mid))
        };
    let (acted2, notices2) = choose|acted: SimState, notices: Seq<SimulationEvent>|
        {
            &&& hostile_turn(after_needs(mid), acted, done.events + needs_notices(mid), notices)
            &&& b2 == revive_result(acted).0
            &&& o2.events == notices + revive_result(acted).1
            &&& o2.advanced_time
            &&& o2.changed_world == (done.changed_world || acted != after_needs(mid))
        };
    law_hostile_turn_is_determined(after_needs(mid), before, acted1, notices1, acted2, notices2);
    assert(notices1 =~= notices1.subrange(0, before.len() as int) + notices1.subrange(
        before.len() as int,
        notices1.len() as int,
    ));
    assert(notices2 =~= notices2.subrange(0, before.len() as int) + notices2.subrange(
        before.len() as int,
        notices2.len() as int,
    ));
    assert(notices1 == notices2);
    assert(o1.events == o2.events);
}

/// Replaying a command whose effect is settled by the state, from the same
/// state, ends in the same state with the same outcome: the step the command
/// takes and the world's turn after it leave nothing open.
pub proof fn law_replay_is_deterministic(
    s: SimState,
    command: GameCommand,
    b1: SimState,
    o1: Outcome,
    b2: SimState,
    o2: Outcome,
)
    requires
        immediate_result(s, command) is Some,
        continued(immediate_result(s, command).unwrap().0, immediate_result(s, command).unwrap().1, b1, o1),
        continued(immediate_result(s, command).unwrap().0, immediate_result(s, command).unwrap().1, b2, o2),
    ensures
        b1 == b2,
        o1 == o2,
{
    let (mid, done) = immediate_result(s, command).unwrap();
    if done.advanced_time {
        law_world_turn_is_determined(mid, done, b1, o1, b2, o2);
    }
}


/// The outcome of a landed blow is settled by the world it lands in: two runs
/// agree on the items, the entities, the maps, the clock, the player's
/// progression, every combatant, titles, theft marks, containers and the
/// blow's own events; and, when the attacker stands in the world and is no
/// container, on what every holder carries and on every quest's progress.
pub proof fn law_fight_outcome_is_determined(
    a: SimState,
    mid: SimState,
    b1: SimState,
    o1: CommandOutcome,
    b2: SimState,
    o2: CommandOutcome,
    attacker: EntityId,
    target: EntityId,
    raw: i16,
    method: CombatMethod,
    prefix: Seq<SimulationEvent>,
)
    requires
        blow_landed(a, mid, b1, o1, attacker, target, raw, method, prefix),
        blow_landed(a, mid, b2, o2, attacker, target, raw, method, prefix),
        target != a.player,
    ensures
        b1.items == b2.items,
        b1.entities == b2.entities,
        b1.maps == b2.maps,
        b1.tick == b2.tick,
        b1.progression == b2.progression,
        b1.combatants == b2.combatants,
                o1.events@.subrange(0, (prefix.len() + damage_notices(mid, attacker, target, raw, method).len()) as int)
                    == o2.events@.subrange(0, (prefix.len() + damage_notices(mid, attacker, target, raw, method).len()) as int),
                b1.legal_owners == b2.legal_owners,
                b1.stolen == b2.stolen,
                b1.containers == b2.containers,
                b1.quests.dom() == b2.quests.dom(),
                mid.entities.contains_key(attacker.0) && !mid.containers.contains_key(attacker.0) ==> {
                    &&& forall|h: u64| held_items(b1.inventories, h) == #[trigger] held_items(b2.inventories, h)
                    &&& forall|k: u64|
                        #[trigger] b1.quests.contains_key(k) ==> b1.quests[k].status == b2.quests[k].status
                            && b1.quests[k].objectives@ == b2.quests[k].objectives@
                },
        {
    reveal(blow_landed);
    let n = prefix.len() as int;
    let m = damage_notices(mid, attacker, target, raw, method).len() as int;
    assert(o1.events@.subrange(0, n + m) =~= o1.events@.subrange(0, n) + o1.events@.subrange(n, n + m));
    assert(o2.events@.subrange(0, n + m) =~= o2.events@.subrange(0, n) + o2.events@.subrange(n, n + m));
    let landed = blow_state(a, mid, attacker, target, raw, method);
    let events = prefix + damage_notices(mid, attacker, target, raw, method);
    if mid.entities.contains_key(attacker.0) && !mid.containers.contains_key(attacker.0) {
        let l1 = choose|looted: Set<u64>|
            loot_taken(landed, b1.inventories, attacker, target, events, looted) && forall|k: u64|
                #[trigger] a.quests.contains_key(k) ==> quest_advanced_with(a.quests[k], b1.quests[k], events, looted, a.player);
        let l2 = choose|looted: Set<u64>|
            loot_taken(landed, b2.inventories, attacker, target, events, looted) && forall|k: u64|
                #[trigger] a.quests.contains_key(k) ==> quest_advanced_with(a.quests[k], b2.quests[k], events, looted, a.player);
        if rewarded(landed, attacker, target, events) {
            assert(l1 == l2);
        } else {
            assert(l1 =~= l2);
        }
        assert forall|h: u64| held_items(b1.inventories, h) == #[trigger] held_items(b2.inventories, h) by {
            if h != target.0 && h != attacker.0 && landed.inventories.contains_key(h) {
                assert(b1.inventories[h] == b2.inventories[h]);
            }
        }
        assert forall|k: u64|
            #[trigger] b1.quests.contains_key(k) implies b1.quests[k].status == b2.quests[k].status
                && b1.quests[k].objectives@ == b2.quests[k].objectives@ by {
            assert(a.quests.contains_key(k));
            if a.quests[k].status == crate::model::QuestStatus::Active {
                assert(b1.quests[k].objectives@ =~= b2.quests[k].objectives@);
            }
        }
    }
    assert(b1.combatants =~= b2.combatants) by {
        assert forall|k: u64| #[trigger] b1.combatants.contains_key(k) implies b1.combatants[k] == b2.combatants[k] by {
            if k != target.0 && k != a.player.0 {
                assert(a.combatants.contains_key(k));
            }
        }
    }
}

} // verus!
